//! Telling connected devices about their updates.

use vstd::prelude::*;

use crate::keyed;
use crate::keyed::{find, Row};
use crate::ota::error::Error;
use crate::ota::error::ErrorView;
use crate::status::Timestamp;

verus! {

#[verifier::external_type_specification]
#[verifier::external_body]
#[verifier::reject_recursive_types(T)]
pub struct ExSender<T>(tokio::sync::broadcast::Sender<T>);

#[verifier::external_type_specification]
#[verifier::external_body]
#[verifier::reject_recursive_types(T)]
pub struct ExReceiver<T>(tokio::sync::broadcast::Receiver<T>);

/// How many commands a channel holds for a slow subscriber.
pub const CHANNEL_CAPACITY: usize = 8;

/// What a device is told to install.
#[derive(Debug)]
pub struct UpdateCommand {
    pub update_job_id: String,
    pub target_version: String,
    pub artifact_url: String,
    pub sha256: String,
    pub size_bytes: u64,
    pub apply_by: Option<Timestamp>,
}

/// What an [`UpdateCommand`] says.
#[verifier::ext_equal]
pub struct CommandView {
    pub update_job_id: Seq<char>,
    pub target_version: Seq<char>,
    pub artifact_url: Seq<char>,
    pub sha256: Seq<char>,
    pub size_bytes: u64,
    pub apply_by: Option<Timestamp>,
}

impl View for UpdateCommand {
    type V = CommandView;

    open spec fn view(&self) -> CommandView {
        CommandView {
            update_job_id: self.update_job_id@,
            target_version: self.target_version@,
            artifact_url: self.artifact_url@,
            sha256: self.sha256@,
            size_bytes: self.size_bytes,
            apply_by: self.apply_by,
        }
    }
}

impl Clone for UpdateCommand {
    fn clone(&self) -> (r: UpdateCommand)
        ensures
            r == *self,
    {
        UpdateCommand {
            update_job_id: self.update_job_id.clone(),
            target_version: self.target_version.clone(),
            artifact_url: self.artifact_url.clone(),
            sha256: self.sha256.clone(),
            size_bytes: self.size_bytes,
            apply_by: self.apply_by,
        }
    }
}

/// Which channel a sender sends on.
pub uninterp spec fn channel_of(sender: tokio::sync::broadcast::Sender<UpdateCommand>) -> int;

/// The number of commands for which the channel of a sender was made.
pub uninterp spec fn capacity_of(sender: tokio::sync::broadcast::Sender<UpdateCommand>) -> nat;

/// The commands that were put on the channel through a sender, in order.
pub uninterp spec fn delivered(sender: tokio::sync::broadcast::Sender<UpdateCommand>) -> Seq<
    CommandView,
>;

/// The commands that a sender gave back because nobody listened, in order.
pub uninterp spec fn refused(sender: tokio::sync::broadcast::Sender<UpdateCommand>) -> Seq<
    CommandView,
>;

/// Which channel a receiver listens on.
pub uninterp spec fn listens_on(receiver: tokio::sync::broadcast::Receiver<UpdateCommand>) -> int;

/// How many commands had been put on the channel when the receiver started to listen. It
/// gets those that follow.
pub uninterp spec fn listens_from(
    receiver: tokio::sync::broadcast::Receiver<UpdateCommand>,
) -> nat;

/// `n` receivers may listen on the channel of a sender: the number of them that
/// `tokio::sync::broadcast::Sender` may find when it is asked for it, or sends.
pub uninterp spec fn may_have_listeners(
    sender: tokio::sync::broadcast::Sender<UpdateCommand>,
    n: nat,
) -> bool;

/// A channel on which nothing was sent yet, beside those in `_others`.
///
/// Calls `tokio::sync::broadcast::channel` and lets go of the receiver that comes with it.
/// The call makes the channel that its sender sends on, so it is none of those that other
/// senders send on. A capacity on which the call panics is ruled out.
#[verifier::external_body]
fn new_channel(capacity: usize, _others: &Vec<Channel>) -> (r:
    tokio::sync::broadcast::Sender<UpdateCommand>)
    requires
        0 < capacity <= usize::MAX / 2,
    ensures
        forall|i: int| #![trigger _others@[i]]
            0 <= i < _others@.len() ==> channel_of(_others@[i].sender) != channel_of(r),
        capacity_of(r) == capacity,
        delivered(r) == Seq::<CommandView>::empty(),
        refused(r) == Seq::<CommandView>::empty(),
{
    tokio::sync::broadcast::channel(capacity).0
}

/// A receiver for what is sent from now on.
///
/// Calls `tokio::sync::broadcast::Sender::subscribe`, which starts at the place where the
/// next command will be put. It panics where a quarter of all numbers of the machine's word
/// are receivers already; memory does not hold that many.
#[verifier::external_body]
fn listen(sender: &tokio::sync::broadcast::Sender<UpdateCommand>) -> (r:
    tokio::sync::broadcast::Receiver<UpdateCommand>)
    ensures
        listens_on(r) == channel_of(*sender),
        listens_from(r) == delivered(*sender).len(),
{
    sender.subscribe()
}

/// How many receivers listen.
///
/// Calls `tokio::sync::broadcast::Sender::receiver_count`. Receivers come and go by
/// themselves, so which number comes is not claimed; it is one for this sender's channel.
#[verifier::external_body]
fn listeners(sender: &tokio::sync::broadcast::Sender<UpdateCommand>) -> (r: usize)
    ensures
        may_have_listeners(*sender, r as nat),
{
    sender.receiver_count()
}

/// Puts a command on the channel, where somebody listens.
///
/// Calls `tokio::sync::broadcast::Sender::send`: it succeeds with the number of receivers,
/// which is not zero, or gives the command back where there are none and leaves the channel
/// as it is. Whether there are any is not claimed.
#[verifier::external_body]
fn put(sender: &mut tokio::sync::broadcast::Sender<UpdateCommand>, cmd: UpdateCommand) -> (r:
    Result<usize, ()>)
    ensures
        channel_of(*final(sender)) == channel_of(*old(sender)),
        capacity_of(*final(sender)) == capacity_of(*old(sender)),
        match r {
            Ok(n) => {
                &&& n > 0
                &&& may_have_listeners(*old(sender), n as nat)
                &&& delivered(*final(sender)) == delivered(*old(sender)).push(cmd@)
                &&& refused(*final(sender)) == refused(*old(sender))
            },
            Err(_) => {
                &&& may_have_listeners(*old(sender), 0)
                &&& delivered(*final(sender)) == delivered(*old(sender))
                &&& refused(*final(sender)) == refused(*old(sender)).push(cmd@)
            },
        },
{
    sender.send(cmd).map_err(|_refused| ())
}

/// The channel of a device.
struct Channel {
    device_id: String,
    sender: tokio::sync::broadcast::Sender<UpdateCommand>,
}

/// What a device's channel is: which one, for how many commands, what was put on it, and what
/// came back because nobody listened.
#[verifier::ext_equal]
pub struct ChannelView {
    pub device_id: Seq<char>,
    pub channel: int,
    pub capacity: nat,
    pub delivered: Seq<CommandView>,
    pub refused: Seq<CommandView>,
}

impl ChannelView {
    /// The channel after a command was put on it.
    pub open spec fn after_delivery(self, cmd: CommandView) -> ChannelView {
        ChannelView { delivered: self.delivered.push(cmd), ..self }
    }

    /// The channel after a command came back because nobody listened.
    pub open spec fn after_refusal(self, cmd: CommandView) -> ChannelView {
        ChannelView { refused: self.refused.push(cmd), ..self }
    }
}

impl View for Channel {
    type V = ChannelView;

    closed spec fn view(&self) -> ChannelView {
        ChannelView {
            device_id: self.device_id@,
            channel: channel_of(self.sender),
            capacity: capacity_of(self.sender),
            delivered: delivered(self.sender),
            refused: refused(self.sender),
        }
    }
}

impl Row for Channel {
    open spec fn key(row: ChannelView) -> Seq<char> {
        row.device_id
    }

    fn key_text(&self) -> (r: &str) {
        self.device_id.as_str()
    }
}

/// The channels of the devices. Each device has its own, made when somebody first listens
/// for it.
pub struct Dispatcher {
    channels: Vec<Channel>,
}

impl View for Dispatcher {
    type V = Map<Seq<char>, ChannelView>;

    closed spec fn view(&self) -> Map<Seq<char>, ChannelView> {
        keyed::by_key::<Channel>(keyed::views(self.channels@))
    }
}

/// Whether a command can be sent, given how many listen on the device's channel, where it has
/// one.
pub fn decide_dispatch(device_id: &str, listening: Option<usize>) -> (r: Result<usize, Error>)
    ensures
        match listening {
            Some(n) => if n > 0 {
                r == Ok::<usize, Error>(n)
            } else {
                r matches Err(e) && e@ == ErrorView::NoActiveSubscribers(device_id@)
            },
            None => r matches Err(e) && e@ == ErrorView::NoActiveSubscribers(device_id@),
        },
{
    match listening {
        Some(n) => {
            if n > 0 {
                Ok(n)
            } else {
                Err(Error::NoActiveSubscribers(device_id.to_owned()))
            }
        },
        None => Err(Error::NoActiveSubscribers(device_id.to_owned())),
    }
}

/// A channel after commands were put on it, one after the other.
pub open spec fn after_deliveries(channel: ChannelView, cmds: Seq<CommandView>) -> ChannelView
    decreases cmds.len(),
{
    if cmds.len() == 0 {
        channel
    } else {
        after_deliveries(channel, cmds.drop_last()).after_delivery(cmds.last())
    }
}

/// Who starts to listen has before them exactly what is delivered from then on, in order.
pub proof fn listeners_hear_what_follows(channel: ChannelView, cmds: Seq<CommandView>)
    ensures
        after_deliveries(channel, cmds).channel == channel.channel,
        after_deliveries(channel, cmds).delivered == channel.delivered + cmds,
        after_deliveries(channel, cmds).delivered.skip(channel.delivered.len() as int) == cmds,
    decreases cmds.len(),
{
    if cmds.len() > 0 {
        listeners_hear_what_follows(channel, cmds.drop_last());
        assert(channel.delivered + cmds =~= (channel.delivered + cmds.drop_last()).push(
            cmds.last(),
        ));
    } else {
        assert(channel.delivered + cmds =~= channel.delivered);
    }
    assert((channel.delivered + cmds).skip(channel.delivered.len() as int) =~= cmds);
}

/// No channel serves two devices.
pub open spec fn own_channels(channels: Map<Seq<char>, ChannelView>) -> bool {
    forall|a: Seq<char>, b: Seq<char>|
        channels.contains_key(a) && channels.contains_key(b) && a != b ==> (
        #[trigger] channels[a]).channel != (#[trigger] channels[b]).channel
}

/// What a receiver that listens on the channel `on`, from its `from`-th command on, gets of
/// the commands to `device`.
pub open spec fn heard(
    channels: Map<Seq<char>, ChannelView>,
    device: Seq<char>,
    on: int,
    from: nat,
) -> Seq<CommandView> {
    if channels.contains_key(device) && channels[device].channel == on {
        channels[device].delivered.skip(from as int)
    } else {
        Seq::empty()
    }
}

/// A command that is delivered to a device reaches each receiver that listens for the device
/// once, after what the receiver got before; a receiver that listens for another device gets
/// nothing of it.
pub proof fn a_delivery_reaches_its_device_only(
    channels: Map<Seq<char>, ChannelView>,
    device: Seq<char>,
    cmd: CommandView,
    listener: Seq<char>,
    from: nat,
)
    requires
        own_channels(channels),
        channels.contains_key(device),
        channels.contains_key(listener),
        from <= channels[listener].delivered.len(),
    ensures
        ({
            let after = channels.insert(device, channels[device].after_delivery(cmd));
            let on = channels[listener].channel;
            &&& own_channels(after)
            &&& if listener == device {
                heard(after, device, on, from) == heard(channels, device, on, from).push(cmd)
            } else {
                &&& heard(after, device, on, from) == Seq::<CommandView>::empty()
                &&& heard(after, listener, on, from) == heard(channels, listener, on, from)
            }
        }),
{
    let after = channels.insert(device, channels[device].after_delivery(cmd));
    let on = channels[listener].channel;
    assert forall|a: Seq<char>, b: Seq<char>|
        after.contains_key(a) && after.contains_key(b) && a != b implies (
    #[trigger] after[a]).channel != (#[trigger] after[b]).channel by {
        assert(after[a].channel == channels[a].channel);
        assert(after[b].channel == channels[b].channel);
    }
    if listener == device {
        assert(heard(after, device, on, from) =~= heard(channels, device, on, from).push(cmd));
    }
}

impl Dispatcher {
    /// No device has two channels, no channel two devices, and each channel has the usual
    /// capacity.
    pub closed spec fn wf(&self) -> bool {
        &&& keyed::keys_unique::<Channel>(keyed::views(self.channels@))
        &&& forall|i: int, j: int| #![trigger self.channels@[i], self.channels@[j]]
            0 <= i < self.channels@.len() && 0 <= j < self.channels@.len() && i != j
                ==> channel_of(self.channels@[i].sender) != channel_of(self.channels@[j].sender)
        &&& forall|i: int| #![trigger self.channels@[i]]
            0 <= i < self.channels@.len() ==> capacity_of(self.channels@[i].sender)
                == CHANNEL_CAPACITY
    }

    /// `n` receivers may listen for the device.
    pub closed spec fn may_hear(&self, device_id: Seq<char>, n: nat) -> bool {
        exists|i: int|
            keyed::holds_at::<Channel>(keyed::views(self.channels@), device_id, i)
                && may_have_listeners((#[trigger] self.channels@[i]).sender, n)
    }

    /// Whatever was subscribed and dispatched, no channel serves two devices.
    pub proof fn channels_are_their_own(&self)
        requires
            self.wf(),
        ensures
            own_channels(self@),
    {
        let rows = keyed::views(self.channels@);
        assert forall|a: Seq<char>, b: Seq<char>|
            self@.contains_key(a) && self@.contains_key(b) && a != b implies (
        #[trigger] self@[a]).channel != (#[trigger] self@[b]).channel by {
            let i = keyed::lemma_held::<Channel>(rows, a);
            let j = keyed::lemma_held::<Channel>(rows, b);
            assert(rows[i] == self.channels@[i]@);
            assert(rows[j] == self.channels@[j]@);
        }
    }

    /// No channels.
    pub fn new() -> (r: Dispatcher)
        ensures
            r.wf(),
            r@ == Map::<Seq<char>, ChannelView>::empty(),
    {
        let r = Dispatcher { channels: Vec::new() };
        assert(r@ =~= Map::<Seq<char>, ChannelView>::empty());
        r
    }

    /// A receiver on the channel of a device, which is made where there is none. It gets the
    /// commands that are dispatched to the device from now on.
    pub fn subscribe(&mut self, device_id: &str) -> (r: tokio::sync::broadcast::Receiver<
        UpdateCommand,
    >)
        requires
            old(self).wf(),
        ensures
            final(self).wf(),
            final(self)@.contains_key(device_id@),
            listens_on(r) == final(self)@[device_id@].channel,
            listens_from(r) == final(self)@[device_id@].delivered.len(),
            if old(self)@.contains_key(device_id@) {
                final(self)@ == old(self)@
            } else {
                &&& final(self)@ == old(self)@.insert(device_id@, final(self)@[device_id@])
                &&& final(self)@[device_id@].delivered == Seq::<CommandView>::empty()
                &&& final(self)@[device_id@].refused == Seq::<CommandView>::empty()
                &&& final(self)@[device_id@].capacity == CHANNEL_CAPACITY
                &&& final(self)@[device_id@].capacity == 8
            },
    {
        match find(&self.channels, device_id) {
            Some(i) => {
                proof {
                    let rows = keyed::views(self.channels@);
                    assert(rows[i as int] == self.channels@[i as int]@);
                    keyed::lemma_found::<Channel>(rows, i as int);
                }
                listen(&self.channels[i].sender)
            },
            None => {
                let sender = new_channel(CHANNEL_CAPACITY, &self.channels);
                let receiver = listen(&sender);
                let channel = Channel { device_id: device_id.to_owned(), sender };
                let ghost said = channel@;
                let ghost rows = keyed::views(self.channels@);
                proof {
                    keyed::lemma_push::<Channel>(rows, said);
                }
                self.channels.push(channel);
                assert(keyed::views(self.channels@) =~= rows.push(said));
                receiver
            },
        }
    }

    /// Sends a command to everyone who listens for the device, and answers with how many
    /// they are; fails where nobody does. Where the last of them stops listening between the
    /// counting and the sending, the command comes back and the count is answered all the
    /// same.
    pub fn dispatch(&mut self, device_id: &str, cmd: UpdateCommand) -> (r: Result<usize, Error>)
        requires
            old(self).wf(),
        ensures
            final(self).wf(),
            if old(self)@.contains_key(device_id@) {
                exists|n: nat| #[trigger]
                    old(self).may_hear(device_id@, n) && (if n == 0 {
                        r is Err
                    } else {
                        r matches Ok(k) && k == n
                    })
            } else {
                r is Err
            },
            match r {
                Ok(n) => {
                    let channel = old(self)@[device_id@];
                    &&& n > 0
                    &&& old(self)@.contains_key(device_id@)
                    &&& {
                        ||| final(self)@ == old(self)@.insert(
                            device_id@,
                            channel.after_delivery(cmd@),
                        ) && exists|m: nat| m > 0 && #[trigger] old(self).may_hear(device_id@, m)
                        ||| final(self)@ == old(self)@.insert(
                            device_id@,
                            channel.after_refusal(cmd@),
                        ) && old(self).may_hear(device_id@, 0)
                    }
                },
                Err(e) => e@ == ErrorView::NoActiveSubscribers(device_id@) && final(self)@ == old(
                    self,
                )@,
            },
    {
        let at: Option<usize> = find(&self.channels, device_id);
        let listening: Option<usize> = match at {
            Some(i) => Some(listeners(&self.channels[i].sender)),
            None => None,
        };
        proof {
            if let Some(i) = at {
                let rows = keyed::views(self.channels@);
                assert(rows[i as int] == self.channels@[i as int]@);
                keyed::lemma_found::<Channel>(rows, i as int);
                assert(keyed::holds_at::<Channel>(rows, device_id@, i as int));
                assert(may_have_listeners(
                    self.channels@[i as int].sender,
                    listening->Some_0 as nat,
                ));
                assert(old(self).may_hear(device_id@, listening->Some_0 as nat));
            }
        }
        let count: usize = match decide_dispatch(device_id, listening) {
            Ok(n) => n,
            Err(e) => return Err(e),
        };
        match at {
            Some(i) => {
                let ghost rows = keyed::views(self.channels@);
                let ghost before = self.channels@[i as int]@;
                proof {
                    assert(rows[i as int] == before);
                    keyed::lemma_found::<Channel>(rows, i as int);
                }
                let ghost command = cmd@;
                let _sent = put(&mut self.channels[i].sender, cmd);
                proof {
                    let after = self.channels@[i as int]@;
                    assert(keyed::views(self.channels@) =~= rows.update(i as int, after));
                    keyed::lemma_update::<Channel>(rows, i as int, after);
                    assert(keyed::holds_at::<Channel>(rows, device_id@, i as int));
                    match &_sent {
                        Ok(n) => {
                            assert(after =~= before.after_delivery(command));
                            assert(old(self).may_hear(device_id@, *n as nat));
                        },
                        Err(_) => {
                            assert(after =~= before.after_refusal(command));
                            assert(old(self).may_hear(device_id@, 0));
                        },
                    }
                }
                Ok(count)
            },
            None => Err(Error::NoActiveSubscribers(device_id.to_owned())),
        }
    }
}

/// A command that is put on a channel comes behind those that were put there before, and one
/// that comes back behind those that came back before; nothing else of the channel changes.
pub proof fn channels_keep_what_they_were_given(channel: ChannelView, cmd: CommandView)
    ensures
        channel.after_delivery(cmd).delivered == channel.delivered + seq![cmd],
        channel.after_delivery(cmd).refused == channel.refused,
        channel.after_delivery(cmd).device_id == channel.device_id,
        channel.after_delivery(cmd).channel == channel.channel,
        channel.after_delivery(cmd).capacity == channel.capacity,
        channel.after_refusal(cmd).refused == channel.refused + seq![cmd],
        channel.after_refusal(cmd).delivered == channel.delivered,
        channel.after_refusal(cmd).device_id == channel.device_id,
        channel.after_refusal(cmd).channel == channel.channel,
        channel.after_refusal(cmd).capacity == channel.capacity,
{
    assert(channel.delivered.push(cmd) =~= channel.delivered + seq![cmd]);
    assert(channel.refused.push(cmd) =~= channel.refused + seq![cmd]);
}

/// A command says what it holds, each thing under its own name.
pub proof fn commands_say_what_they_hold(cmd: UpdateCommand)
    ensures
        cmd@.update_job_id == cmd.update_job_id@,
        cmd@.target_version == cmd.target_version@,
        cmd@.artifact_url == cmd.artifact_url@,
        cmd@.sha256 == cmd.sha256@,
        cmd@.size_bytes == cmd.size_bytes,
        cmd@.apply_by == cmd.apply_by,
{
}

} // verus!
