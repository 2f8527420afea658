//! Heartbeats: a stream of messages with which a device says that it is alive.

use vstd::prelude::*;

use crate::device::error::Error;
use crate::device::store::DeviceStore;
use crate::device::store::FleetView;
use crate::sources;
use crate::sources::unix_now;
use crate::status::StatusView;
use crate::status::{Code, Status};
use crate::text::join3;

verus! {

/// What a heartbeat is answered: whether to slow down, and what to do.
#[derive(Debug)]
pub struct HeartbeatResponse {
    pub throttle: bool,
    pub directive: String,
}

/// What a heartbeat is answered.
#[verifier::ext_equal]
pub struct ResponseView {
    pub throttle: bool,
    pub directive: Seq<char>,
}

impl View for HeartbeatResponse {
    type V = ResponseView;

    open spec fn view(&self) -> ResponseView {
        ResponseView { throttle: self.throttle, directive: self.directive@ }
    }
}

/// The answer to a heartbeat of a device that is known: go on.
pub open spec fn go_on() -> ResponseView {
    ResponseView { throttle: false, directive: Seq::empty() }
}

/// What comes in on the stream: a message from a device, an error, or the end.
pub enum HeartbeatEvent {
    Message { device_id: String },
    Failed { error: String },
    Ended,
}

/// What is to be done about it: note that the device was seen and report the outcome; send
/// a refusal and close; or just close.
#[derive(Debug)]
pub enum HeartbeatAction {
    Touch { device_id: String },
    Refuse(Status),
    Close,
}

/// What is sent when the touch was tried.
pub type HeartbeatReply = Result<HeartbeatResponse, Status>;

/// A heartbeat stream as the service sees it. The device is the one that the first message
/// names.
pub struct HeartbeatSession {
    device_id: Option<String>,
    open: bool,
}

/// The state of a [`HeartbeatSession`].
#[verifier::ext_equal]
pub struct SessionView {
    pub device_id: Option<Seq<char>>,
    pub open: bool,
}

impl View for HeartbeatSession {
    type V = SessionView;

    closed spec fn view(&self) -> SessionView {
        SessionView {
            device_id: match self.device_id {
                Some(id) => Some(id@),
                None => None,
            },
            open: self.open,
        }
    }
}

/// The refusal that a device gets that is not known.
pub open spec fn unknown_device(id: Seq<char>) -> StatusView {
    StatusView { code: Code::NotFound, message: "device "@ + id + " not found"@ }
}

/// What is done about a message that comes in while the stream is open: the touch names the
/// device of the first message.
pub open spec fn touched_device(session: SessionView, device_id: Seq<char>) -> Seq<char> {
    match session.device_id {
        Some(id) => id,
        None => device_id,
    }
}

impl HeartbeatSession {
    /// A stream on which nothing came in yet.
    pub fn new() -> (r: HeartbeatSession)
        ensures
            r@ == (SessionView { device_id: None, open: true }),
    {
        HeartbeatSession { device_id: None, open: true }
    }

    /// Whether the stream is still to be served.
    pub fn is_open(&self) -> (r: bool)
        ensures
            r == self@.open,
    {
        self.open
    }

    /// Something came in. Only an error before the first message is answered.
    pub fn receive(&mut self, event: HeartbeatEvent) -> (r: HeartbeatAction)
        requires
            old(self)@.open,
        ensures
            match event {
                HeartbeatEvent::Message { device_id } => {
                    let id = touched_device(old(self)@, device_id@);
                    &&& r matches HeartbeatAction::Touch { device_id: t } && t@ == id
                    &&& final(self)@ == (SessionView { device_id: Some(id), open: true })
                },
                HeartbeatEvent::Failed { error } => {
                    &&& final(self)@ == (SessionView { open: false, ..old(self)@ })
                    &&& if old(self)@.device_id is None {
                        r matches HeartbeatAction::Refuse(s) && s@ == (StatusView {
                            code: Code::Internal,
                            message: error@,
                        })
                    } else {
                        r is Close
                    }
                },
                HeartbeatEvent::Ended => {
                    &&& final(self)@ == (SessionView { open: false, ..old(self)@ })
                    &&& r is Close
                },
            },
    {
        match event {
            HeartbeatEvent::Message { device_id } => {
                let id: String = match &self.device_id {
                    Some(known) => known.clone(),
                    None => device_id,
                };
                self.device_id = Some(id.clone());
                HeartbeatAction::Touch { device_id: id }
            },
            HeartbeatEvent::Failed { error } => {
                self.open = false;
                match self.device_id {
                    None => HeartbeatAction::Refuse(Status::new(Code::Internal, error)),
                    Some(_) => HeartbeatAction::Close,
                }
            },
            HeartbeatEvent::Ended => {
                self.open = false;
                HeartbeatAction::Close
            },
        }
    }

    /// The touch was tried. A device that is not known is told so, and the stream is over;
    /// any other trouble is none of the device's business.
    pub fn touched(&mut self, outcome: &Result<(), Error>) -> (r: HeartbeatReply)
        requires
            old(self)@.open,
            old(self)@.device_id is Some,
        ensures
            if outcome matches Err(e) && e@ is NotFound {
                &&& r matches Err(s) && s@ == unknown_device(old(self)@.device_id->0)
                &&& final(self)@ == (SessionView { open: false, ..old(self)@ })
            } else {
                &&& r matches Ok(response) && response@ == go_on()
                &&& final(self)@ == old(self)@
            },
    {
        match outcome {
            Err(Error::NotFound(_)) => {
                self.open = false;
                let id: &str = match &self.device_id {
                    Some(known) => known.as_str(),
                    None => "",
                };
                Err(Status::new(Code::NotFound, join3("device ", id, " not found")))
            },
            _ => {
                let response = HeartbeatResponse { throttle: false, directive: String::new() };
                assert(response@.directive =~= go_on().directive);
                Ok(response)
            },
        }
    }

    /// The answer could not be delivered: nobody listens any more.
    pub fn undelivered(&mut self)
        ensures
            final(self)@ == (SessionView { open: false, ..old(self)@ }),
    {
        self.open = false;
    }
}

/// The messages of a stream: which device each names, or the error that came instead.
pub open spec fn message_views(messages: Seq<Result<String, String>>) -> Seq<
    Result<Seq<char>, Seq<char>>,
> {
    messages.map_values(
        |m: Result<String, String>|
            match m {
                Ok(id) => Ok::<Seq<char>, Seq<char>>(id@),
                Err(e) => Err(e@),
            },
    )
}

/// What was sent.
pub open spec fn reply_view(reply: HeartbeatReply) -> Result<ResponseView, StatusView> {
    match reply {
        Ok(response) => Ok(response@),
        Err(s) => Err(s@),
    }
}

/// What was sent, one after the other.
pub open spec fn reply_views(replies: Seq<HeartbeatReply>) -> Seq<
    Result<ResponseView, StatusView>,
> {
    replies.map_values(|r: HeartbeatReply| reply_view(r))
}

/// How many messages come before the first error.
pub open spec fn leading(messages: Seq<Result<Seq<char>, Seq<char>>>) -> nat
    decreases messages.len(),
{
    if messages.len() == 0 || messages[0] is Err {
        0
    } else {
        1 + leading(messages.drop_first())
    }
}

/// What a stream of messages is answered, when every answer is delivered. A stream that
/// starts with an error gets that error back. A device that is known gets one answer for
/// each message up to the first error; one that is not known gets a single refusal.
pub open spec fn replies_to(
    fleet: FleetView,
    messages: Seq<Result<Seq<char>, Seq<char>>>,
) -> Seq<Result<ResponseView, StatusView>> {
    if messages.len() == 0 {
        Seq::empty()
    } else {
        match messages[0] {
            Err(e) => seq![Err(StatusView { code: Code::Internal, message: e })],
            Ok(id) => if fleet.devices.contains_key(id) {
                Seq::new(leading(messages), |i: int| Ok(go_on()))
            } else {
                seq![Err(unknown_device(id))]
            },
        }
    }
}

/// The records after a stream of messages. A device that is known was seen last when the last
/// message came that stands before the first error; `times` says when each came.
pub open spec fn after_stream(
    fleet: FleetView,
    messages: Seq<Result<Seq<char>, Seq<char>>>,
    times: Seq<i64>,
) -> FleetView {
    if leading(messages) > 0 {
        fleet.after_touch(messages[0]->Ok_0, times[leading(messages) - 1])
    } else {
        fleet
    }
}

/// A clock may show each of the times.
pub open spec fn are_readings(times: Seq<i64>) -> bool {
    forall|i: int| 0 <= i < times.len() ==> sources::is_reading((#[trigger] times[i]) as int)
}

/// The service of heartbeat streams.
pub struct HeartbeatHandler;

impl HeartbeatHandler {
    /// The service of heartbeat streams.
    pub fn new() -> (r: HeartbeatHandler)
        ensures
            r == HeartbeatHandler,
    {
        HeartbeatHandler
    }

    /// Serves a whole stream whose answers are all delivered, and gives them back. The
    /// device that the first message names is seen with each message, at the time that `times`
    /// gives for it.
    pub fn handle_at(
        &self,
        store: &mut DeviceStore,
        messages: &Vec<Result<String, String>>,
        times: &Vec<i64>,
    ) -> (r: Vec<HeartbeatReply>)
        requires
            old(store).wf(),
            times@.len() >= messages@.len(),
        ensures
            final(store).wf(),
            reply_views(r@) == replies_to(old(store)@, message_views(messages@)),
            final(store)@ == after_stream(old(store)@, message_views(messages@), times@),
    {
        proof {
            store.lemma_wf();
        }
        let ghost fleet = store@;
        let ghost said = message_views(messages@);
        let mut session = HeartbeatSession::new();
        let mut replies: Vec<HeartbeatReply> = Vec::new();
        let mut i: usize = 0;
        assert(said.skip(0) =~= said);
        assert(reply_views(replies@) =~= Seq::<Result<ResponseView, StatusView>>::empty());
        while session.is_open()
            invariant
                i <= messages@.len(),
                said == message_views(messages@),
                store.wf(),
                fleet.wf(),
                session@.open ==> {
                    &&& forall|j: int| 0 <= j < i ==> (#[trigger] said[j]) is Ok
                    &&& leading(said) == i + leading(said.skip(i as int))
                    &&& session@.device_id == (if i == 0 {
                        None::<Seq<char>>
                    } else {
                        Some(said[0]->Ok_0)
                    })
                    &&& i > 0 ==> fleet.devices.contains_key(said[0]->Ok_0)
                    &&& reply_views(replies@) =~= Seq::new(i as nat, |k: int| Ok(go_on()))
                },
                times@.len() >= messages@.len(),
                i == 0 ==> store@ == fleet,
                i > 0 && fleet.devices.contains_key(said[0]->Ok_0) ==> store@ == fleet.after_touch(
                    said[0]->Ok_0,
                    times@[i - 1],
                ),
                !session@.open && i > 0 && fleet.devices.contains_key(said[0]->Ok_0) ==> leading(
                    said,
                ) == i,
                i > 0 ==> said[0] is Ok,
                i > 0 && !fleet.devices.contains_key(said[0]->Ok_0) ==> store@ == fleet,
                !session@.open ==> reply_views(replies@) == replies_to(fleet, said) && (leading(
                    said,
                ) > 0 <==> i > 0),
            decreases messages.len() - i, session@.open as int,
        {
            let event = if i < messages.len() {
                match &messages[i] {
                    Ok(id) => HeartbeatEvent::Message { device_id: id.clone() },
                    Err(e) => HeartbeatEvent::Failed { error: e.clone() },
                }
            } else {
                HeartbeatEvent::Ended
            };
            let ghost before = reply_views(replies@);
            match session.receive(event) {
                HeartbeatAction::Touch { device_id } => {
                    let outcome = store.touch_last_seen_at(device_id.as_str(), times[i]);
                    proof {
                        if outcome is Ok {
                            assert(store@ =~= fleet.after_touch(device_id@, times@[i as int]));
                        }
                    }
                    let reply = session.touched(&outcome);
                    let ghost sent = reply_view(reply);
                    replies.push(reply);
                    assert(reply_views(replies@) =~= before.push(sent));
                    assert(said.skip(i as int).drop_first() =~= said.skip(i + 1));
                    assert(said.skip(i as int)[0] == said[i as int]);
                    i = i + 1;
                },
                HeartbeatAction::Refuse(s) => {
                    let ghost sent = s@;
                    replies.push(Err(s));
                    assert(reply_views(replies@) =~= before.push(Err(sent)));
                },
                HeartbeatAction::Close => {},
            }
        }
        replies
    }

    /// Serves a whole stream whose answers are all delivered, and gives them back. The
    /// device that the first message names is seen with each message.
    pub fn handle(&self, store: &mut DeviceStore, messages: &Vec<Result<String, String>>) -> (r:
        Vec<HeartbeatReply>)
        requires
            old(store).wf(),
        ensures
            final(store).wf(),
            reply_views(r@) == replies_to(old(store)@, message_views(messages@)),
            exists|times: Seq<i64>|
                are_readings(times) && times.len() == messages@.len() && final(store)@
                    == #[trigger] after_stream(old(store)@, message_views(messages@), times),
    {
        let mut times: Vec<i64> = Vec::new();
        while times.len() < messages.len()
            invariant
                times@.len() <= messages@.len(),
                are_readings(times@),
            decreases messages.len() - times.len(),
        {
            times.push(unix_now());
        }
        self.handle_at(store, messages, &times)
    }
}

/// The records after a device was seen at each of the times, one after the other.
pub open spec fn after_touches(fleet: FleetView, id: Seq<char>, times: Seq<i64>) -> FleetView
    decreases times.len(),
{
    if times.len() == 0 {
        fleet
    } else {
        after_touches(fleet, id, times.drop_last()).after_touch(id, times.last())
    }
}

/// A stream leaves the records as one touch for each message before the first error does,
/// every one on the device that the first message names.
pub proof fn a_stream_is_a_touch_for_each_message(
    fleet: FleetView,
    messages: Seq<Result<Seq<char>, Seq<char>>>,
    times: Seq<i64>,
)
    requires
        fleet.wf(),
        times.len() >= messages.len(),
    ensures
        after_stream(fleet, messages, times) == after_touches(
            fleet,
            messages[0]->Ok_0,
            times.take(leading(messages) as int),
        ),
{
    lemma_leading_bound(messages);
    let n = leading(messages) as int;
    lemma_touches(fleet, messages[0]->Ok_0, times.take(n));
    if n > 0 {
        assert(times.take(n).last() == times[n - 1]);
    }
}

proof fn lemma_leading_bound(messages: Seq<Result<Seq<char>, Seq<char>>>)
    ensures
        leading(messages) <= messages.len(),
    decreases messages.len(),
{
    if messages.len() > 0 && messages[0] is Ok {
        lemma_leading_bound(messages.drop_first());
    }
}

proof fn lemma_touches(fleet: FleetView, id: Seq<char>, times: Seq<i64>)
    requires
        fleet.wf(),
    ensures
        after_touches(fleet, id, times) == (if times.len() == 0 {
            fleet
        } else {
            fleet.after_touch(id, times.last())
        }),
    decreases times.len(),
{
    if times.len() > 0 {
        lemma_touches(fleet, id, times.drop_last());
        assert(after_touches(fleet, id, times) =~= fleet.after_touch(id, times.last()));
    }
}

/// A known device that sends `n` messages and ends the stream gets `n` answers, each of
/// which tells it to go on.
pub proof fn every_heartbeat_is_answered(
    fleet: FleetView,
    messages: Seq<Result<Seq<char>, Seq<char>>>,
)
    requires
        messages.len() > 0,
        forall|i: int| 0 <= i < messages.len() ==> (#[trigger] messages[i]) is Ok,
        fleet.devices.contains_key(messages[0]->Ok_0),
    ensures
        replies_to(fleet, messages).len() == messages.len(),
        forall|i: int|
            0 <= i < messages.len() ==> #[trigger] replies_to(fleet, messages)[i] == Ok::<
                ResponseView,
                StatusView,
            >(go_on()),
{
    lemma_all_leading(messages);
}

proof fn lemma_all_leading(messages: Seq<Result<Seq<char>, Seq<char>>>)
    requires
        forall|i: int| 0 <= i < messages.len() ==> (#[trigger] messages[i]) is Ok,
    ensures
        leading(messages) == messages.len(),
    decreases messages.len(),
{
    if messages.len() > 0 {
        lemma_all_leading(messages.drop_first());
    }
}

/// The messages before the first error are counted: each of them is one, and what follows
/// them, where anything does, is an error.
pub proof fn messages_are_counted_to_the_first_error(
    messages: Seq<Result<Seq<char>, Seq<char>>>,
)
    ensures
        leading(messages) <= messages.len(),
        forall|i: int| 0 <= i < leading(messages) ==> (#[trigger] messages[i]) is Ok,
        leading(messages) < messages.len() ==> messages[leading(messages) as int] is Err,
    decreases messages.len(),
{
    if messages.len() > 0 && messages[0] is Ok {
        let rest = messages.drop_first();
        messages_are_counted_to_the_first_error(rest);
        assert forall|i: int| 0 <= i < leading(messages) implies (#[trigger] messages[i]) is Ok by {
            if i > 0 {
                assert(rest[i - 1] == messages[i]);
            }
        }
        if leading(messages) < messages.len() {
            assert(rest[leading(rest) as int] == messages[leading(messages) as int]);
        }
    }
}

/// A stream belongs to the device that its first message names. Where that device is known,
/// each message before the first error is answered with nothing to do and no need to slow
/// down, and the device is seen at the time of the last of them. Where it is not known, one
/// refusal says so by name. An error that comes first is sent back. In the last two cases, and
/// on an empty stream, the records stay as they are.
pub proof fn streams_belong_to_their_first_device(
    fleet: FleetView,
    messages: Seq<Result<Seq<char>, Seq<char>>>,
    times: Seq<i64>,
    i: int,
)
    requires
        fleet.wf(),
        times.len() >= messages.len(),
    ensures
        messages.len() == 0 ==> replies_to(fleet, messages).len() == 0 && after_stream(
            fleet,
            messages,
            times,
        ) == fleet,
        messages.len() > 0 ==> (messages[0] matches Err(e) ==> {
            &&& replies_to(fleet, messages).len() == 1
            &&& replies_to(fleet, messages)[0] matches Err(s) && s.code == Code::Internal
                && s.message == e
            &&& after_stream(fleet, messages, times) == fleet
        }),
        messages.len() > 0 ==> (messages[0] matches Ok(id) ==> !fleet.devices.contains_key(id) ==> {
            &&& replies_to(fleet, messages).len() == 1
            &&& replies_to(fleet, messages)[0] matches Err(s) && s.code == Code::NotFound
                && s.message == "device "@ + id + " not found"@
            &&& after_stream(fleet, messages, times) == fleet
        }),
        messages.len() > 0 ==> (messages[0] matches Ok(id) ==> fleet.devices.contains_key(id) ==> {
            let after = after_stream(fleet, messages, times);
            &&& replies_to(fleet, messages).len() == leading(messages)
            &&& 0 <= i < leading(messages) ==> (replies_to(fleet, messages)[i] matches Ok(reply)
                && !reply.throttle && reply.directive.len() == 0)
            &&& after.devices[id].last_seen_at == times[leading(messages) - 1]
            &&& after.devices[id].status == fleet.devices[id].status
            &&& after.serials == fleet.serials && after.manifest == fleet.manifest
            &&& forall|other: Seq<char>|
                other != id ==> #[trigger] after.devices[other] == fleet.devices[other]
        }),
{
    messages_are_counted_to_the_first_error(messages);
}

/// Every message of a stream counts for the device that the first one names.
pub proof fn the_first_message_names_the_device(
    session: SessionView,
    first: Seq<char>,
    later: Seq<char>,
)
    ensures
        session.device_id is None ==> touched_device(session, first) == first,
        session.device_id == Some(first) ==> touched_device(session, later) == first,
{
}

/// Messages and answers are looked at one by one: a message by the device that it names, an
/// error by its text, an answer by what it says.
pub proof fn streams_are_looked_at_one_by_one(
    messages: Seq<Result<String, String>>,
    replies: Seq<HeartbeatReply>,
    i: int,
)
    ensures
        message_views(messages).len() == messages.len(),
        reply_views(replies).len() == replies.len(),
        0 <= i < messages.len() ==> (messages[i] matches Ok(id) ==> message_views(messages)[i]
            == Ok::<Seq<char>, Seq<char>>(id@)),
        0 <= i < messages.len() ==> (messages[i] matches Err(e) ==> message_views(messages)[i]
            == Err::<Seq<char>, Seq<char>>(e@)),
        0 <= i < replies.len() ==> (replies[i] matches Ok(response) ==> (reply_views(
            replies,
        )[i] matches Ok(v) && v.throttle == response.throttle && v.directive
            == response.directive@)),
        0 <= i < replies.len() ==> (replies[i] matches Err(s) ==> (reply_views(
            replies,
        )[i] matches Err(v) && v.code == s.code && v.message == s.message@)),
{
}

} // verus!
