//! Telemetry on the robot: joint frames that the simulator writes to a socket.
//!
//! On the socket each frame is its length in four bytes and that many bytes of payload. The
//! payload is a time in nanoseconds in eight bytes, the number of joints in four, the
//! positions of the joints in eight bytes each, and their torques in eight bytes each. All
//! numbers are big-endian; positions and torques are the bits of floating-point numbers.

use vstd::prelude::*;

use crate::keyed;
use crate::scan;
use crate::status::Timestamp;

verus! {

/// The longest payload that is read.
pub const MAX_PAYLOAD: usize = 1_000_000;

/// The bits of the temperature that every joint reports, 35 degrees.
pub const TEMPERATURE_BITS: u64 = 0x4041_8000_0000_0000;

/// How long to pause when the service asks for fewer frames, in milliseconds.
pub const THROTTLE_PAUSE_MILLIS: u64 = 500;

/// Nanoseconds in a second.
pub const NANOS: i64 = 1_000_000_000;

/// What a joint reports. The numbers are the bits of floating-point numbers: radians, newton
/// metres and degrees.
#[derive(Debug)]
pub struct JointStatus {
    pub name: String,
    pub position_bits: u64,
    pub torque_bits: u64,
    pub temperature_bits: u64,
}

/// What a [`JointStatus`] says.
#[verifier::ext_equal]
pub struct JointView {
    pub name: Seq<char>,
    pub position_bits: u64,
    pub torque_bits: u64,
    pub temperature_bits: u64,
}

impl View for JointStatus {
    type V = JointView;

    open spec fn view(&self) -> JointView {
        JointView {
            name: self.name@,
            position_bits: self.position_bits,
            torque_bits: self.torque_bits,
            temperature_bits: self.temperature_bits,
        }
    }
}

/// The joints of a robot at one moment.
#[derive(Debug)]
pub struct TelemetryFrame {
    pub device_id: String,
    pub recorded_at: Timestamp,
    pub joints: Vec<JointStatus>,
}

/// What a [`TelemetryFrame`] says.
#[verifier::ext_equal]
pub struct FrameView {
    pub device_id: Seq<char>,
    pub recorded_at: Timestamp,
    pub joints: Seq<JointView>,
}

impl View for TelemetryFrame {
    type V = FrameView;

    open spec fn view(&self) -> FrameView {
        FrameView {
            device_id: self.device_id@,
            recorded_at: self.recorded_at,
            joints: keyed::views(self.joints@),
        }
    }
}

/// The number that big-endian bytes write.
pub open spec fn be_value(bytes: Seq<u8>) -> nat
    decreases bytes.len(),
{
    if bytes.len() == 0 {
        0
    } else {
        256 * be_value(bytes.drop_last()) + bytes.last() as nat
    }
}

/// How many numbers `n` bytes can write.
pub open spec fn be_range(n: nat) -> nat
    decreases n,
{
    if n == 0 {
        1
    } else {
        256 * be_range((n - 1) as nat)
    }
}

/// The number `value` in `n` big-endian bytes.
pub open spec fn be_bytes(value: nat, n: nat) -> Seq<u8>
    decreases n,
{
    if n == 0 {
        Seq::empty()
    } else {
        be_bytes(value / 256, (n - 1) as nat).push((value % 256) as u8)
    }
}

proof fn lemma_be_bound(bytes: Seq<u8>)
    ensures
        be_value(bytes) < be_range(bytes.len()),
    decreases bytes.len(),
{
    if bytes.len() > 0 {
        lemma_be_bound(bytes.drop_last());
    }
}

proof fn lemma_be_ranges()
    ensures
        be_range(4) == 0x1_0000_0000,
        be_range(8) == 0x1_0000_0000_0000_0000,
{
    reveal_with_fuel(be_range, 9);
}

/// What is written in big-endian bytes is read back.
pub proof fn be_round_trip(value: nat, n: nat)
    requires
        value < be_range(n),
    ensures
        be_bytes(value, n).len() == n,
        be_value(be_bytes(value, n)) == value,
    decreases n,
{
    if n > 0 {
        be_round_trip(value / 256, (n - 1) as nat);
        let bytes = be_bytes(value, n);
        assert(bytes.drop_last() =~= be_bytes(value / 256, (n - 1) as nat));
    }
}

/// The eight bytes of a payload from `at` on, as a number.
pub open spec fn word_at(payload: Seq<u8>, at: int) -> u64 {
    be_value(payload.subrange(at, at + 8)) as u64
}

/// The time that a payload starts with: a signed number in eight bytes.
pub open spec fn time_of(payload: Seq<u8>) -> i64 {
    word_at(payload, 0) as i64
}

/// The number of joints that a payload announces.
pub open spec fn joint_count(payload: Seq<u8>) -> nat {
    be_value(payload.subrange(8, 12))
}

/// The whole seconds in a number of nanoseconds, towards zero.
pub open spec fn whole_seconds(nanos: int) -> int {
    if nanos >= 0 {
        nanos / (NANOS as int)
    } else {
        -((-nanos) / (NANOS as int))
    }
}

/// A number of nanoseconds as a moment: whole seconds, and the nanoseconds that are left,
/// which have the same sign.
pub open spec fn moment(nanos: i64) -> Timestamp {
    Timestamp {
        seconds: whole_seconds(nanos as int) as i64,
        nanos: (nanos - whole_seconds(nanos as int) * NANOS) as i32,
    }
}

/// The name of joint `i`.
pub open spec fn joint_name(i: int) -> Seq<char> {
    if i == 0 {
        "panda_joint1"@
    } else if i == 1 {
        "panda_joint2"@
    } else if i == 2 {
        "panda_joint3"@
    } else if i == 3 {
        "panda_joint4"@
    } else if i == 4 {
        "panda_joint5"@
    } else if i == 5 {
        "panda_joint6"@
    } else {
        "unknown"@
    }
}

/// Joint `i` of the `n` in a payload.
pub open spec fn joint_of(payload: Seq<u8>, n: int, i: int) -> JointView {
    JointView {
        name: joint_name(i),
        position_bits: word_at(payload, 12 + i * 8),
        torque_bits: word_at(payload, 12 + n * 8 + i * 8),
        temperature_bits: TEMPERATURE_BITS,
    }
}

/// The frame in a payload; none where the payload is too short for its head, or for the
/// joints that it announces. Bytes beyond them are not looked at.
pub open spec fn frame_of(device_id: Seq<char>, payload: Seq<u8>) -> Option<FrameView> {
    if payload.len() < 12 || payload.len() < 12 + joint_count(payload) * 16 {
        None
    } else {
        let n = joint_count(payload);
        Some(
            FrameView {
                device_id,
                recorded_at: moment(time_of(payload)),
                joints: Seq::new(n, |i: int| joint_of(payload, n as int, i)),
            },
        )
    }
}

/// The eight bytes of a payload from `at` on, as a number.
fn read_word(payload: &[u8], at: usize) -> (r: u64)
    requires
        at + 8 <= payload@.len(),
    ensures
        r == word_at(payload@, at as int),
{
    let ghost bytes = payload@.subrange(at as int, at + 8);
    let mut value: u64 = 0;
    let len: usize = payload.len();
    let mut k: usize = 0;
    while k < 8
        invariant
            k <= 8,
            at + 8 <= payload@.len() == len,
            bytes == payload@.subrange(at as int, at + 8),
            value == be_value(bytes.take(k as int)),
        decreases 8 - k,
    {
        proof {
            lemma_be_bound(bytes.take(k + 1));
            reveal_with_fuel(be_range, 9);
            assert(bytes.take(k + 1).drop_last() =~= bytes.take(k as int));
            assert(bytes.take(k + 1).last() == payload@[at + k]);
        }
        value = value * 256 + payload[at + k] as u64;
        k = k + 1;
    }
    assert(bytes.take(8) =~= bytes);
    value
}

/// The four bytes from `at` on, as a number.
fn read_half(payload: &[u8], at: usize) -> (r: u32)
    requires
        at + 4 <= payload@.len(),
    ensures
        r == be_value(payload@.subrange(at as int, at + 4)),
{
    let ghost bytes = payload@.subrange(at as int, at + 4);
    let mut value: u32 = 0;
    let len: usize = payload.len();
    let mut k: usize = 0;
    while k < 4
        invariant
            k <= 4,
            at + 4 <= payload@.len() == len,
            bytes == payload@.subrange(at as int, at + 4),
            value == be_value(bytes.take(k as int)),
        decreases 4 - k,
    {
        proof {
            lemma_be_bound(bytes.take(k + 1));
            reveal_with_fuel(be_range, 5);
            assert(bytes.take(k + 1).drop_last() =~= bytes.take(k as int));
            assert(bytes.take(k + 1).last() == payload@[at + k]);
        }
        value = value * 256 + payload[at + k] as u32;
        k = k + 1;
    }
    assert(bytes.take(4) =~= bytes);
    value
}

/// The name of joint `i`.
pub fn name_of_joint(i: usize) -> (r: &'static str)
    ensures
        r@ == joint_name(i as int),
{
    if i == 0 {
        "panda_joint1"
    } else if i == 1 {
        "panda_joint2"
    } else if i == 2 {
        "panda_joint3"
    } else if i == 3 {
        "panda_joint4"
    } else if i == 4 {
        "panda_joint5"
    } else if i == 5 {
        "panda_joint6"
    } else {
        "unknown"
    }
}

/// A number of nanoseconds as a moment.
pub fn split_nanos(nanos: i64) -> (r: Timestamp)
    ensures
        r == moment(nanos),
{
    let wide: i128 = nanos as i128;
    let size: u64 = if wide < 0 {
        (-wide) as u64
    } else {
        wide as u64
    };
    let seconds: i64 = (size / 1_000_000_000) as i64;
    let rest: i32 = (size % 1_000_000_000) as i32;
    if nanos < 0 {
        Timestamp { seconds: -seconds, nanos: -rest }
    } else {
        Timestamp { seconds, nanos: rest }
    }
}

/// Parses a payload, without the length that stands before it on the socket.
pub fn parse_frame(device_id: &str, payload: &[u8]) -> (r: Option<TelemetryFrame>)
    ensures
        match r {
            Some(frame) => frame_of(device_id@, payload@) == Some(frame@),
            None => frame_of(device_id@, payload@) is None,
        },
{
    if payload.len() < 12 {
        return None;
    }
    let timestamp_ns: i64 = #[verifier::truncate] (read_word(payload, 0) as i64);
    let announced: u32 = read_half(payload, 8);
    if (payload.len() as u64) < 12 + announced as u64 * 16 {
        return None;
    }
    let n: usize = announced as usize;
    let len: usize = payload.len();
    let mut joints: Vec<JointStatus> = Vec::new();
    let mut i: usize = 0;
    while i < n
        invariant
            i <= n,
            n == joint_count(payload@),
            12 + n * 16 <= payload@.len() == len,
            keyed::views(joints@) =~= Seq::new(
                i as nat,
                |k: int| joint_of(payload@, n as int, k),
            ),
        decreases n - i,
    {
        let ghost before = keyed::views(joints@);
        let position_bits: u64 = read_word(payload, 12 + i * 8);
        let torque_bits: u64 = read_word(payload, 12 + n * 8 + i * 8);
        let joint = JointStatus {
            name: name_of_joint(i).to_owned(),
            position_bits,
            torque_bits,
            temperature_bits: TEMPERATURE_BITS,
        };
        let ghost said = joint@;
        joints.push(joint);
        assert(keyed::views(joints@) =~= before.push(said));
        i = i + 1;
    }
    Some(
        TelemetryFrame {
            device_id: device_id.to_owned(),
            recorded_at: split_nanos(timestamp_ns),
            joints,
        },
    )
}

/// The length that the first four bytes of a frame announce.
pub open spec fn announced_length(header: Seq<u8>) -> nat {
    be_value(header)
}

/// A payload of this length is read; at any other length the reading stops.
pub open spec fn is_readable(length: nat) -> bool {
    0 < length <= MAX_PAYLOAD
}

/// What is read next from the socket.
#[derive(Debug, Clone, Copy, PartialEq, Eq, Structural)]
pub enum Wanted {
    /// The length of the next payload, in four bytes.
    Header,
    /// A payload of this many bytes.
    Payload(usize),
    /// Nothing any more.
    Nothing,
}

/// A socket on which frames come in.
pub struct SocketReader {
    device_id: String,
    wanted: Wanted,
}

impl SocketReader {
    /// The device whose frames come in.
    pub closed spec fn device(&self) -> Seq<char> {
        self.device_id@
    }

    /// What is read next.
    pub closed spec fn next(&self) -> Wanted {
        self.wanted
    }

    /// A payload that is waited for has a length that is read.
    pub open spec fn wf(&self) -> bool {
        self.next() matches Wanted::Payload(n) ==> is_readable(n as nat)
    }

    /// A socket from which nothing was read yet.
    pub fn new(device_id: &str) -> (r: SocketReader)
        ensures
            r.wf(),
            r.device() == device_id@,
            r.next() == Wanted::Header,
    {
        SocketReader { device_id: device_id.to_owned(), wanted: Wanted::Header }
    }

    /// How many bytes to read next; none where the reading is over.
    pub fn wants(&self) -> (r: Option<usize>)
        requires
            self.wf(),
        ensures
            r == (match self.next() {
                Wanted::Header => Some(4usize),
                Wanted::Payload(n) => Some(n),
                Wanted::Nothing => None,
            }),
    {
        match self.wanted {
            Wanted::Header => Some(4),
            Wanted::Payload(n) => Some(n),
            Wanted::Nothing => None,
        }
    }

    /// The bytes that were wanted came. After a payload comes its frame, where it is one; a
    /// payload that is none is passed over.
    pub fn received(&mut self, bytes: &[u8]) -> (r: Option<TelemetryFrame>)
        requires
            old(self).wf(),
            match old(self).next() {
                Wanted::Header => bytes@.len() == 4,
                Wanted::Payload(n) => bytes@.len() == n,
                Wanted::Nothing => false,
            },
        ensures
            final(self).wf(),
            final(self).device() == old(self).device(),
            match old(self).next() {
                Wanted::Header => {
                    &&& r is None
                    &&& final(self).next() == (if is_readable(announced_length(bytes@)) {
                        Wanted::Payload(announced_length(bytes@) as usize)
                    } else {
                        Wanted::Nothing
                    })
                },
                _ => {
                    &&& final(self).next() == Wanted::Header
                    &&& match r {
                        Some(frame) => frame_of(old(self).device(), bytes@) == Some(frame@),
                        None => frame_of(old(self).device(), bytes@) is None,
                    }
                },
            },
    {
        match self.wanted {
            Wanted::Header => {
                let length: u32 = read_half(bytes, 0);
                assert(bytes@.subrange(0, 4) =~= bytes@);
                self.wanted =
                if length == 0 || length as u64 > MAX_PAYLOAD as u64 {
                    Wanted::Nothing
                } else {
                    Wanted::Payload(length as usize)
                };
                None
            },
            _ => {
                self.wanted = Wanted::Header;
                parse_frame(self.device_id.as_str(), bytes)
            },
        }
    }

    /// The bytes did not come, or nobody takes the frames any more.
    pub fn stop(&mut self)
        ensures
            final(self).wf(),
            final(self).device() == old(self).device(),
            final(self).next() == Wanted::Nothing,
    {
        self.wanted = Wanted::Nothing;
    }
}

/// The frames in what comes in on a socket, in order. The reading ends where the bytes end,
/// or at a length that is not read.
pub open spec fn frames_of(device_id: Seq<char>, stream: Seq<u8>) -> Seq<FrameView>
    decreases stream.len(),
{
    if stream.len() < 4 {
        Seq::empty()
    } else {
        let length = announced_length(stream.take(4));
        if !is_readable(length) || stream.len() < 4 + length {
            Seq::empty()
        } else {
            let rest = frames_of(device_id, stream.skip(4 + length as int));
            match frame_of(device_id, stream.subrange(4, 4 + length as int)) {
                Some(frame) => seq![frame] + rest,
                None => rest,
            }
        }
    }
}

/// The frames in what came in on a socket until it was closed.
pub fn read_frames(device_id: &str, stream: &[u8]) -> (r: Vec<TelemetryFrame>)
    ensures
        keyed::views(r@) == frames_of(device_id@, stream@),
{
    let mut reader = SocketReader::new(device_id);
    let mut frames: Vec<TelemetryFrame> = Vec::new();
    let mut at: usize = 0;
    let ghost all = frames_of(device_id@, stream@);
    assert(stream@.skip(0) =~= stream@);
    assert(keyed::views(frames@) =~= Seq::<FrameView>::empty());
    while reader.wants().is_some()
        invariant
            at <= stream@.len(),
            reader.wf(),
            reader.device() == device_id@,
            match reader.next() {
                Wanted::Header => all == keyed::views(frames@) + frames_of(
                    device_id@,
                    stream@.skip(at as int),
                ),
                Wanted::Payload(n) => {
                    &&& 4 <= at
                    &&& announced_length(stream@.subrange(at - 4, at as int)) == n
                    &&& all == keyed::views(frames@) + frames_of(
                        device_id@,
                        stream@.skip(at - 4),
                    )
                },
                Wanted::Nothing => all == keyed::views(frames@),
            },
        decreases
                stream@.len() - at,
                if reader.next() == Wanted::Nothing {
                    0int
                } else {
                    1int
                },
    {
        let n: usize = match reader.wants() {
            Some(n) => n,
            None => 0,
        };
        let ghost rest = match reader.next() {
            Wanted::Payload(_) => stream@.skip(at - 4),
            _ => stream@.skip(at as int),
        };
        if stream.len() - at < n {
            reader.stop();
            proof {
                if n != 4 || rest.len() >= 4 {
                    assert(rest.take(4) =~= stream@.subrange(at - 4, at as int));
                }
                assert(keyed::views(frames@) + Seq::<FrameView>::empty() =~= keyed::views(
                    frames@,
                ));
            }
        } else {
            let bytes = vstd::slice::slice_subrange(stream, at, at + n);
            let ghost before = keyed::views(frames@);
            let ghost was = reader.next();
            let came = reader.received(bytes);
            proof {
                if was == Wanted::Header {
                    assert(rest.take(4) =~= bytes@);
                    assert(stream@.subrange(at as int, at + 4) =~= bytes@);
                    assert(before + Seq::<FrameView>::empty() =~= before);
                } else {
                    assert(rest.take(4) =~= stream@.subrange(at - 4, at as int));
                    assert(rest.subrange(4, 4 + n) =~= bytes@);
                    assert(rest.skip(4 + n) =~= stream@.skip(at + n));
                }
            }
            match came {
                Some(frame) => {
                    let ghost said = frame@;
                    frames.push(frame);
                    assert(keyed::views(frames@) =~= before.push(said));
                    assert(before.push(said) + frames_of(device_id@, stream@.skip(at + n))
                        =~= before + (seq![said] + frames_of(device_id@, stream@.skip(at + n))));
                },
                None => {},
            }
            at = at + n;
        }
    }
    frames
}

/// A payload as the simulator writes it.
pub open spec fn encode_payload(time: i64, positions: Seq<u64>, torques: Seq<u64>) -> Seq<u8> {
    be_bytes((time as u64) as nat, 8) + be_bytes(positions.len(), 4) + encode_words(positions)
        + encode_words(torques)
}

/// Numbers of eight bytes, one after the other.
pub open spec fn encode_words(words: Seq<u64>) -> Seq<u8>
    decreases words.len(),
{
    if words.len() == 0 {
        Seq::empty()
    } else {
        encode_words(words.drop_last()) + be_bytes(words.last() as nat, 8)
    }
}

/// A frame as the simulator writes it to the socket.
pub open spec fn encode_frame(time: i64, positions: Seq<u64>, torques: Seq<u64>) -> Seq<u8> {
    let payload = encode_payload(time, positions, torques);
    be_bytes(payload.len(), 4) + payload
}

/// The frame that was written.
pub open spec fn written_frame(
    device_id: Seq<char>,
    time: i64,
    positions: Seq<u64>,
    torques: Seq<u64>,
) -> FrameView {
    FrameView {
        device_id,
        recorded_at: moment(time),
        joints: Seq::new(
            positions.len(),
            |i: int|
                JointView {
                    name: joint_name(i),
                    position_bits: positions[i],
                    torque_bits: torques[i],
                    temperature_bits: TEMPERATURE_BITS,
                },
        ),
    }
}

proof fn lemma_words(words: Seq<u64>, i: int)
    requires
        0 <= i <= words.len(),
    ensures
        encode_words(words).len() == 8 * words.len(),
        i < words.len() ==> encode_words(words).subrange(8 * i, 8 * i + 8) == be_bytes(
            words[i] as nat,
            8,
        ),
    decreases words.len(),
{
    if words.len() > 0 {
        let shorter = words.drop_last();
        lemma_be_ranges();
        be_round_trip(words.last() as nat, 8);
        if i < shorter.len() {
            lemma_words(shorter, i);
            assert(encode_words(words).subrange(8 * i, 8 * i + 8) =~= encode_words(
                shorter,
            ).subrange(8 * i, 8 * i + 8));
        } else {
            lemma_words(shorter, shorter.len() as int);
            if i < words.len() {
                assert(encode_words(words).subrange(8 * i, 8 * i + 8) =~= be_bytes(
                    words[i] as nat,
                    8,
                ));
            }
        }
    }
}

/// What the simulator writes is read back: the time, and for each joint its position and its
/// torque, bit for bit.
pub proof fn payload_round_trip(
    device_id: Seq<char>,
    time: i64,
    positions: Seq<u64>,
    torques: Seq<u64>,
)
    requires
        positions.len() == torques.len(),
        positions.len() <= u32::MAX,
    ensures
        encode_payload(time, positions, torques).len() == 12 + 16 * positions.len(),
        frame_of(device_id, encode_payload(time, positions, torques)) == Some(
            written_frame(device_id, time, positions, torques),
        ),
{
    let n = positions.len() as int;
    let payload = encode_payload(time, positions, torques);
    let head = be_bytes((time as u64) as nat, 8);
    let count = be_bytes(positions.len(), 4);
    lemma_be_ranges();
    be_round_trip((time as u64) as nat, 8);
    be_round_trip(positions.len(), 4);
    lemma_words(positions, 0);
    lemma_words(torques, 0);
    assert(payload.subrange(0, 8) =~= head);
    assert(payload.subrange(8, 12) =~= count);
    assert((time as u64) as i64 == time) by (bit_vector);
    assert(word_at(payload, 0) == time as u64);
    assert(time_of(payload) == time);
    let joints = Seq::new(positions.len(), |i: int| joint_of(payload, n, i));
    assert forall|i: int| 0 <= i < n implies #[trigger] joint_of(payload, n, i) == (JointView {
        name: joint_name(i),
        position_bits: positions[i],
        torque_bits: torques[i],
        temperature_bits: TEMPERATURE_BITS,
    }) by {
        lemma_words(positions, i);
        lemma_words(torques, i);
        be_round_trip(positions[i] as nat, 8);
        be_round_trip(torques[i] as nat, 8);
        assert(payload.subrange(12 + i * 8, 12 + i * 8 + 8) =~= encode_words(positions).subrange(
            8 * i,
            8 * i + 8,
        ));
        assert(payload.subrange(12 + n * 8 + i * 8, 12 + n * 8 + i * 8 + 8) =~= encode_words(
            torques,
        ).subrange(8 * i, 8 * i + 8));
    }
    assert(joints =~= written_frame(device_id, time, positions, torques).joints);
}

/// The splitting of a time into seconds and nanoseconds loses nothing: put together they are
/// the time, less than a second is left, and it has the sign of the time.
pub proof fn moment_keeps_time(nanos: i64)
    ensures
        moment(nanos).seconds * NANOS + moment(nanos).nanos == nanos,
        -NANOS < moment(nanos).nanos < NANOS,
        nanos >= 0 ==> moment(nanos).nanos >= 0,
        nanos <= 0 ==> moment(nanos).nanos <= 0,
{
}

/// A frame that is written to the socket ahead of others is the first that is read, and then
/// come the others; this holds of every frame that is not longer than what is read.
pub proof fn frames_are_read_in_order(
    device_id: Seq<char>,
    time: i64,
    positions: Seq<u64>,
    torques: Seq<u64>,
    rest: Seq<u8>,
)
    requires
        positions.len() == torques.len(),
        12 + 16 * positions.len() <= MAX_PAYLOAD,
    ensures
        frames_of(device_id, encode_frame(time, positions, torques) + rest) == seq![
            written_frame(device_id, time, positions, torques),
        ] + frames_of(device_id, rest),
{
    let payload = encode_payload(time, positions, torques);
    payload_round_trip(device_id, time, positions, torques);
    lemma_be_ranges();
    be_round_trip(payload.len(), 4);
    let stream = encode_frame(time, positions, torques) + rest;
    assert(stream.take(4) =~= be_bytes(payload.len(), 4));
    assert(stream.subrange(4, 4 + payload.len() as int) =~= payload);
    assert(stream.skip(4 + payload.len() as int) =~= rest);
}

/// How long to pause after an acknowledgement, in milliseconds; not at all where the service
/// does not ask for it.
pub fn pause_after_ack(throttle: bool) -> (r: Option<u64>)
    ensures
        r == (if throttle {
            Some(THROTTLE_PAUSE_MILLIS)
        } else {
            None
        }),
        throttle ==> r == Some(500u64),
        !throttle ==> r is None,
{
    if throttle {
        Some(THROTTLE_PAUSE_MILLIS)
    } else {
        None
    }
}

/// Whether the frames come from the simulator's socket: it was named, and it is there.
/// Otherwise they are made up.
pub fn reads_socket(named: bool, exists_now: bool) -> (r: bool)
    ensures
        r == (named && exists_now),
{
    named && exists_now
}

/// The first six joints are named after their number, counted from one, and those from the
/// seventh on are unknown: so in every frame that is read.
pub proof fn joints_are_named_by_number(device_id: Seq<char>, payload: Seq<u8>, i: int)
    requires
        frame_of(device_id, payload) is Some,
        0 <= i < frame_of(device_id, payload)->0.joints.len(),
    ensures
        i < 6 ==> frame_of(device_id, payload)->0.joints[i].name == "panda_joint"@
            + scan::decimal(i + 1),
        i < 6 ==> frame_of(device_id, payload)->0.joints[i].name == "panda_joint"@.push(
            ('1' as int + i) as char,
        ),
        i >= 6 ==> frame_of(device_id, payload)->0.joints[i].name == "unknown"@,
{
    if i < 6 {
        scan::numbers_are_written_digit_by_digit(0, (i + 1) as nat);
        reveal_strlit("panda_joint");
        reveal_strlit("panda_joint1");
        reveal_strlit("panda_joint2");
        reveal_strlit("panda_joint3");
        reveal_strlit("panda_joint4");
        reveal_strlit("panda_joint5");
        reveal_strlit("panda_joint6");
        let name = frame_of(device_id, payload)->0.joints[i].name;
        assert(name =~= "panda_joint"@.push(('1' as int + i) as char));
        assert(name =~= "panda_joint"@ + scan::decimal(i + 1));
    }
}

/// The first byte of a number weighs most.
pub proof fn numbers_are_big_endian(bytes: Seq<u8>)
    ensures
        bytes.len() == 4 ==> be_value(bytes) == 0x100_0000 * bytes[0] + 0x1_0000 * bytes[1] + 0x100
            * bytes[2] + bytes[3],
        bytes.len() == 8 ==> be_value(bytes) == 0x100_0000_0000_0000 * bytes[0]
            + 0x1_0000_0000_0000 * bytes[1] + 0x100_0000_0000 * bytes[2] + 0x1_0000_0000 * bytes[3]
            + 0x100_0000 * bytes[4] + 0x1_0000 * bytes[5] + 0x100 * bytes[6] + bytes[7],
{
    reveal_with_fuel(be_value, 9);
}

/// Where everything stands in a payload: the time in the first eight bytes, the number of
/// joints in the next four, the positions in eight bytes each from there on, and behind them
/// the torques. Every joint reports 35 degrees. There is a frame exactly where the payload is
/// long enough for all that, whatever follows.
pub proof fn payload_is_read_by_position(device_id: Seq<char>, payload: Seq<u8>, i: int)
    ensures
        frame_of(device_id, payload) is Some <==> payload.len() >= 12 && payload.len() >= 12 + 16
            * be_value(payload.subrange(8, 12)),
        frame_of(device_id, payload) matches Some(frame) ==> {
            let n = be_value(payload.subrange(8, 12)) as int;
            &&& frame.device_id == device_id
            &&& frame.joints.len() == n
            &&& frame.recorded_at.seconds * 1_000_000_000 + frame.recorded_at.nanos == (be_value(
                payload.subrange(0, 8),
            ) as u64) as i64
            &&& 0 <= i < n ==> {
                let (p, t) = (12 + 8 * i, 12 + 8 * n + 8 * i);
                &&& frame.joints[i].position_bits == be_value(payload.subrange(p, p + 8))
                &&& frame.joints[i].torque_bits == be_value(payload.subrange(t, t + 8))
                &&& frame.joints[i].temperature_bits == 0x4041_8000_0000_0000
            }
        },
{
    if let Some(frame) = frame_of(device_id, payload) {
        let n = joint_count(payload) as int;
        moment_keeps_time(time_of(payload));
        lemma_be_ranges();
        if 0 <= i < n {
            let (p, t) = (12 + 8 * i, 12 + 8 * n + 8 * i);
            lemma_be_bound(payload.subrange(p, p + 8));
            lemma_be_bound(payload.subrange(t, t + 8));
        }
    }
}

/// A second has a thousand million nanoseconds, and what is left over is less than one.
pub proof fn moments_are_in_seconds(nanos: i64)
    ensures
        moment(nanos).seconds * 1_000_000_000 + moment(nanos).nanos == nanos,
        -1_000_000_000 < moment(nanos).nanos < 1_000_000_000,
        nanos >= 0 ==> moment(nanos).nanos >= 0,
        nanos <= 0 ==> moment(nanos).nanos <= 0,
{
}

/// A payload that is no frame is passed over. The reading ends at a length of zero or of more
/// than a million, and where the bytes end before the payload does.
pub proof fn reading_goes_on_or_ends(
    device_id: Seq<char>,
    header: Seq<u8>,
    payload: Seq<u8>,
    rest: Seq<u8>,
)
    requires
        header.len() == 4,
    ensures
        0 < be_value(header) <= 1_000_000 && payload.len() == be_value(header) ==> frames_of(
            device_id,
            header + payload + rest,
        ) == (match frame_of(device_id, payload) {
            Some(frame) => seq![frame] + frames_of(device_id, rest),
            None => frames_of(device_id, rest),
        }),
        be_value(header) == 0 || be_value(header) > 1_000_000 || payload.len() < be_value(header)
            ==> frames_of(device_id, header + payload) == Seq::<FrameView>::empty(),
        payload.len() < 4 ==> frames_of(device_id, payload) == Seq::<FrameView>::empty(),
{
    let stream = header + payload + rest;
    let n = be_value(header);
    assert(stream.take(4) =~= header);
    assert((header + payload).take(4) =~= header);
    if payload.len() == n {
        assert(stream.subrange(4, 4 + n as int) =~= payload);
        assert(stream.skip(4 + n as int) =~= rest);
    }
}

/// A frame and its joints say what they hold, each thing under its own name.
pub proof fn frames_say_what_they_hold(frame: TelemetryFrame, i: int)
    ensures
        frame@.device_id == frame.device_id@,
        frame@.recorded_at == frame.recorded_at,
        frame@.joints.len() == frame.joints@.len(),
        0 <= i < frame.joints@.len() ==> {
            &&& frame@.joints[i].name == frame.joints@[i].name@
            &&& frame@.joints[i].position_bits == frame.joints@[i].position_bits
            &&& frame@.joints[i].torque_bits == frame.joints@[i].torque_bits
            &&& frame@.joints[i].temperature_bits == frame.joints@[i].temperature_bits
        },
{
}

/// What is read off a frame that the simulator wrote is the time, the positions and the
/// torques that were written, for each joint its own.
pub proof fn written_frames_are_told_joint_by_joint(
    device_id: Seq<char>,
    time: i64,
    positions: Seq<u64>,
    torques: Seq<u64>,
    i: int,
)
    requires
        positions.len() == torques.len(),
        positions.len() <= u32::MAX,
        0 <= i < positions.len(),
    ensures
        frame_of(device_id, encode_payload(time, positions, torques)) matches Some(frame) && {
            &&& frame.device_id == device_id
            &&& frame.joints.len() == positions.len()
            &&& frame.joints[i].position_bits == positions[i]
            &&& frame.joints[i].torque_bits == torques[i]
            &&& frame.recorded_at.seconds * 1_000_000_000 + frame.recorded_at.nanos == time
        },
{
    payload_round_trip(device_id, time, positions, torques);
    moments_are_in_seconds(time);
}

} // verus!
