//! What a service answers when it does not do what it was asked.

use vstd::prelude::*;

verus! {

/// The kind of a refusal.
#[derive(Debug, Clone, Copy, PartialEq, Eq, Structural)]
pub enum Code {
    InvalidArgument,
    NotFound,
    AlreadyExists,
    PermissionDenied,
    FailedPrecondition,
    Internal,
    Unavailable,
    Unauthenticated,
}

/// A refusal: its kind, and a message for people.
#[derive(Debug)]
pub struct Status {
    pub code: Code,
    pub message: String,
}

/// What a [`Status`] says.
#[verifier::ext_equal]
pub struct StatusView {
    pub code: Code,
    pub message: Seq<char>,
}

impl View for Status {
    type V = StatusView;

    open spec fn view(&self) -> StatusView {
        StatusView { code: self.code, message: self.message@ }
    }
}

impl Status {
    /// A refusal of the kind `code`.
    pub fn new(code: Code, message: String) -> (r: Status)
        ensures
            r@ == (StatusView { code, message: message@ }),
            r.code == code,
            r.message@ == message@,
    {
        Status { code, message }
    }
}

/// A moment, in seconds since 1970 and nanoseconds beyond them.
#[derive(Debug, Clone, Copy, PartialEq, Eq, Structural)]
pub struct Timestamp {
    pub seconds: i64,
    pub nanos: i32,
}

impl Timestamp {
    /// The moment at which the second `seconds` starts.
    pub open spec fn second(seconds: i64) -> Timestamp {
        Timestamp { seconds, nanos: 0 }
    }

    /// The moment at which the second `seconds` starts.
    pub fn at_second(seconds: i64) -> (r: Timestamp)
        ensures
            r == Timestamp::second(seconds),
            r.seconds == seconds,
            r.nanos == 0,
    {
        Timestamp { seconds, nanos: 0 }
    }
}

/// A refusal says its kind and its message; a moment at which a second starts is that second
/// and no part of the next.
pub proof fn refusals_and_seconds_are_what_they_say(status: Status, seconds: i64)
    ensures
        status@.code == status.code,
        status@.message == status.message@,
        Timestamp::second(seconds).seconds == seconds,
        Timestamp::second(seconds).nanos == 0,
{
}

} // verus!
