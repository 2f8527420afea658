//! What can go wrong in the update service.

use vstd::prelude::*;

use crate::text::join2;

verus! {

/// An error of the update service.
#[derive(Debug)]
pub enum Error {
    NotFound(String),
    AlreadyPending,
    NoActiveSubscribers(String),
    /// The database failed, with its message.
    Db(String),
    /// A remote call was refused, with the text of the refusal.
    Grpc(String),
    /// A connection failed, with its message.
    Transport(String),
}

/// What an [`Error`] says, with its texts as sequences of characters.
#[verifier::ext_equal]
pub enum ErrorView {
    NotFound(Seq<char>),
    AlreadyPending,
    NoActiveSubscribers(Seq<char>),
    Db(Seq<char>),
    Grpc(Seq<char>),
    Transport(Seq<char>),
}

impl View for Error {
    type V = ErrorView;

    open spec fn view(&self) -> ErrorView {
        match self {
            Error::NotFound(m) => ErrorView::NotFound(m@),
            Error::AlreadyPending => ErrorView::AlreadyPending,
            Error::NoActiveSubscribers(m) => ErrorView::NoActiveSubscribers(m@),
            Error::Db(m) => ErrorView::Db(m@),
            Error::Grpc(m) => ErrorView::Grpc(m@),
            Error::Transport(m) => ErrorView::Transport(m@),
        }
    }
}

impl ErrorView {
    /// The sentence that tells a person about the error.
    pub open spec fn message(self) -> Seq<char> {
        match self {
            ErrorView::NotFound(m) => "job not found: "@ + m,
            ErrorView::AlreadyPending => "device already has a pending or in-progress job"@,
            ErrorView::NoActiveSubscribers(m) => "no active subscribers for device "@ + m,
            ErrorView::Db(m) => "database error: "@ + m,
            ErrorView::Grpc(m) => "gRPC error: "@ + m,
            ErrorView::Transport(m) => "gRPC transport error: "@ + m,
        }
    }
}

impl Error {
    /// The sentence that tells a person about the error.
    pub fn message(&self) -> (r: String)
        ensures
            r@ == self@.message(),
    {
        match self {
            Error::NotFound(m) => join2("job not found: ", m.as_str()),
            Error::AlreadyPending => "device already has a pending or in-progress job".to_owned(),
            Error::NoActiveSubscribers(m) => join2(
                "no active subscribers for device ",
                m.as_str(),
            ),
            Error::Db(m) => join2("database error: ", m.as_str()),
            Error::Grpc(m) => join2("gRPC error: ", m.as_str()),
            Error::Transport(m) => join2("gRPC transport error: ", m.as_str()),
        }
    }
}

/// What a person reads names the kind of the error and gives what was said about it.
pub proof fn messages_name_kind_and_cause(m: Seq<char>)
    ensures
        ErrorView::NotFound(m).message() == "job not found: "@ + m,
        ErrorView::AlreadyPending.message()
            == "device already has a pending or in-progress job"@,
        ErrorView::NoActiveSubscribers(m).message() == "no active subscribers for device "@ + m,
        ErrorView::Db(m).message() == "database error: "@ + m,
        ErrorView::Grpc(m).message() == "gRPC error: "@ + m,
        ErrorView::Transport(m).message() == "gRPC transport error: "@ + m,
{
}

/// An error says what it is.
pub proof fn errors_say_what_they_are(m: String)
    ensures
        Error::NotFound(m)@ == ErrorView::NotFound(m@),
        Error::AlreadyPending@ == ErrorView::AlreadyPending,
        Error::NoActiveSubscribers(m)@ == ErrorView::NoActiveSubscribers(m@),
        Error::Db(m)@ == ErrorView::Db(m@),
        Error::Grpc(m)@ == ErrorView::Grpc(m@),
        Error::Transport(m)@ == ErrorView::Transport(m@),
{
}

} // verus!
