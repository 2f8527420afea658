//! What can go wrong in the agent.

use vstd::prelude::*;

use crate::pki;
use crate::text::{join2, join4};

verus! {

/// An error of the agent.
#[derive(Debug)]
pub enum Error {
    /// The TLS library refused the credentials, with its message.
    Tls(String),
    /// A remote call was refused, with the text of the refusal.
    Grpc(String),
    /// A file or a process failed, with its message.
    Io(String),
    Checksum { expected: String, actual: String },
    Install(String),
    Pki(pki::error::Error),
    /// A connection failed, with its message.
    Transport(String),
}

/// What an [`Error`] says, with its texts as sequences of characters.
#[verifier::ext_equal]
pub enum ErrorView {
    Tls(Seq<char>),
    Grpc(Seq<char>),
    Io(Seq<char>),
    Checksum { expected: Seq<char>, actual: Seq<char> },
    Install(Seq<char>),
    Pki(pki::error::ErrorView),
    Transport(Seq<char>),
}

impl View for Error {
    type V = ErrorView;

    open spec fn view(&self) -> ErrorView {
        match self {
            Error::Tls(m) => ErrorView::Tls(m@),
            Error::Grpc(m) => ErrorView::Grpc(m@),
            Error::Io(m) => ErrorView::Io(m@),
            Error::Checksum { expected, actual } => ErrorView::Checksum {
                expected: expected@,
                actual: actual@,
            },
            Error::Install(m) => ErrorView::Install(m@),
            Error::Pki(e) => ErrorView::Pki(e@),
            Error::Transport(m) => ErrorView::Transport(m@),
        }
    }
}

impl ErrorView {
    /// The sentence that tells a person about the error.
    pub open spec fn message(self) -> Seq<char> {
        match self {
            ErrorView::Tls(m) => "TLS error: "@ + m,
            ErrorView::Grpc(m) => "gRPC error: "@ + m,
            ErrorView::Io(m) => "IO error: "@ + m,
            ErrorView::Checksum { expected, actual } => "checksum mismatch: expected "@ + expected
                + ", got "@ + actual,
            ErrorView::Install(m) => "install script failed: "@ + m,
            ErrorView::Pki(e) => "PKI error: "@ + e.message(),
            ErrorView::Transport(m) => "gRPC transport error: "@ + m,
        }
    }
}

impl Error {
    /// The sentence that tells a person about the error.
    pub fn message(&self) -> (r: String)
        ensures
            r@ == self@.message(),
    {
        match self {
            Error::Tls(m) => join2("TLS error: ", m.as_str()),
            Error::Grpc(m) => join2("gRPC error: ", m.as_str()),
            Error::Io(m) => join2("IO error: ", m.as_str()),
            Error::Checksum { expected, actual } => join4(
                "checksum mismatch: expected ",
                expected.as_str(),
                ", got ",
                actual.as_str(),
            ),
            Error::Install(m) => join2("install script failed: ", m.as_str()),
            Error::Pki(e) => {
                let inner: String = e.message();
                join2("PKI error: ", inner.as_str())
            },
            Error::Transport(m) => join2("gRPC transport error: ", m.as_str()),
        }
    }
}

/// What a person reads names the kind of the error and gives what was said about it, the
/// expected checksum before the actual one.
pub proof fn messages_name_kind_and_cause(m: Seq<char>, other: Seq<char>, e: pki::error::ErrorView)
    ensures
        ErrorView::Tls(m).message() == "TLS error: "@ + m,
        ErrorView::Grpc(m).message() == "gRPC error: "@ + m,
        ErrorView::Io(m).message() == "IO error: "@ + m,
        ErrorView::Install(m).message() == "install script failed: "@ + m,
        ErrorView::Transport(m).message() == "gRPC transport error: "@ + m,
        ErrorView::Pki(e).message() == "PKI error: "@ + e.message(),
        (ErrorView::Checksum { expected: m, actual: other }).message()
            == "checksum mismatch: expected "@ + m + ", got "@ + other,
{
}

/// An error says what it is.
pub proof fn errors_say_what_they_are(m: String, other: String, e: pki::error::Error)
    ensures
        Error::Tls(m)@ == ErrorView::Tls(m@),
        Error::Grpc(m)@ == ErrorView::Grpc(m@),
        Error::Io(m)@ == ErrorView::Io(m@),
        (Error::Checksum { expected: m, actual: other })@ == (ErrorView::Checksum {
            expected: m@,
            actual: other@,
        }),
        Error::Install(m)@ == ErrorView::Install(m@),
        Error::Pki(e)@ == ErrorView::Pki(e@),
        Error::Transport(m)@ == ErrorView::Transport(m@),
{
}

} // verus!
