//! What can go wrong in the artifact store.

use vstd::prelude::*;

use crate::text::{join2, join4};

verus! {

/// An error of the artifact store.
#[derive(Debug)]
pub enum Error {
    NotFound(String),
    VersionConflict { model: String, version: String },
    /// The database failed, with its message.
    Db(String),
    Storage(String),
    ChecksumMismatch { expected: String, actual: String },
}

/// What an [`Error`] says, with its texts as sequences of characters.
#[verifier::ext_equal]
pub enum ErrorView {
    NotFound(Seq<char>),
    VersionConflict { model: Seq<char>, version: Seq<char> },
    Db(Seq<char>),
    Storage(Seq<char>),
    ChecksumMismatch { expected: Seq<char>, actual: Seq<char> },
}

impl View for Error {
    type V = ErrorView;

    open spec fn view(&self) -> ErrorView {
        match self {
            Error::NotFound(m) => ErrorView::NotFound(m@),
            Error::VersionConflict { model, version } => ErrorView::VersionConflict {
                model: model@,
                version: version@,
            },
            Error::Db(m) => ErrorView::Db(m@),
            Error::Storage(m) => ErrorView::Storage(m@),
            Error::ChecksumMismatch { expected, actual } => ErrorView::ChecksumMismatch {
                expected: expected@,
                actual: actual@,
            },
        }
    }
}

impl ErrorView {
    /// The sentence that tells a person about the error.
    pub open spec fn message(self) -> Seq<char> {
        match self {
            ErrorView::NotFound(m) => "not found: "@ + m,
            ErrorView::VersionConflict { model, version } => "version already exists: "@ + model
                + "@"@ + version,
            ErrorView::Db(m) => "database error: "@ + m,
            ErrorView::Storage(m) => "storage error: "@ + m,
            ErrorView::ChecksumMismatch { expected, actual } => "checksum mismatch: expected "@
                + expected + ", got "@ + actual,
        }
    }
}

impl Error {
    /// The sentence that tells a person about the error.
    pub fn message(&self) -> (r: String)
        ensures
            r@ == self@.message(),
    {
        match self {
            Error::NotFound(m) => join2("not found: ", m.as_str()),
            Error::VersionConflict { model, version } => join4(
                "version already exists: ",
                model.as_str(),
                "@",
                version.as_str(),
            ),
            Error::Db(m) => join2("database error: ", m.as_str()),
            Error::Storage(m) => join2("storage error: ", m.as_str()),
            Error::ChecksumMismatch { expected, actual } => join4(
                "checksum mismatch: expected ",
                expected.as_str(),
                ", got ",
                actual.as_str(),
            ),
        }
    }
}

/// What a person reads names the kind of the error and gives what was said about it: the
/// version behind its model, the expected checksum before the actual one.
pub proof fn messages_name_kind_and_cause(m: Seq<char>, other: Seq<char>)
    ensures
        ErrorView::NotFound(m).message() == "not found: "@ + m,
        (ErrorView::VersionConflict { model: m, version: other }).message()
            == "version already exists: "@ + m + "@"@ + other,
        ErrorView::Db(m).message() == "database error: "@ + m,
        ErrorView::Storage(m).message() == "storage error: "@ + m,
        (ErrorView::ChecksumMismatch { expected: m, actual: other }).message()
            == "checksum mismatch: expected "@ + m + ", got "@ + other,
{
}

/// An error says what it is.
pub proof fn errors_say_what_they_are(m: String, other: String)
    ensures
        Error::NotFound(m)@ == ErrorView::NotFound(m@),
        (Error::VersionConflict { model: m, version: other })@ == (ErrorView::VersionConflict {
            model: m@,
            version: other@,
        }),
        Error::Db(m)@ == ErrorView::Db(m@),
        Error::Storage(m)@ == ErrorView::Storage(m@),
        (Error::ChecksumMismatch { expected: m, actual: other })@
            == (ErrorView::ChecksumMismatch { expected: m@, actual: other@ }),
{
}

} // verus!
