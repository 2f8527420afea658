//! What can go wrong with keys and certificates.

use vstd::prelude::*;

use crate::text::{join2, join4};

verus! {

/// An error of the certificate code.
#[derive(Debug)]
pub enum Error {
    /// The TLS library refused the credentials.
    Tls(String),
    /// A PEM text could not be read, or its contents could not be used.
    Pem(String),
    /// The peer showed no certificate.
    NoPeerCert,
    /// A certificate failed verification.
    CertVerification(String),
    /// The certificate names one serial and the request another.
    SerialMismatch { cert: String, request: String },
    /// A file could not be read or written.
    Io(String),
    /// The certificate would be valid outside the years that it can express.
    Validity,
}

/// What an [`Error`] says, with its texts as sequences of characters.
#[verifier::ext_equal]
pub enum ErrorView {
    Tls(Seq<char>),
    Pem(Seq<char>),
    NoPeerCert,
    CertVerification(Seq<char>),
    SerialMismatch { cert: Seq<char>, request: Seq<char> },
    Io(Seq<char>),
    Validity,
}

impl View for Error {
    type V = ErrorView;

    open spec fn view(&self) -> ErrorView {
        match self {
            Error::Tls(m) => ErrorView::Tls(m@),
            Error::Pem(m) => ErrorView::Pem(m@),
            Error::NoPeerCert => ErrorView::NoPeerCert,
            Error::CertVerification(m) => ErrorView::CertVerification(m@),
            Error::SerialMismatch { cert, request } => ErrorView::SerialMismatch {
                cert: cert@,
                request: request@,
            },
            Error::Io(m) => ErrorView::Io(m@),
            Error::Validity => ErrorView::Validity,
        }
    }
}

impl ErrorView {
    /// The sentence that tells a person about the error.
    pub open spec fn message(self) -> Seq<char> {
        match self {
            ErrorView::Tls(m) => "TLS error: "@ + m,
            ErrorView::Pem(m) => "PEM parse error: "@ + m,
            ErrorView::NoPeerCert => "no peer certificate in TLS state"@,
            ErrorView::CertVerification(m) => "device cert verification failed: "@ + m,
            ErrorView::SerialMismatch { cert, request } => "serial mismatch: cert="@ + cert
                + " request="@ + request,
            ErrorView::Io(m) => "IO error: "@ + m,
            ErrorView::Validity => "certificate validity out of range"@,
        }
    }
}

impl Error {
    /// The sentence that tells a person about the error.
    pub fn message(&self) -> (r: String)
        ensures
            r@ == self@.message(),
    {
        match self {
            Error::Tls(m) => join2("TLS error: ", m.as_str()),
            Error::Pem(m) => join2("PEM parse error: ", m.as_str()),
            Error::NoPeerCert => "no peer certificate in TLS state".to_owned(),
            Error::CertVerification(m) => join2("device cert verification failed: ", m.as_str()),
            Error::SerialMismatch { cert, request } => join4(
                "serial mismatch: cert=",
                cert.as_str(),
                " request=",
                request.as_str(),
            ),
            Error::Io(m) => join2("IO error: ", m.as_str()),
            Error::Validity => "certificate validity out of range".to_owned(),
        }
    }
}

/// What a person reads names the kind of the error and gives what was said about it, the
/// serial of the certificate before that of the request.
pub proof fn messages_name_kind_and_cause(m: Seq<char>, other: Seq<char>)
    ensures
        ErrorView::Tls(m).message() == "TLS error: "@ + m,
        ErrorView::Pem(m).message() == "PEM parse error: "@ + m,
        ErrorView::NoPeerCert.message() == "no peer certificate in TLS state"@,
        ErrorView::CertVerification(m).message() == "device cert verification failed: "@ + m,
        (ErrorView::SerialMismatch { cert: m, request: other }).message()
            == "serial mismatch: cert="@ + m + " request="@ + other,
        ErrorView::Io(m).message() == "IO error: "@ + m,
        ErrorView::Validity.message() == "certificate validity out of range"@,
{
}

/// An error says what it is.
pub proof fn errors_say_what_they_are(m: String, other: String)
    ensures
        Error::Tls(m)@ == ErrorView::Tls(m@),
        Error::Pem(m)@ == ErrorView::Pem(m@),
        Error::NoPeerCert@ == ErrorView::NoPeerCert,
        Error::CertVerification(m)@ == ErrorView::CertVerification(m@),
        (Error::SerialMismatch { cert: m, request: other })@ == (ErrorView::SerialMismatch {
            cert: m@,
            request: other@,
        }),
        Error::Io(m)@ == ErrorView::Io(m@),
        Error::Validity@ == ErrorView::Validity,
{
}

} // verus!
