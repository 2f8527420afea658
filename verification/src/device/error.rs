//! What can go wrong in the device-management service.

use vstd::prelude::*;

use crate::pki;
use crate::text::{join2, join3, join4};

verus! {

/// An error of the device-management service.
#[derive(Debug)]
pub enum Error {
    NotFound(String),
    AlreadyEnrolled(String),
    NotPreEnrolled(String),
    SerialAlreadyClaimed(String),
    DeviceNotActive { status: String },
    SerialMismatch { cert: String, request: String },
    CertVerification(String),
    NotInManifest(String),
    InvalidProvisionToken(String),
    AlreadyProvisioned(String),
    /// The database failed, with its message.
    Db(String),
    Pki(pki::error::Error),
}

/// What an [`Error`] says, with its texts as sequences of characters.
#[verifier::ext_equal]
pub enum ErrorView {
    NotFound(Seq<char>),
    AlreadyEnrolled(Seq<char>),
    NotPreEnrolled(Seq<char>),
    SerialAlreadyClaimed(Seq<char>),
    DeviceNotActive { status: Seq<char> },
    SerialMismatch { cert: Seq<char>, request: Seq<char> },
    CertVerification(Seq<char>),
    NotInManifest(Seq<char>),
    InvalidProvisionToken(Seq<char>),
    AlreadyProvisioned(Seq<char>),
    Db(Seq<char>),
    Pki(pki::error::ErrorView),
}

impl View for Error {
    type V = ErrorView;

    open spec fn view(&self) -> ErrorView {
        match self {
            Error::NotFound(m) => ErrorView::NotFound(m@),
            Error::AlreadyEnrolled(m) => ErrorView::AlreadyEnrolled(m@),
            Error::NotPreEnrolled(m) => ErrorView::NotPreEnrolled(m@),
            Error::SerialAlreadyClaimed(m) => ErrorView::SerialAlreadyClaimed(m@),
            Error::DeviceNotActive { status } => ErrorView::DeviceNotActive { status: status@ },
            Error::SerialMismatch { cert, request } => ErrorView::SerialMismatch {
                cert: cert@,
                request: request@,
            },
            Error::CertVerification(m) => ErrorView::CertVerification(m@),
            Error::NotInManifest(m) => ErrorView::NotInManifest(m@),
            Error::InvalidProvisionToken(m) => ErrorView::InvalidProvisionToken(m@),
            Error::AlreadyProvisioned(m) => ErrorView::AlreadyProvisioned(m@),
            Error::Db(m) => ErrorView::Db(m@),
            Error::Pki(e) => ErrorView::Pki(e@),
        }
    }
}

impl ErrorView {
    /// The sentence that tells a person about the error.
    pub open spec fn message(self) -> Seq<char> {
        match self {
            ErrorView::NotFound(m) => "device not found: "@ + m,
            ErrorView::AlreadyEnrolled(m) => "serial already enrolled: "@ + m,
            ErrorView::NotPreEnrolled(m) => "serial not in pre-enrollment registry: "@ + m,
            ErrorView::SerialAlreadyClaimed(m) => "serial already claimed: "@ + m,
            ErrorView::DeviceNotActive { status } => "device is "@ + status
                + ", cannot renew cert"@,
            ErrorView::SerialMismatch { cert, request } => "serial mismatch: cert="@ + cert
                + " request="@ + request,
            ErrorView::CertVerification(m) => "cert verification failed: "@ + m,
            ErrorView::NotInManifest(m) => "serial not in factory manifest: "@ + m,
            ErrorView::InvalidProvisionToken(m) => "invalid provision token for serial: "@ + m,
            ErrorView::AlreadyProvisioned(m) => "device already provisioned: "@ + m,
            ErrorView::Db(m) => "database error: "@ + m,
            ErrorView::Pki(e) => "PKI error: "@ + e.message(),
        }
    }
}

impl Error {
    /// The sentence that tells a person about the error.
    pub fn message(&self) -> (r: String)
        ensures
            r@ == self@.message(),
    {
        match self {
            Error::NotFound(m) => join2("device not found: ", m.as_str()),
            Error::AlreadyEnrolled(m) => join2("serial already enrolled: ", m.as_str()),
            Error::NotPreEnrolled(m) => join2(
                "serial not in pre-enrollment registry: ",
                m.as_str(),
            ),
            Error::SerialAlreadyClaimed(m) => join2("serial already claimed: ", m.as_str()),
            Error::DeviceNotActive { status } => join3(
                "device is ",
                status.as_str(),
                ", cannot renew cert",
            ),
            Error::SerialMismatch { cert, request } => join4(
                "serial mismatch: cert=",
                cert.as_str(),
                " request=",
                request.as_str(),
            ),
            Error::CertVerification(m) => join2("cert verification failed: ", m.as_str()),
            Error::NotInManifest(m) => join2("serial not in factory manifest: ", m.as_str()),
            Error::InvalidProvisionToken(m) => join2(
                "invalid provision token for serial: ",
                m.as_str(),
            ),
            Error::AlreadyProvisioned(m) => join2("device already provisioned: ", m.as_str()),
            Error::Db(m) => join2("database error: ", m.as_str()),
            Error::Pki(e) => {
                let inner: String = e.message();
                join2("PKI error: ", inner.as_str())
            },
        }
    }
}

/// What a person reads names the kind of the error and gives what was said about it, the
/// serial of the certificate before that of the request.
pub proof fn messages_name_kind_and_cause(m: Seq<char>, other: Seq<char>, e: pki::error::ErrorView)
    ensures
        ErrorView::NotFound(m).message() == "device not found: "@ + m,
        ErrorView::AlreadyEnrolled(m).message() == "serial already enrolled: "@ + m,
        ErrorView::NotPreEnrolled(m).message() == "serial not in pre-enrollment registry: "@ + m,
        ErrorView::SerialAlreadyClaimed(m).message() == "serial already claimed: "@ + m,
        (ErrorView::DeviceNotActive { status: m }).message() == "device is "@ + m
            + ", cannot renew cert"@,
        (ErrorView::SerialMismatch { cert: m, request: other }).message()
            == "serial mismatch: cert="@ + m + " request="@ + other,
        ErrorView::CertVerification(m).message() == "cert verification failed: "@ + m,
        ErrorView::NotInManifest(m).message() == "serial not in factory manifest: "@ + m,
        ErrorView::InvalidProvisionToken(m).message() == "invalid provision token for serial: "@
            + m,
        ErrorView::AlreadyProvisioned(m).message() == "device already provisioned: "@ + m,
        ErrorView::Db(m).message() == "database error: "@ + m,
        ErrorView::Pki(e).message() == "PKI error: "@ + e.message(),
{
}

/// An error says what it is.
pub proof fn errors_say_what_they_are(m: String, other: String, e: pki::error::Error)
    ensures
        Error::NotFound(m)@ == ErrorView::NotFound(m@),
        Error::AlreadyEnrolled(m)@ == ErrorView::AlreadyEnrolled(m@),
        Error::NotPreEnrolled(m)@ == ErrorView::NotPreEnrolled(m@),
        Error::SerialAlreadyClaimed(m)@ == ErrorView::SerialAlreadyClaimed(m@),
        (Error::DeviceNotActive { status: m })@ == (ErrorView::DeviceNotActive { status: m@ }),
        (Error::SerialMismatch { cert: m, request: other })@ == (ErrorView::SerialMismatch {
            cert: m@,
            request: other@,
        }),
        Error::CertVerification(m)@ == ErrorView::CertVerification(m@),
        Error::NotInManifest(m)@ == ErrorView::NotInManifest(m@),
        Error::InvalidProvisionToken(m)@ == ErrorView::InvalidProvisionToken(m@),
        Error::AlreadyProvisioned(m)@ == ErrorView::AlreadyProvisioned(m@),
        Error::Db(m)@ == ErrorView::Db(m@),
        Error::Pki(e)@ == ErrorView::Pki(e@),
{
}

} // verus!
