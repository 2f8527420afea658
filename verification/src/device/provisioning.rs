//! Factory provisioning: a device that has a serial and a one-time token, and no
//! certificate yet, gets its first one.

use vstd::prelude::*;

use crate::device::error::Error;
use crate::device::error::ErrorView;
use crate::device::store::DeviceStore;
use crate::pki;
use crate::pki::csr::sign_csr;
use crate::sources;
use crate::status::StatusView;
use crate::status::{Code, Status};
use crate::text::join2;

verus! {

/// For how many days a device certificate is valid.
pub const DEVICE_CERT_DAYS: u32 = 365;

/// What a device sends to be provisioned.
pub struct ProvisionDeviceRequest {
    pub serial: String,
    pub csr_pem: String,
    pub provision_token: String,
}

/// What a device gets when it is provisioned.
#[derive(Debug)]
pub struct ProvisionDeviceResponse {
    pub device_cert_pem: String,
}

/// The authority that signs device certificates.
pub struct ProvisioningServer {
    device_ca_cert_pem: String,
    device_ca_key_pem: String,
}

/// How a failed provisioning is answered.
pub open spec fn refusal(e: ErrorView) -> StatusView {
    match e {
        ErrorView::NotInManifest(m) => StatusView { code: Code::FailedPrecondition, message: m },
        ErrorView::InvalidProvisionToken(m) => StatusView {
            code: Code::PermissionDenied,
            message: m,
        },
        ErrorView::AlreadyProvisioned(m) => StatusView { code: Code::AlreadyExists, message: m },
        _ => StatusView { code: Code::Internal, message: e.message() },
    }
}

/// How a failed provisioning is answered.
pub fn map_err(e: Error) -> (r: Status)
    ensures
        r@ == refusal(e@),
{
    match e {
        Error::NotInManifest(m) => Status::new(Code::FailedPrecondition, m),
        Error::InvalidProvisionToken(m) => Status::new(Code::PermissionDenied, m),
        Error::AlreadyProvisioned(m) => Status::new(Code::AlreadyExists, m),
        other => {
            let message: String = other.message();
            Status::new(Code::Internal, message)
        },
    }
}

/// How a request that does not say enough is answered.
pub open spec fn incomplete() -> StatusView {
    StatusView {
        code: Code::InvalidArgument,
        message: "serial, csr_pem, and provision_token are required"@,
    }
}

/// Answers with the certificate that was signed, or says why there is none.
pub fn answer_signed(signed: Result<String, pki::error::Error>) -> (r: Result<
    ProvisionDeviceResponse,
    Status,
>)
    ensures
        match signed {
            Ok(cert) => r matches Ok(response) && response.device_cert_pem@ == cert@,
            Err(e) => r matches Err(s) && s@ == (StatusView {
                code: Code::Internal,
                message: "CSR signing failed: "@ + e@.message(),
            }),
        },
{
    match signed {
        Ok(device_cert_pem) => Ok(ProvisionDeviceResponse { device_cert_pem }),
        Err(e) => {
            let text: String = e.message();
            Err(Status::new(Code::Internal, join2("CSR signing failed: ", text.as_str())))
        },
    }
}

impl ProvisioningServer {
    /// The certificate of the authority.
    pub closed spec fn ca_cert(&self) -> Seq<char> {
        self.device_ca_cert_pem@
    }

    /// The private key of the authority.
    pub closed spec fn ca_key(&self) -> Seq<char> {
        self.device_ca_key_pem@
    }

    /// The service of the authority with the given certificate and key.
    pub fn new(device_ca_cert_pem: String, device_ca_key_pem: String) -> (r: ProvisioningServer)
        ensures
            r.ca_cert() == device_ca_cert_pem@,
            r.ca_key() == device_ca_key_pem@,
    {
        ProvisioningServer { device_ca_cert_pem, device_ca_key_pem }
    }

    /// `cert` is a device certificate that this authority issues on the request `csr_pem`.
    pub open spec fn issues(&self, cert: Seq<char>, csr_pem: Seq<char>) -> bool {
        exists|now: int|
            sources::is_reading(now) && #[trigger] pki::csr::issued_at(
                cert,
                csr_pem,
                self.ca_cert(),
                self.ca_key(),
                DEVICE_CERT_DAYS as int,
                now,
            )
    }

    /// `e` says why this authority does not sign the request `csr_pem`: something could not be
    /// read or made, or all could be read and the validity leaves the years that a certificate
    /// can express.
    pub open spec fn cannot_sign(&self, e: pki::error::ErrorView, csr_pem: Seq<char>) -> bool {
        exists|now: int|
            sources::is_reading(now) && #[trigger] pki::csr::may_answer(
                Err(e),
                csr_pem,
                self.ca_cert(),
                self.ca_key(),
                DEVICE_CERT_DAYS as int,
                now,
            )
    }

    /// Uses up the token and signs the request with the device authority.
    ///
    /// The token is used up before anything is signed and stays so where signing fails.
    pub fn provision_device(&self, store: &mut DeviceStore, req: &ProvisionDeviceRequest) -> (r:
        Result<ProvisionDeviceResponse, Status>)
        requires
            old(store).wf(),
        ensures
            final(store).wf(),
            if req.serial@.len() == 0 || req.csr_pem@.len() == 0 || req.provision_token@.len()
                == 0 {
                (r matches Err(s) && s@ == incomplete()) && final(store)@ == old(store)@
            } else {
                match old(store)@.token_outcome(req.serial@, req.provision_token@) {
                    Err(e) => (r matches Err(s) && s@ == refusal(e)) && final(store)@ == old(
                        store,
                    )@,
                    Ok(_) => {
                        &&& exists|now: i64|
                            sources::is_reading(now as int) && final(store)@ == #[trigger] old(
                                store,
                            )@.after_token(req.serial@, req.provision_token@, now)
                        &&& match r {
                            Ok(response) => self.issues(response.device_cert_pem@, req.csr_pem@),
                            Err(s) => exists|e: pki::error::ErrorView|
                                self.cannot_sign(e, req.csr_pem@) && s@ == (StatusView {
                                    code: Code::Internal,
                                    message: "CSR signing failed: "@ + #[trigger] e.message(),
                                }),
                        }
                    },
                }
            },
            r is Ok ==> {
                &&& old(store)@.manifest.contains_key(req.serial@)
                &&& old(store)@.manifest[req.serial@].token == req.provision_token@
                &&& old(store)@.manifest[req.serial@].provisioned_at is None
                &&& final(store)@.manifest[req.serial@].provisioned_at is Some
                &&& final(store)@.serials.contains_key(req.serial@)
            },
    {
        if req.serial.as_str().is_empty() || req.csr_pem.as_str().is_empty()
            || req.provision_token.as_str().is_empty() {
            return Err(
                Status::new(
                    Code::InvalidArgument,
                    "serial, csr_pem, and provision_token are required".to_owned(),
                ),
            );
        }
        proof {
            store.lemma_wf();
        }
        match store.claim_manifest_entry(req.serial.as_str(), req.provision_token.as_str()) {
            Ok(_model) => {},
            Err(e) => return Err(map_err(e)),
        }
        let signed: Result<String, pki::error::Error> = sign_csr(
            req.csr_pem.as_str(),
            self.device_ca_cert_pem.as_str(),
            self.device_ca_key_pem.as_str(),
            DEVICE_CERT_DAYS,
        );
        proof {
            let now = choose|now: int|
                sources::is_reading(now) && #[trigger] pki::csr::may_answer(
                    pki::csr::answer_view(signed),
                    req.csr_pem@,
                    self.ca_cert(),
                    self.ca_key(),
                    DEVICE_CERT_DAYS as int,
                    now,
                );
            match &signed {
                Ok(cert) => {
                    assert(pki::csr::issued_at(
                        cert@,
                        req.csr_pem@,
                        self.ca_cert(),
                        self.ca_key(),
                        DEVICE_CERT_DAYS as int,
                        now,
                    ));
                },
                Err(e) => {
                    assert(self.cannot_sign(e@, req.csr_pem@));
                },
            }
        }
        answer_signed(signed)
    }
}

/// Each failure has its own kind of refusal: a serial that is not in the manifest does not
/// meet the condition, a wrong token is denied, a second use already happened, and all else is
/// internal.
pub proof fn failures_are_told_by_kind(m: Seq<char>, e: pki::error::ErrorView)
    ensures
        refusal(ErrorView::NotInManifest(m)).code == Code::FailedPrecondition,
        refusal(ErrorView::NotInManifest(m)).message == m,
        refusal(ErrorView::InvalidProvisionToken(m)).code == Code::PermissionDenied,
        refusal(ErrorView::InvalidProvisionToken(m)).message == m,
        refusal(ErrorView::AlreadyProvisioned(m)).code == Code::AlreadyExists,
        refusal(ErrorView::AlreadyProvisioned(m)).message == m,
        refusal(ErrorView::NotFound(m)).code == Code::Internal,
        refusal(ErrorView::NotFound(m)).message == "device not found: "@ + m,
        refusal(ErrorView::Db(m)).code == Code::Internal,
        refusal(ErrorView::Db(m)).message == "database error: "@ + m,
        refusal(ErrorView::Pki(e)).code == Code::Internal,
        refusal(ErrorView::Pki(e)).message == "PKI error: "@ + e.message(),
        incomplete().code == Code::InvalidArgument,
        incomplete().message == "serial, csr_pem, and provision_token are required"@,
{
}

/// A device certificate is one that the factory's own authority issues on the request, for a
/// year.
pub proof fn device_certificates_last_a_year(
    factory: &ProvisioningServer,
    cert: Seq<char>,
    csr_pem: Seq<char>,
)
    ensures
        factory.issues(cert, csr_pem) <==> exists|now: int|
            sources::is_reading(now) && #[trigger] pki::csr::issued_at(
                cert,
                csr_pem,
                factory.ca_cert(),
                factory.ca_key(),
                365,
                now,
            ),
{
}

} // verus!
