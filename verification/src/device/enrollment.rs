//! Enrolment: a device shows the certificate of the factory and gets one of the fleet.

use vstd::prelude::*;

use crate::device::error::Error;
use crate::device::error::ErrorView;
use crate::device::store;
use crate::device::store::{
    DeviceRecord, DeviceStore, DeviceView, NewDevice, PreEnrollmentRecord,
};
use crate::pki;
use crate::pki::csr::sign_csr;
use crate::pki::mtls::{extract_serial, verify_signed_by};
use crate::sources;
use crate::sources::{new_uuid, unix_now, DAY_SECONDS};
use crate::text::same_text;

verus! {

/// What a device gets when it enrols.
#[derive(Debug)]
pub struct EnrollResult {
    pub device_id: String,
    pub operational_cert_pem: String,
    pub fleet_ca_chain_pem: String,
    pub expires_at: i64,
}

/// The fleet's certificate authority, and how long its certificates last.
pub struct EnrollmentService {
    fleet_ca_cert_pem: String,
    fleet_ca_key_pem: String,
    cert_validity_days: u32,
}

/// Who may go on to claim a serial: the serial in the certificate that the peer shows,
/// where the request names the same one or none and the factory's authority signed the
/// certificate.
pub open spec fn admission(
    requested: Seq<char>,
    shown: Result<Seq<char>, pki::error::ErrorView>,
    signer_fault: Option<pki::error::ErrorView>,
) -> Result<Seq<char>, ErrorView> {
    match shown {
        Err(e) => Err(ErrorView::Pki(e)),
        Ok(serial) => if requested.len() > 0 && requested != serial {
            Err(ErrorView::SerialMismatch { cert: serial, request: requested })
        } else {
            match signer_fault {
                Some(e) => Err(ErrorView::CertVerification(e.message())),
                None => Ok(serial),
            }
        },
    }
}

/// Who may go on to claim a serial, given what the peer's certificate shows.
pub fn check_admission(
    requested: &str,
    shown: Result<String, pki::error::Error>,
    signed: Result<(), pki::error::Error>,
) -> (r: Result<String, Error>)
    ensures
        ({
            let outcome = admission(
                requested@,
                match shown {
                    Ok(s) => Ok(s@),
                    Err(e) => Err(e@),
                },
                match signed {
                    Ok(_) => None,
                    Err(e) => Some(e@),
                },
            );
            match r {
                Ok(serial) => outcome == Ok::<Seq<char>, ErrorView>(serial@),
                Err(e) => outcome == Err::<Seq<char>, ErrorView>(e@),
            }
        }),
{
    let serial: String = match shown {
        Ok(s) => s,
        Err(e) => return Err(Error::Pki(e)),
    };
    if !requested.is_empty() && !same_text(requested, serial.as_str()) {
        return Err(Error::SerialMismatch { cert: serial, request: requested.to_owned() });
    }
    match signed {
        Ok(_) => Ok(serial),
        Err(e) => Err(Error::CertVerification(e.message())),
    }
}

/// What a device record says that starts at `now`, under the identifier `id`.
pub open spec fn enrolled_device(
    id: Seq<char>,
    serial: Seq<char>,
    model: Seq<char>,
    firmware: Seq<char>,
    cert: Seq<char>,
    now: i64,
) -> DeviceView {
    DeviceView {
        id,
        serial,
        model,
        firmware,
        status: "active"@,
        operational_cert_pem: cert,
        enrolled_at: now,
        last_seen_at: now,
    }
}

impl EnrollmentService {
    /// The certificate of the fleet's authority.
    pub closed spec fn ca_cert(&self) -> Seq<char> {
        self.fleet_ca_cert_pem@
    }

    /// The private key of the fleet's authority.
    pub closed spec fn ca_key(&self) -> Seq<char> {
        self.fleet_ca_key_pem@
    }

    /// For how many days a certificate is valid.
    pub closed spec fn days(&self) -> u32 {
        self.cert_validity_days
    }

    /// The service of the authority with the given certificate and key.
    pub fn new(
        fleet_ca_cert_pem: String,
        fleet_ca_key_pem: String,
        cert_validity_days: u32,
    ) -> (r: EnrollmentService)
        ensures
            r.ca_cert() == fleet_ca_cert_pem@,
            r.ca_key() == fleet_ca_key_pem@,
            r.days() == cert_validity_days,
    {
        EnrollmentService { fleet_ca_cert_pem, fleet_ca_key_pem, cert_validity_days }
    }

    /// `cert` is a certificate that this authority issues on the request `csr_pem`.
    pub open spec fn issues(&self, cert: Seq<char>, csr_pem: Seq<char>) -> bool {
        exists|now: int|
            sources::is_reading(now) && #[trigger] pki::csr::issued_at(
                cert,
                csr_pem,
                self.ca_cert(),
                self.ca_key(),
                self.days() as int,
                now,
            )
    }

    /// `e` says why this authority does not sign the request `csr_pem`: something could not be
    /// read or made, or all could be read and the validity leaves the years that a certificate
    /// can express.
    pub open spec fn cannot_sign(&self, e: ErrorView, csr_pem: Seq<char>) -> bool {
        e matches ErrorView::Pki(p) && exists|now: int|
            sources::is_reading(now) && #[trigger] pki::csr::may_answer(
                Err(p),
                csr_pem,
                self.ca_cert(),
                self.ca_key(),
                self.days() as int,
                now,
            )
    }

    /// Asks the authority for a certificate.
    fn sign(&self, csr_pem: &str) -> (r: Result<String, pki::error::Error>)
        ensures
            match r {
                Ok(cert) => self.issues(cert@, csr_pem@),
                Err(e) => self.cannot_sign(ErrorView::Pki(e@), csr_pem@),
            },
    {
        let signed: Result<String, pki::error::Error> = sign_csr(
            csr_pem,
            self.fleet_ca_cert_pem.as_str(),
            self.fleet_ca_key_pem.as_str(),
            self.cert_validity_days,
        );
        proof {
            let now = choose|now: int|
                sources::is_reading(now) && #[trigger] pki::csr::may_answer(
                    pki::csr::answer_view(signed),
                    csr_pem@,
                    self.ca_cert(),
                    self.ca_key(),
                    self.days() as int,
                    now,
                );
            if let Ok(cert) = &signed {
                assert(pki::csr::issued_at(
                    cert@,
                    csr_pem@,
                    self.ca_cert(),
                    self.ca_key(),
                    self.days() as int,
                    now,
                ));
            }
        }
        signed
    }

    /// When a certificate that was signed at `signed_at` expires.
    pub open spec fn expiry(&self, signed_at: i64) -> int {
        signed_at + self.days() * DAY_SECONDS
    }

    /// Ends an enrolment whose serial was claimed: given what came of signing the request at
    /// the time `signed_at`, records the device under the identifier `id` at the time `now`.
    pub fn complete_enrollment(
        &self,
        store: &mut DeviceStore,
        pre: PreEnrollmentRecord,
        firmware: &str,
        signed: Result<String, pki::error::Error>,
        signed_at: i64,
        id: String,
        now: i64,
    ) -> (r: Result<EnrollResult, Error>)
        requires
            old(store).wf(),
            sources::is_reading(signed_at as int),
        ensures
            final(store).wf(),
            match signed {
                Err(e) => (r matches Err(f) && f@ == ErrorView::Pki(e@)) && final(store)@ == old(
                    store,
                )@,
                Ok(cert) => if old(store)@.enrolled(pre.serial@)
                    || old(store)@.devices.contains_key(id@) {
                    &&& r matches Err(f) && f@ == ErrorView::AlreadyEnrolled(pre.serial@)
                    &&& final(store)@ == old(store)@
                } else {
                    &&& r matches Ok(result) && {
                        &&& result.device_id@ == id@
                        &&& result.operational_cert_pem@ == cert@
                        &&& result.fleet_ca_chain_pem@ == self.ca_cert()
                        &&& result.expires_at == self.expiry(signed_at)
                    }
                    &&& final(store)@ == old(store)@.with_device(
                        enrolled_device(id@, pre.serial@, pre.model@, firmware@, cert@, now),
                    )
                },
            },
    {
        let cert: String = match signed {
            Ok(c) => c,
            Err(e) => return Err(Error::Pki(e)),
        };
        let expires_at: i64 = signed_at + self.cert_validity_days as i64 * DAY_SECONDS;
        let device = NewDevice {
            serial: pre.serial,
            model: pre.model,
            firmware: firmware.to_owned(),
            operational_cert_pem: cert.clone(),
        };
        match store.create_device_as(device, id, now) {
            Ok(record) => Ok(
                EnrollResult {
                    device_id: record.id,
                    operational_cert_pem: cert,
                    fleet_ca_chain_pem: self.fleet_ca_cert_pem.clone(),
                    expires_at,
                },
            ),
            Err(e) => Err(e),
        }
    }

    /// Enrols the device whose certificate chain is `peer_certs`.
    ///
    /// The serial is claimed before anything is signed, so that it serves once; it stays
    /// claimed where signing fails. Which certificate is issued, and whether signing
    /// succeeds, is left to the authority; the identifier is a matter of chance.
    pub fn bootstrap_enroll(
        &self,
        store: &mut DeviceStore,
        serial_from_req: &str,
        csr_pem: &str,
        firmware: &str,
        peer_certs: &Vec<Vec<u8>>,
        device_ca_pem: &str,
    ) -> (r: Result<EnrollResult, Error>)
        requires
            old(store).wf(),
        ensures
            final(store).wf(),
            ({
                let chain = pki::mtls::der_bytes(peer_certs@);
                let fleet = old(store)@;
                match admission(
                    serial_from_req@,
                    pki::mtls::serial_outcome(chain),
                    pki::mtls::signer_fault(chain, device_ca_pem@),
                ) {
                    Err(fault) => (r matches Err(e) && e@ == fault) && final(store)@ == fleet,
                    Ok(serial) => match fleet.claim_outcome(serial) {
                        Err(fault) => (r matches Err(e) && e@ == fault) && final(store)@ == fleet,
                        Ok(pre) => match r {
                            Ok(result) => {
                                &&& !fleet.enrolled(serial)
                                &&& !fleet.devices.contains_key(result.device_id@)
                                &&& sources::is_uuid_text(result.device_id@)
                                &&& self.issues(result.operational_cert_pem@, csr_pem@)
                                &&& result.fleet_ca_chain_pem@ == self.ca_cert()
                                &&& exists|signed_at: i64|
                                    sources::is_reading(signed_at as int) && result.expires_at
                                        == #[trigger] self.expiry(signed_at)
                                &&& exists|now: i64|
                                    sources::is_reading(now as int) && final(store)@ == fleet.after_claim(serial).with_device(
                                        #[trigger] enrolled_device(
                                            result.device_id@,
                                            serial,
                                            pre.model,
                                            firmware@,
                                            result.operational_cert_pem@,
                                            now,
                                        ),
                                    )
                            },
                            Err(e) => {
                                &&& self.cannot_sign(e@, csr_pem@) || (e@ == ErrorView::AlreadyEnrolled(serial) && (
                                fleet.enrolled(serial) || exists|id: Seq<char>|
                                    sources::is_uuid_text(id)
                                        && #[trigger] fleet.devices.contains_key(id)))
                                &&& final(store)@ == fleet.after_claim(serial)
                            },
                        },
                    },
                }
            }),
            r matches Ok(result) ==> {
                let device = final(store)@.devices[result.device_id@];
                &&& final(store)@.devices.contains_key(result.device_id@)
                &&& device.status == "active"@
                &&& device.firmware == firmware@
                &&& device.operational_cert_pem == result.operational_cert_pem@
                &&& serial_from_req@.len() > 0 ==> device.serial == serial_from_req@
                &&& old(store)@.serials.contains_key(device.serial)
                &&& !old(store)@.serials[device.serial].claimed
                &&& device.model == old(store)@.serials[device.serial].model
                &&& final(store)@.serials[device.serial].claimed
            },
    {
        proof {
            store.lemma_wf();
        }
        let shown: Result<String, pki::error::Error> = extract_serial(peer_certs);
        let checked: Result<(), pki::error::Error> = verify_signed_by(peer_certs, device_ca_pem);
        let serial: String = match check_admission(serial_from_req, shown, checked) {
            Ok(s) => s,
            Err(e) => return Err(e),
        };
        let pre: PreEnrollmentRecord = match store.lookup_and_claim(serial.as_str()) {
            Ok(p) => p,
            Err(e) => return Err(e),
        };
        let signed: Result<String, pki::error::Error> = self.sign(csr_pem);
        let signed_at: i64 = unix_now();
        let id: String = new_uuid();
        let now: i64 = unix_now();
        let ghost fleet = old(store)@;
        proof {
            let claimed = store@;
            assert(fleet.enrolled(serial@) == claimed.enrolled(serial@)) by {
                if fleet.enrolled(serial@) {
                    let d = choose|d: Seq<char>| fleet.is_device(d, serial@);
                    assert(claimed.is_device(d, serial@));
                }
                if claimed.enrolled(serial@) {
                    let d = choose|d: Seq<char>| claimed.is_device(d, serial@);
                    assert(fleet.is_device(d, serial@));
                }
            }
            assert(pre.serial@ == serial@);
        }
        let ghost claimed = store@;
        let ghost said = pre@;
        let r = self.complete_enrollment(store, pre, firmware, signed, signed_at, id, now);
        proof {
            assert(fleet.devices.contains_key(id@) == claimed.devices.contains_key(id@));
            assert(fleet.claim_outcome(serial@)->Ok_0.model == said.model);
            if let Ok(result) = &r {
                assert(store@ == claimed.with_device(
                    enrolled_device(
                        result.device_id@,
                        serial@,
                        fleet.claim_outcome(serial@)->Ok_0.model,
                        firmware@,
                        result.operational_cert_pem@,
                        now,
                    ),
                ));
            }
        }
        r
    }

    /// Ends a renewal: given what came of signing the request at the time `signed_at`.
    pub fn complete_renewal(
        &self,
        signed: Result<String, pki::error::Error>,
        signed_at: i64,
    ) -> (r: Result<(String, i64), Error>)
        requires
            sources::is_reading(signed_at as int),
        ensures
            match signed {
                Ok(cert) => r matches Ok(renewed) && renewed.0@ == cert@ && renewed.1
                    == self.expiry(signed_at),
                Err(e) => r matches Err(f) && f@ == ErrorView::Pki(e@),
            },
    {
        match signed {
            Ok(cert) => Ok((cert, signed_at + self.cert_validity_days as i64 * DAY_SECONDS)),
            Err(e) => Err(Error::Pki(e)),
        }
    }

    /// Issues a new certificate to a device that is active, and to no other.
    pub fn renew_cert(&self, store: &DeviceStore, device_id: &str, csr_pem: &str) -> (r: Result<
        (String, i64),
        Error,
    >)
        requires
            store.wf(),
        ensures
            match store@.device_outcome(device_id@) {
                Err(fault) => r matches Err(e) && e@ == fault,
                Ok(device) => if device.status != "active"@ {
                    r matches Err(e) && e@ == (ErrorView::DeviceNotActive {
                        status: device.status,
                    })
                } else {
                    match r {
                        Ok(renewed) => {
                            &&& self.issues(renewed.0@, csr_pem@)
                            &&& exists|signed_at: i64|
                                sources::is_reading(signed_at as int) && renewed.1
                                    == #[trigger] self.expiry(signed_at)
                        },
                        Err(e) => self.cannot_sign(e@, csr_pem@),
                    }
                },
            },
            r is Ok ==> store@.devices.contains_key(device_id@)
                && store@.devices[device_id@].status == "active"@,
    {
        let device: DeviceRecord = match store.get_device(device_id) {
            Ok(d) => d,
            Err(e) => return Err(e),
        };
        if !same_text(device.status.as_str(), "active") {
            return Err(Error::DeviceNotActive { status: device.status });
        }
        let signed: Result<String, pki::error::Error> = self.sign(csr_pem);
        let signed_at: i64 = unix_now();
        self.complete_renewal(signed, signed_at)
    }
}

/// A device is let in under the serial that its certificate shows, exactly where the request
/// names that serial or none and the factory's authority signed the certificate. Who is turned
/// away is told why: first that the certificate shows no serial, next that the serials differ,
/// last that the signature is not the factory's.
pub proof fn who_is_let_in(
    requested: Seq<char>,
    shown: Result<Seq<char>, pki::error::ErrorView>,
    signer_fault: Option<pki::error::ErrorView>,
)
    ensures
        admission(requested, shown, signer_fault) is Ok <==> {
            &&& signer_fault is None
            &&& shown matches Ok(serial) && (requested.len() == 0 || requested == serial)
        },
        admission(requested, shown, signer_fault) matches Ok(serial) ==> shown == Ok::<
            Seq<char>,
            pki::error::ErrorView,
        >(serial),
        shown matches Err(e) ==> admission(requested, shown, signer_fault) == Err::<
            Seq<char>,
            ErrorView,
        >(ErrorView::Pki(e)),
        shown matches Ok(serial) ==> (requested.len() > 0 && requested != serial ==> admission(
            requested,
            shown,
            signer_fault,
        ) == Err::<Seq<char>, ErrorView>(
            ErrorView::SerialMismatch { cert: serial, request: requested },
        )),
        shown matches Ok(serial) ==> (requested.len() == 0 || requested == serial ==> (
        signer_fault matches Some(e) ==> admission(requested, shown, signer_fault) == Err::<
            Seq<char>,
            ErrorView,
        >(ErrorView::CertVerification(e.message())))),
{
}

/// An enrolled device is recorded with its serial, its model, its firmware and its certificate,
/// each under its own name, active, and as enrolled and seen at the same time.
pub proof fn enrolled_devices_are_active(
    id: Seq<char>,
    serial: Seq<char>,
    model: Seq<char>,
    firmware: Seq<char>,
    cert: Seq<char>,
    now: i64,
)
    ensures
        ({
            let device = enrolled_device(id, serial, model, firmware, cert, now);
            &&& device.id == id
            &&& device.serial == serial
            &&& device.model == model
            &&& device.firmware == firmware
            &&& device.operational_cert_pem == cert
            &&& device.status == "active"@
            &&& device.enrolled_at == now
            &&& device.last_seen_at == now
        }),
{
}

/// A certificate expires the days after it was signed for which it is valid, each of 86400
/// seconds.
pub proof fn certificates_expire_after_their_days(service: EnrollmentService, signed_at: i64)
    ensures
        service.expiry(signed_at) - signed_at == 86400 * service.days(),
{
}

} // verus!
