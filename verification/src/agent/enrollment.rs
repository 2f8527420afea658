//! Enrolment on the robot: a key, a request for a certificate, and what comes of it.

use vstd::prelude::*;

use crate::agent::credentials;
use crate::agent::credentials::{join_path, Files, NewFile};
use crate::agent::error::Error;
use crate::agent::error::ErrorView;
use crate::device::server::{BootstrapEnrollRequest, BootstrapEnrollResponse};
use crate::pki;
use crate::pki::csr::{generate_csr, DeviceKey};

verus! {

/// Manages the robot's enrolment and its operational credentials.
pub struct EnrollmentManager {
    pub cert_dir: String,
    pub device_cert_pem: String,
    pub device_key_pem: String,
    pub device_ca_pem: String,
    pub serial: String,
    pub model: String,
    pub firmware: String,
}

impl EnrollmentManager {
    /// Where the operational certificate is kept.
    pub open spec fn cert_path(&self) -> Seq<char> {
        credentials::path_in(self.cert_dir@, "operational.pem"@)
    }

    /// Where the operational key is kept.
    pub open spec fn key_path(&self) -> Seq<char> {
        credentials::path_in(self.cert_dir@, "operational.key"@)
    }

    /// Where the certificates of the fleet's authority are kept.
    pub open spec fn ca_path(&self) -> Seq<char> {
        credentials::path_in(self.cert_dir@, "fleet-ca-chain.pem"@)
    }

    /// Where the operational certificate is kept.
    pub fn operational_cert_path(&self) -> (r: String)
        ensures
            r@ == self.cert_path(),
            r@ == credentials::path_in(self.cert_dir@, "operational.pem"@),
    {
        join_path(self.cert_dir.as_str(), "operational.pem")
    }

    /// Where the operational key is kept.
    pub fn operational_key_path(&self) -> (r: String)
        ensures
            r@ == self.key_path(),
            r@ == credentials::path_in(self.cert_dir@, "operational.key"@),
    {
        join_path(self.cert_dir.as_str(), "operational.key")
    }

    /// Where the certificates of the fleet's authority are kept.
    pub fn fleet_ca_path(&self) -> (r: String)
        ensures
            r@ == self.ca_path(),
            r@ == credentials::path_in(self.cert_dir@, "fleet-ca-chain.pem"@),
    {
        join_path(self.cert_dir.as_str(), "fleet-ca-chain.pem")
    }

    /// Whether the robot has an operational certificate.
    pub fn is_enrolled(&self, files: &Files) -> (r: bool)
        ensures
            r == credentials::exists_at(*files, self.cert_path()),
            r == credentials::exists_at(
                *files,
                credentials::path_in(self.cert_dir@, "operational.pem"@),
            ),
    {
        let path: String = self.operational_cert_path();
        files.has(path.as_str())
    }

    /// The operational certificate and its key.
    pub fn load_operational_creds(&self, files: &Files) -> (r: Result<(String, String), Error>)
        ensures
            match credentials::read_at(*files, self.cert_path()) {
                Err(fault) => r matches Err(e) && e@ == fault,
                Ok(cert) => match credentials::read_at(*files, self.key_path()) {
                    Err(fault) => r matches Err(e) && e@ == fault,
                    Ok(key) => r matches Ok(creds) && creds.0@ == cert && creds.1@ == key,
                },
            },
    {
        let cert_path: String = self.operational_cert_path();
        let cert: String = match files.read(cert_path.as_str()) {
            Ok(c) => c,
            Err(e) => return Err(e),
        };
        let key_path: String = self.operational_key_path();
        match files.read(key_path.as_str()) {
            Ok(key) => Ok((cert, key)),
            Err(e) => Err(e),
        }
    }

    /// The certificates of the fleet's authority, as they were pinned.
    pub fn fleet_ca_pem(&self, files: &Files) -> (r: Result<String, Error>)
        ensures
            match r {
                Ok(pem) => credentials::read_at(*files, self.ca_path()) == Ok::<
                    Seq<char>,
                    ErrorView,
                >(pem@),
                Err(e) => credentials::read_at(*files, self.ca_path()) == Err::<
                    Seq<char>,
                    ErrorView,
                >(e@),
            },
    {
        let path: String = self.fleet_ca_path();
        files.read(path.as_str())
    }

    /// The request with which the robot enrols, given its certificate request.
    pub fn enroll_request(&self, csr_pem: String) -> (r: BootstrapEnrollRequest)
        ensures
            r.csr_pem@ == csr_pem@,
            r.serial@ == self.serial@,
            r.model@ == self.model@,
            r.firmware@ == self.firmware@,
    {
        BootstrapEnrollRequest {
            csr_pem,
            serial: self.serial.clone(),
            model: self.model.clone(),
            firmware: self.firmware.clone(),
        }
    }

    /// The file that keeps the key of an enrolment. It is written before the request is made,
    /// where only the owner can read it.
    pub fn key_file(&self, key: &DeviceKey) -> (r: NewFile)
        ensures
            r.path@ == self.key_path(),
            r.content@ == key.pem(),
    {
        NewFile { path: self.operational_key_path(), content: key.private_key_pem() }
    }

    /// Asks for a certificate on the robot's serial for `key`.
    pub fn enroll(&self, key: &DeviceKey) -> (r: Result<BootstrapEnrollRequest, Error>)
        ensures
            match r {
                Ok(request) => {
                    &&& pki::csr::requests(request.csr_pem@, self.serial@, key.pem())
                    &&& request.serial@ == self.serial@
                    &&& request.model@ == self.model@
                    &&& request.firmware@ == self.firmware@
                },
                Err(e) => e@ matches ErrorView::Pki(p) && p is Pem,
            },
    {
        match generate_csr(self.serial.as_str(), key) {
            Ok(csr_pem) => Ok(self.enroll_request(csr_pem)),
            Err(e) => Err(Error::Pki(e)),
        }
    }

    /// What to keep of the answer: the operational certificate, and then the certificates of
    /// the fleet's authority.
    pub fn finish_enrollment(&self, response: BootstrapEnrollResponse) -> (r: (NewFile, NewFile))
        ensures
            r.0.path@ == self.cert_path(),
            r.0.content@ == response.operational_cert_pem@,
            r.1.path@ == self.ca_path(),
            r.1.content@ == response.fleet_ca_chain_pem@,
    {
        (
            NewFile {
                path: self.operational_cert_path(),
                content: response.operational_cert_pem,
            },
            NewFile { path: self.fleet_ca_path(), content: response.fleet_ca_chain_pem },
        )
    }
}

/// The certificate, its key and the certificates of the fleet's authority are kept side by
/// side, each in a file of its own.
pub proof fn credentials_are_kept_apart(manager: EnrollmentManager)
    ensures
        manager.cert_path() == credentials::path_in(manager.cert_dir@, "operational.pem"@),
        manager.key_path() == credentials::path_in(manager.cert_dir@, "operational.key"@),
        manager.ca_path() == credentials::path_in(manager.cert_dir@, "fleet-ca-chain.pem"@),
        manager.cert_path() != manager.key_path(),
        manager.cert_path() != manager.ca_path(),
        manager.key_path() != manager.ca_path(),
{
    reveal_strlit("operational.pem");
    reveal_strlit("operational.key");
    reveal_strlit("fleet-ca-chain.pem");
    let (a, b, c) = ("operational.pem"@, "operational.key"@, "fleet-ca-chain.pem"@);
    assert(a[12] == 'p' && b[12] == 'k' && a[0] == 'o' && b[0] == 'o' && c[0] == 'f');
    if manager.cert_path() == manager.key_path() {
        credentials::names_tell_files_apart(manager.cert_dir@, a, b);
    }
    if manager.cert_path() == manager.ca_path() {
        credentials::names_tell_files_apart(manager.cert_dir@, a, c);
    }
    if manager.key_path() == manager.ca_path() {
        credentials::names_tell_files_apart(manager.cert_dir@, b, c);
    }
}

} // verus!
