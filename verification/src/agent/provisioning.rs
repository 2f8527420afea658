//! Provisioning on the robot: a key and the one-time token buy a device certificate.

use vstd::prelude::*;

use crate::agent::credentials;
use crate::agent::credentials::{join_path, NewFile};
use crate::agent::error::Error;
use crate::agent::error::ErrorView;
use crate::device::provisioning::{ProvisionDeviceRequest, ProvisionDeviceResponse};
use crate::pki;
use crate::pki::csr::{generate_csr, DeviceKey};

verus! {

/// The file that keeps the key of a device. It is written before the request is made, where
/// only the owner can read it.
pub fn key_file(cert_dir: &str, key: &DeviceKey) -> (r: NewFile)
    ensures
        r.path@ == credentials::path_in(cert_dir@, "device.key"@),
        r.content@ == key.pem(),
{
    NewFile { path: join_path(cert_dir, "device.key"), content: key.private_key_pem() }
}

/// Asks for a certificate on the serial for `key`, against the one-time token.
pub fn provision(serial: &str, token: &str, key: &DeviceKey) -> (r: Result<
    ProvisionDeviceRequest,
    Error,
>)
    ensures
        match r {
            Ok(request) => {
                &&& pki::csr::requests(request.csr_pem@, serial@, key.pem())
                &&& request.serial@ == serial@
                &&& request.provision_token@ == token@
            },
            Err(e) => e@ matches ErrorView::Pki(p) && p is Pem,
        },
{
    match generate_csr(serial, key) {
        Ok(csr_pem) => Ok(
            ProvisionDeviceRequest {
                serial: serial.to_owned(),
                csr_pem,
                provision_token: token.to_owned(),
            },
        ),
        Err(e) => Err(Error::Pki(e)),
    }
}

/// What to keep of the answer: the device certificate.
pub fn finish_provisioning(cert_dir: &str, response: ProvisionDeviceResponse) -> (r: NewFile)
    ensures
        r.path@ == credentials::path_in(cert_dir@, "device.pem"@),
        r.content@ == response.device_cert_pem@,
{
    NewFile { path: join_path(cert_dir, "device.pem"), content: response.device_cert_pem }
}

} // verus!
