//! The device-management service.

use rcgen::{BasicConstraints, CertificateParams, DnType, IsCa, KeyPair};

use robot_fleet::device::enrollment::{check_admission, EnrollmentService};
use robot_fleet::device::error::Error;
use robot_fleet::device::heartbeat::{
    HeartbeatAction, HeartbeatEvent, HeartbeatHandler, HeartbeatSession,
};
use robot_fleet::device::manifest::{parse_manifest, seed_factory_manifest};
use robot_fleet::device::provisioning;
use robot_fleet::device::provisioning::{ProvisionDeviceRequest, ProvisioningServer};
use robot_fleet::device::server::{
    map_err, BootstrapEnrollRequest, DeviceManagementServer, ListDevicesRequest,
    RenewCertRequest, UpdateDeviceStatusRequest,
};
use robot_fleet::device::store::{
    DeviceRecord, DeviceStore, ManifestRow, NewDevice, PreEnrollmentRecord, SerialRow,
};
use robot_fleet::device::telemetry::TelemetryServer;
use robot_fleet::pki;
use robot_fleet::pki::csr::{generate_csr, generate_key};
use robot_fleet::pki::mtls::certs_from_pem;
use robot_fleet::status::Code;

fn new_device(serial: &str) -> NewDevice {
    NewDevice {
        serial: serial.into(),
        model: "humanoid-v2".into(),
        firmware: "1.0.0".into(),
        operational_cert_pem: "fake-cert".into(),
    }
}

#[test]
fn create_and_get_device() {
    let mut s = DeviceStore::new();
    let rec = s.create_device(new_device("SN-001")).unwrap();
    assert_eq!(rec.serial, "SN-001");
    assert_eq!(rec.status, "active");

    let fetched = s.get_device(&rec.id).unwrap();
    assert_eq!(fetched.serial, "SN-001");
    assert_eq!(fetched.enrolled_at, rec.enrolled_at);
    assert!(rec.enrolled_at > 1_600_000_000);
    assert_eq!(rec.id.len(), 36);
    assert_eq!(rec.id.as_bytes()[14], b'4');
    assert!(b"89ab".contains(&rec.id.as_bytes()[19]));
    assert!(rec.id.bytes().all(|b| b == b'-' || b"0123456789abcdef".contains(&b)));
}

#[test]
fn get_by_serial() {
    let mut s = DeviceStore::new();
    s.create_device(new_device("SN-002")).unwrap();
    let rec = s.get_by_serial("SN-002").unwrap();
    assert_eq!(rec.serial, "SN-002");
    assert!(matches!(s.get_by_serial("SN-X"), Err(Error::NotFound(_))));
}

#[test]
fn create_duplicate_serial_returns_already_enrolled() {
    let mut s = DeviceStore::new();
    s.create_device(new_device("SN-003")).unwrap();
    let err = s.create_device(new_device("SN-003")).unwrap_err();
    assert!(matches!(err, Error::AlreadyEnrolled(_)));
}

#[test]
fn mod_get_not_found() {
    let s = DeviceStore::new();
    let err = s.get_device("no-such-id").unwrap_err();
    assert!(matches!(err, Error::NotFound(_)));
}

#[test]
fn update_status_and_touch_last_seen() {
    let mut s = DeviceStore::new();
    let rec = s.create_device(new_device("SN-004")).unwrap();

    s.update_status(&rec.id, "suspended", "maintenance").unwrap();
    let updated = s.get_device(&rec.id).unwrap();
    assert_eq!(updated.status, "suspended");

    s.touch_last_seen(&rec.id).unwrap();
    let touched = s.get_device(&rec.id).unwrap();
    assert!(touched.last_seen_at >= rec.last_seen_at);

    s.touch_last_seen_at(&rec.id, 77).unwrap();
    assert_eq!(s.get_device(&rec.id).unwrap().last_seen_at, 77);
    assert!(matches!(s.touch_last_seen("ghost"), Err(Error::NotFound(_))));
    assert!(matches!(s.update_status("ghost", "x", ""), Err(Error::NotFound(_))));
}

#[test]
fn list_devices_with_filters() {
    let mut s = DeviceStore::new();
    s.create_device(new_device("SN-010")).unwrap();
    s.create_device(new_device("SN-011")).unwrap();
    s.create_device(NewDevice {
        serial: "SN-012".into(),
        model: "arm-v1".into(),
        firmware: "0.1.0".into(),
        operational_cert_pem: "cert".into(),
    })
    .unwrap();

    let (all, _) = s.list_devices(None, None, 10, None);
    assert_eq!(all.len(), 3);

    let (filtered, _) = s.list_devices(Some("humanoid-v2".into()), None, 10, None);
    assert_eq!(filtered.len(), 2);
    assert_eq!(s.count_devices(), 3);
}

#[test]
fn list_devices_pagination() {
    let mut s = DeviceStore::new();
    for i in 0..5u8 {
        s.create_device(new_device(&format!("SN-PAG-{i:03}"))).unwrap();
    }

    let (page1, cursor) = s.list_devices(None, None, 3, None);
    assert_eq!(page1.len(), 3);
    assert!(cursor.is_some());

    let (page2, cursor2) = s.list_devices(None, None, 3, cursor);
    assert_eq!(page2.len(), 2);
    assert!(cursor2.is_none());

    let mut ids: Vec<String> = page1.iter().chain(page2.iter()).map(|d| d.id.clone()).collect();
    let seen = ids.clone();
    ids.sort();
    ids.dedup();
    assert_eq!(ids, seen);
}

fn ids(list: &[DeviceRecord]) -> Vec<String> {
    list.iter().map(|d| d.id.clone()).collect()
}

fn lettered() -> DeviceStore {
    let mut s = DeviceStore::new();
    for id in ["c", "a", "B", "ä", "ab"] {
        s.create_device_as(new_device(&format!("SN-{id}")), id.into(), 5).unwrap();
    }
    s
}

#[test]
fn devices_are_listed_by_code_points() {
    let s = lettered();
    let (all, next) = s.list_devices(None, None, 5, None);
    assert_eq!(ids(&all), vec!["B", "a", "ab", "c", "ä"]);
    assert_eq!(next, None);
}

#[test]
fn odd_limits_of_device_pages() {
    let s = lettered();
    let (none, next) = s.list_devices(None, None, 0, None);
    assert_eq!((none.len(), next), (0, None));
    let (none, next) = s.list_devices(None, None, -1, None);
    assert_eq!((none.len(), next), (0, None));
    let (most, next) = s.list_devices(None, None, -7, None);
    assert_eq!(ids(&most), vec!["B", "a", "ab", "c"]);
    assert_eq!(next.as_deref(), Some("c"));
    let (two, next) = s.list_devices(None, Some("active".into()), 2, Some("a".into()));
    assert_eq!(ids(&two), vec!["ab", "c"]);
    assert_eq!(next.as_deref(), Some("c"));
    let (none, _) = s.list_devices(None, Some("retired".into()), 2, None);
    assert_eq!(none.len(), 0);
}

#[test]
fn identifiers_of_devices_are_not_used_twice() {
    let mut s = lettered();
    let err = s.create_device_as(new_device("SN-NEW"), "a".into(), 5).unwrap_err();
    assert!(matches!(err, Error::AlreadyEnrolled(serial) if serial == "SN-NEW"));
}

#[test]
fn register_and_claim_serial() {
    let mut s = DeviceStore::new();
    s.register_serial("SN-100", "humanoid-v2");
    let rec = s.lookup_and_claim("SN-100").unwrap();
    assert_eq!(rec.serial, "SN-100");
    assert_eq!(rec.model, "humanoid-v2");
}

#[test]
fn claim_unknown_serial_returns_not_pre_enrolled() {
    let mut s = DeviceStore::new();
    let err = s.lookup_and_claim("SN-GHOST").unwrap_err();
    assert!(matches!(err, Error::NotPreEnrolled(_)));
}

#[test]
fn claim_already_claimed_serial_returns_error() {
    let mut s = DeviceStore::new();
    s.register_serial("SN-200", "humanoid-v2");
    s.lookup_and_claim("SN-200").unwrap();
    let err = s.lookup_and_claim("SN-200").unwrap_err();
    assert!(matches!(err, Error::SerialAlreadyClaimed(_)));
}

#[test]
fn concurrent_claim_only_one_succeeds() {
    let mut s = DeviceStore::new();
    s.register_serial("SN-RACE", "humanoid-v2");
    let results = [s.lookup_and_claim("SN-RACE"), s.lookup_and_claim("SN-RACE")];
    let successes = results.iter().filter(|r| r.is_ok()).count();
    let failures = results.iter().filter(|r| r.is_err()).count();
    assert_eq!(successes, 1, "exactly one claim must succeed");
    assert_eq!(failures, 1, "exactly one claim must fail");
}

#[test]
fn registering_gives_back_a_claim_that_led_nowhere() {
    let mut s = DeviceStore::new();
    s.register_serial("SN-1", "first-model");
    s.lookup_and_claim("SN-1").unwrap();
    s.register_serial("SN-1", "second-model");
    assert_eq!(s.lookup_and_claim("SN-1").unwrap().model, "first-model");
}

#[test]
fn registering_does_not_reopen_an_enrolled_serial() {
    let mut s = DeviceStore::new();
    s.register_serial("SN-1", "m");
    s.lookup_and_claim("SN-1").unwrap();
    s.create_device(new_device("SN-1")).unwrap();
    s.register_serial("SN-1", "m");
    assert!(matches!(s.lookup_and_claim("SN-1"), Err(Error::SerialAlreadyClaimed(_))));
}

#[test]
fn serials_do_not_get_in_each_others_way() {
    let mut s = DeviceStore::new();
    s.register_serial("SN-1", "one");
    s.register_serial("SN-2", "two");
    s.seed_manifest("SN-3", "three", "t3");
    s.lookup_and_claim("SN-1").unwrap();
    s.claim_manifest_entry("SN-3", "t3").unwrap();
    assert_eq!(s.lookup_and_claim("SN-2").unwrap().model, "two");
    assert_eq!(s.lookup_and_claim("SN-3").unwrap().model, "three");
}

#[test]
fn a_suspended_device_stays_suspended() {
    let a = authorities();
    let mut s = DeviceStore::new();
    s.create_device_as(new_device("SN-1"), "dev-1".into(), 1).unwrap();
    s.create_device_as(new_device("SN-2"), "dev-2".into(), 1).unwrap();
    s.update_status("dev-1", "suspended", "").unwrap();
    s.touch_last_seen("dev-1").unwrap();
    s.update_status("dev-2", "active", "").unwrap();
    s.register_serial("SN-1", "m");
    assert_eq!(s.get_device("dev-1").unwrap().status, "suspended");
    let renewed = service(&a).renew_cert(&s, "dev-1", &make_csr("d"));
    assert!(matches!(renewed, Err(Error::DeviceNotActive { .. })));
    s.update_status("dev-1", "active", "").unwrap();
    assert!(service(&a).renew_cert(&s, "dev-1", &make_csr("d")).is_ok());
}

#[test]
fn what_was_done_to_the_records_can_be_loaded_again() {
    let mut s = lettered();
    s.seed_manifest("SN-9", "m", "t");
    s.claim_manifest_entry("SN-9", "t").unwrap();
    s.lookup_and_claim("SN-9").unwrap();
    s.create_device(new_device("SN-9")).unwrap();
    let copy = |m: &ManifestRow| ManifestRow {
        serial: m.serial.clone(),
        model: m.model.clone(),
        token: m.token.clone(),
        provisioned_at: m.provisioned_at,
    };
    let manifest = s.manifest_rows().iter().map(copy).collect();
    let serials = s
        .serial_rows()
        .iter()
        .map(|r| SerialRow {
            serial: r.serial.clone(),
            model: r.model.clone(),
            claimed: r.claimed,
        })
        .collect();
    let mut again = DeviceStore::load(manifest, serials, s.device_rows().clone()).unwrap();
    assert_eq!(again.count_devices(), 6);
    assert!(matches!(again.lookup_and_claim("SN-9"), Err(Error::SerialAlreadyClaimed(_))));
    assert!(matches!(
        again.claim_manifest_entry("SN-9", "t"),
        Err(Error::AlreadyProvisioned(_))
    ));
}

#[test]
fn tokens_serve_once() {
    let mut s = DeviceStore::new();
    s.seed_manifest("SN-1", "walker", "secret");
    s.seed_manifest("SN-1", "other", "other-secret");
    assert!(matches!(s.claim_manifest_entry("SN-2", "secret"), Err(Error::NotInManifest(_))));
    assert!(matches!(
        s.claim_manifest_entry("SN-1", "wrong"),
        Err(Error::InvalidProvisionToken(_))
    ));
    assert_eq!(s.claim_manifest_entry_at("SN-1", "secret", 42).unwrap(), "walker");
    assert_eq!(s.manifest_rows()[0].provisioned_at, Some(42));
    assert!(matches!(
        s.claim_manifest_entry("SN-1", "secret"),
        Err(Error::AlreadyProvisioned(_))
    ));
    assert!(matches!(
        s.claim_manifest_entry("SN-1", "wrong"),
        Err(Error::InvalidProvisionToken(_))
    ));
    assert_eq!(s.lookup_and_claim("SN-1").unwrap().model, "walker");
}

#[test]
fn provisioning_keeps_an_earlier_registration() {
    let mut s = DeviceStore::new();
    s.register_serial("SN-1", "by-hand");
    s.seed_manifest("SN-1", "walker", "secret");
    s.claim_manifest_entry("SN-1", "secret").unwrap();
    assert_eq!(s.lookup_and_claim("SN-1").unwrap().model, "by-hand");
}

#[test]
fn tables_are_loaded_where_nothing_stands_twice() {
    let serial = |s: &str| SerialRow { serial: s.into(), model: "m".into(), claimed: true };
    let entry = |s: &str| ManifestRow {
        serial: s.into(),
        model: "m".into(),
        token: "t".into(),
        provisioned_at: None,
    };
    let rows = lettered().device_rows().clone();
    let loaded =
        DeviceStore::load(vec![entry("x")], vec![serial("x"), serial("y")], rows.clone()).unwrap();
    assert_eq!(loaded.count_devices(), 5);
    assert_eq!(loaded.serial_rows().len(), 2);
    assert!(DeviceStore::load(vec![entry("x"), entry("x")], vec![], vec![]).is_none());
    assert!(DeviceStore::load(vec![], vec![serial("x"), serial("x")], vec![]).is_none());
    let mut same_id = rows.clone();
    same_id[1].id = same_id[0].id.clone();
    assert!(DeviceStore::load(vec![], vec![], same_id).is_none());
    let mut same_serial = rows.clone();
    same_serial[1].serial = same_serial[0].serial.clone();
    assert!(DeviceStore::load(vec![], vec![], same_serial).is_none());
}

#[test]
fn manifests_are_taken_apart() {
    let m = parse_manifest(" a:t1:Walker , b:t2 ,, lonely , c:t3:x:y,");
    let entries: Vec<(String, String, String)> =
        m.entries.into_iter().map(|e| (e.serial, e.token, e.model)).collect();
    let expected = [("a", "t1", "Walker"), ("b", "t2", "Alpha Wheeled"), ("c", "t3", "x:y")];
    assert_eq!(entries.len(), 3);
    for (entry, (serial, token, model)) in entries.iter().zip(expected) {
        assert_eq!((entry.0.as_str(), entry.1.as_str(), entry.2.as_str()), (serial, token, model));
    }
    assert_eq!(m.faults, vec!["lonely"]);
    assert!(parse_manifest("").entries.is_empty());
}

#[test]
fn the_first_manifest_entry_counts() {
    let mut s = DeviceStore::new();
    assert_eq!(seed_factory_manifest(&mut s, "a:one:A,b:two,a:three:C"), 3);
    assert_eq!(s.manifest_rows().len(), 2);
    assert_eq!(s.claim_manifest_entry("a", "one").unwrap(), "A");
    assert_eq!(s.claim_manifest_entry("b", "two").unwrap(), "Alpha Wheeled");
}

fn make_ca(name: &str) -> (rcgen::Certificate, KeyPair) {
    let key = KeyPair::generate().unwrap();
    let mut params = CertificateParams::new(vec![]).unwrap();
    params.is_ca = IsCa::Ca(BasicConstraints::Unconstrained);
    params.distinguished_name.push(DnType::CommonName, name);
    let cert = params.self_signed(&key).unwrap();
    (cert, key)
}

fn make_leaf(serial: &str, ca_cert: &rcgen::Certificate, ca_key: &KeyPair) -> Vec<Vec<u8>> {
    let key = KeyPair::generate().unwrap();
    let mut params = CertificateParams::new(vec![serial.to_string()]).unwrap();
    params.distinguished_name.push(DnType::CommonName, serial);
    let cert = params.signed_by(&key, ca_cert, ca_key).unwrap();
    certs_from_pem(&cert.pem()).unwrap()
}

fn make_csr(name: &str) -> String {
    let key = KeyPair::generate().unwrap();
    let params = CertificateParams::new(vec![name.to_string()]).unwrap();
    params.serialize_request(&key).unwrap().pem().unwrap()
}

struct Authorities {
    device_ca: rcgen::Certificate,
    device_key: KeyPair,
    fleet_ca: rcgen::Certificate,
    fleet_key: KeyPair,
}

fn authorities() -> Authorities {
    let (device_ca, device_key) = make_ca("Device CA");
    let (fleet_ca, fleet_key) = make_ca("Fleet CA");
    Authorities { device_ca, device_key, fleet_ca, fleet_key }
}

fn service(a: &Authorities) -> EnrollmentService {
    EnrollmentService::new(a.fleet_ca.pem(), a.fleet_key.serialize_pem(), 30)
}

#[test]
fn bootstrap_enroll_success() {
    let serial = "SN-ENROLL-001";
    let a = authorities();
    let certs = make_leaf(serial, &a.device_ca, &a.device_key);
    let mut store = DeviceStore::new();
    store.register_serial(serial, "humanoid-v2");

    let result = service(&a)
        .bootstrap_enroll(&mut store, "", &make_csr("test-device"), "1.0.0", &certs, &a.device_ca.pem())
        .unwrap();
    assert!(result.operational_cert_pem.contains("CERTIFICATE"));
    let record = store.get_device(&result.device_id).unwrap();
    assert_eq!(record.serial, serial);
    assert_eq!(record.model, "humanoid-v2");
    assert_eq!(record.firmware, "1.0.0");
    assert_eq!(record.operational_cert_pem, result.operational_cert_pem);
    assert_eq!(result.fleet_ca_chain_pem, a.fleet_ca.pem());
    let left = result.expires_at - record.enrolled_at;
    assert!((left - 30 * 86_400).abs() <= 60);
}

#[test]
fn an_enrolment_ends_as_the_signing_does() {
    let a = authorities();
    let svc = service(&a);
    let mut store = DeviceStore::new();
    let pre = || PreEnrollmentRecord { serial: "SN-1".into(), model: "humanoid-v2".into() };
    let failed = svc.complete_enrollment(
        &mut store, pre(), "1.0.0", Err(pki::error::Error::Pem("odd".into())), 100, "dev-uuid-1".into(), 101,
    );
    assert_eq!(failed.unwrap_err().message(), "PKI error: PEM parse error: odd");
    let done = svc
        .complete_enrollment(
            &mut store, pre(), "1.0.0", Ok("CERTIFICATE".into()), 100, "dev-uuid-1".into(), 101,
        )
        .unwrap();
    assert_eq!(done.device_id, "dev-uuid-1");
    assert_eq!(done.expires_at, 100 + 30 * 86_400);
    assert_eq!(store.get_device("dev-uuid-1").unwrap().enrolled_at, 101);
    let again = svc.complete_enrollment(
        &mut store, pre(), "1.0.0", Ok("CERTIFICATE".into()), 100, "dev-uuid-2".into(), 101,
    );
    assert!(matches!(again, Err(Error::AlreadyEnrolled(_))));
}

#[test]
fn bootstrap_enroll_serial_mismatch_rejected() {
    let a = authorities();
    let certs = make_leaf("SN-REAL", &a.device_ca, &a.device_key);
    let mut store = DeviceStore::new();
    let err = service(&a)
        .bootstrap_enroll(&mut store, "SN-WRONG", &make_csr("d"), "1.0.0", &certs, &a.device_ca.pem())
        .unwrap_err();
    assert!(matches!(err, Error::SerialMismatch { .. }));
    assert_eq!(err.message(), "serial mismatch: cert=SN-REAL request=SN-WRONG");
}

#[test]
fn bootstrap_enroll_wrong_ca_rejected() {
    let a = authorities();
    let certs = make_leaf("SN-WRONGCA", &a.device_ca, &a.device_key);
    let (wrong_ca, _) = make_ca("Wrong CA");
    let mut store = DeviceStore::new();
    store.register_serial("SN-WRONGCA", "m");
    let err = service(&a)
        .bootstrap_enroll(&mut store, "", &make_csr("d"), "1.0.0", &certs, &wrong_ca.pem())
        .unwrap_err();
    assert!(matches!(err, Error::CertVerification(_)));
    assert!(store.lookup_and_claim("SN-WRONGCA").is_ok());
}

#[test]
fn a_serial_stays_claimed_when_signing_fails() {
    let a = authorities();
    let certs = make_leaf("SN-1", &a.device_ca, &a.device_key);
    let mut store = DeviceStore::new();
    store.register_serial("SN-1", "m");
    let err = service(&a)
        .bootstrap_enroll(&mut store, "SN-1", "no csr", "1.0.0", &certs, &a.device_ca.pem())
        .unwrap_err();
    assert!(matches!(err, Error::Pki(_)));
    assert!(matches!(store.lookup_and_claim("SN-1"), Err(Error::SerialAlreadyClaimed(_))));
    assert_eq!(store.count_devices(), 0);
}

#[test]
fn who_was_provisioned_can_enrol() {
    let a = authorities();
    let factory = ProvisioningServer::new(a.device_ca.pem(), a.device_key.serialize_pem());
    let mut store = DeviceStore::new();
    seed_factory_manifest(&mut store, "SN-1:TOKEN-1:humanoid-v2");
    let response = factory
        .provision_device(
            &mut store,
            &ProvisionDeviceRequest {
                serial: "SN-1".into(),
                csr_pem: generate_csr("SN-1", &generate_key().unwrap()).unwrap(),
                provision_token: "TOKEN-1".into(),
            },
        )
        .unwrap();
    let certs = certs_from_pem(&response.device_cert_pem).unwrap();
    assert_eq!(certs.len(), 1);
    let result = service(&a)
        .bootstrap_enroll(&mut store, "", &make_csr("SN-1"), "1.0.0", &certs, &a.device_ca.pem())
        .unwrap();
    assert_eq!(store.get_device(&result.device_id).unwrap().serial, "SN-1");
}

#[test]
fn a_certificate_beyond_the_calendar_is_refused() {
    let a = authorities();
    let far = EnrollmentService::new(a.fleet_ca.pem(), a.fleet_key.serialize_pem(), u32::MAX);
    let mut store = DeviceStore::new();
    store.create_device_as(new_device("SN-X"), "dev-id".into(), 0).unwrap();
    let err = far.renew_cert(&store, "dev-id", &make_csr("d")).unwrap_err();
    assert!(matches!(err, Error::Pki(pki::error::Error::Validity)));
    let err = far.renew_cert(&store, "dev-id", "no csr").unwrap_err();
    assert!(matches!(err, Error::Pki(pki::error::Error::Pem(_))));
}

#[test]
fn admission_needs_one_serial_and_the_right_signer() {
    let ok = || -> Result<String, pki::error::Error> { Ok("SN-1".into()) };
    assert_eq!(check_admission("", ok(), Ok(())).unwrap(), "SN-1");
    assert_eq!(check_admission("SN-1", ok(), Ok(())).unwrap(), "SN-1");
    assert!(matches!(check_admission("SN-2", ok(), Ok(())), Err(Error::SerialMismatch { .. })));
    let unsigned = Err(pki::error::Error::CertVerification("bad".into()));
    match check_admission("", ok(), unsigned) {
        Err(Error::CertVerification(m)) => {
            assert_eq!(m, "device cert verification failed: bad")
        }
        other => panic!("{other:?}"),
    }
    let shown = Err(pki::error::Error::NoPeerCert);
    assert!(matches!(check_admission("", shown, Ok(())), Err(Error::Pki(_))));
}

#[test]
fn renew_cert_inactive_device_rejected() {
    let a = authorities();
    let mut store = DeviceStore::new();
    store.create_device_as(new_device("SN-X"), "dev-id".into(), 0).unwrap();
    store.update_status("dev-id", "suspended", "").unwrap();
    let err = service(&a).renew_cert(&store, "dev-id", &make_csr("d")).unwrap_err();
    assert!(matches!(err, Error::DeviceNotActive { .. }));
    assert_eq!(err.message(), "device is suspended, cannot renew cert");
    assert!(matches!(
        service(&a).renew_cert(&store, "ghost", &make_csr("d")),
        Err(Error::NotFound(_))
    ));
}

#[test]
fn a_renewal_ends_as_the_signing_does() {
    let a = authorities();
    let (cert, expires) = service(&a).complete_renewal(Ok("c".into()), 10).unwrap();
    assert_eq!((cert.as_str(), expires), ("c", 10 + 30 * 86_400));
    assert!(service(&a).complete_renewal(Err(pki::error::Error::Validity), 10).is_err());
}

fn server(a: &Authorities) -> DeviceManagementServer {
    DeviceManagementServer::new(
        a.fleet_ca.pem(),
        a.fleet_key.serialize_pem(),
        a.device_ca.pem(),
        30,
    )
}

fn enroll_request(serial: &str) -> BootstrapEnrollRequest {
    BootstrapEnrollRequest {
        csr_pem: make_csr(serial),
        serial: serial.into(),
        model: "humanoid-v2".into(),
        firmware: "1.0.0".into(),
    }
}

#[test]
fn bootstrap_enroll_full_flow() {
    let a = authorities();
    let serial = "SN-INT-001";
    let mut store = DeviceStore::new();
    store.register_serial(serial, "humanoid-v2");
    let certs = make_leaf(serial, &a.device_ca, &a.device_key);
    let resp =
        server(&a).bootstrap_enroll(&mut store, Some(certs), &enroll_request(serial)).unwrap();
    assert!(!resp.device_id.is_empty());
    assert!(resp.operational_cert_pem.contains("CERTIFICATE"));
    assert!(resp.fleet_ca_chain_pem.contains("CERTIFICATE"));
    assert_eq!(resp.cert_expires_at.nanos, 0);
}

#[test]
fn bootstrap_enroll_replay_rejected() {
    let a = authorities();
    let serial = "SN-INT-REPLAY";
    let mut store = DeviceStore::new();
    store.register_serial(serial, "humanoid-v2");
    let certs = make_leaf(serial, &a.device_ca, &a.device_key);
    server(&a).bootstrap_enroll(&mut store, Some(certs.clone()), &enroll_request(serial)).unwrap();
    let err =
        server(&a).bootstrap_enroll(&mut store, Some(certs), &enroll_request(serial)).unwrap_err();
    assert_eq!(err.code, Code::AlreadyExists, "replay must be rejected");
}

#[test]
fn concurrent_bootstrap_enroll_only_one_wins() {
    let a = authorities();
    let serial = "SN-INT-RACE";
    let mut store = DeviceStore::new();
    store.register_serial(serial, "humanoid-v2");
    let certs = make_leaf(serial, &a.device_ca, &a.device_key);
    let mut successes = 0;
    for _ in 0..2 {
        let r = server(&a).bootstrap_enroll(&mut store, Some(certs.clone()), &enroll_request(serial));
        if r.is_ok() {
            successes += 1;
        }
    }
    assert_eq!(successes, 1, "exactly one concurrent enrollment must succeed");
}

#[test]
fn who_shows_no_certificate_is_turned_away() {
    let a = authorities();
    let mut store = DeviceStore::new();
    let err = server(&a).bootstrap_enroll(&mut store, None, &enroll_request("SN-1")).unwrap_err();
    assert_eq!((err.code, err.message.as_str()), (Code::Unauthenticated, "no peer certificate"));
    let certs = make_leaf("SN-1", &a.device_ca, &a.device_key);
    let err =
        server(&a).bootstrap_enroll(&mut store, Some(certs), &enroll_request("SN-1")).unwrap_err();
    assert_eq!((err.code, err.message.as_str()), (Code::FailedPrecondition, "SN-1"));
}

#[test]
fn get_device_after_enroll() {
    let a = authorities();
    let serial = "SN-INT-GET";
    let mut store = DeviceStore::new();
    store.register_serial(serial, "humanoid-v2");
    let certs = make_leaf(serial, &a.device_ca, &a.device_key);
    let enrolled =
        server(&a).bootstrap_enroll(&mut store, Some(certs), &enroll_request(serial)).unwrap();
    let device = server(&a).get_device(&store, &enrolled.device_id).unwrap();
    assert_eq!(device.device_id, enrolled.device_id);
    assert_eq!(device.serial, serial);
    assert_eq!(device.status, "active");
}

#[test]
fn get_device_returns_device_info() {
    let a = authorities();
    let mut store = DeviceStore::new();
    store.create_device_as(new_device("SN-TEST"), "dev-abc".into(), 7).unwrap();
    let resp = server(&a).get_device(&store, "dev-abc").unwrap();
    assert_eq!(resp.device_id, "dev-abc");
    assert_eq!(resp.status, "active");
    assert_eq!((resp.enrolled_at.seconds, resp.last_seen_at.seconds), (7, 7));
}

#[test]
fn get_device_not_found_returns_not_found_status() {
    let a = authorities();
    let err = server(&a).get_device(&DeviceStore::new(), "ghost").unwrap_err();
    assert_eq!(err.code, Code::NotFound);
    assert_eq!(err.message, "ghost");
}

#[test]
fn update_device_status_returns_updated_device() {
    let a = authorities();
    let mut store = DeviceStore::new();
    store.create_device_as(new_device("SN-TEST"), "dev-1".into(), 7).unwrap();
    let req = |id: &str| UpdateDeviceStatusRequest {
        device_id: id.into(),
        status: "suspended".into(),
        reason: "maintenance".into(),
    };
    let device = server(&a).update_device_status(&mut store, &req("dev-1")).unwrap();
    assert_eq!(device.status, "suspended");
    let err = server(&a).update_device_status(&mut store, &req("dev-2")).unwrap_err();
    assert_eq!(err.code, Code::NotFound);
}

fn list_request(model: &str, status: &str, limit: i32, cursor: &str) -> ListDevicesRequest {
    ListDevicesRequest {
        model: model.into(),
        status: status.into(),
        limit,
        cursor: cursor.into(),
    }
}

#[test]
fn list_devices_returns_records() {
    let a = authorities();
    let mut store = DeviceStore::new();
    store.create_device_as(new_device("SN-1"), "d1".into(), 0).unwrap();
    store.create_device_as(new_device("SN-2"), "d2".into(), 0).unwrap();
    let resp = server(&a).list_devices(&store, list_request("", "", 10, ""));
    assert_eq!(resp.devices.len(), 2);
    assert_eq!(resp.next_cursor, "");
    let first = server(&a).list_devices(&store, list_request("", "", 1, ""));
    assert_eq!(first.next_cursor, "d1");
    let second = server(&a).list_devices(&store, list_request("", "", 1, "d1"));
    assert_eq!(second.devices[0].device_id, "d2");
}

#[test]
fn device_pages_hold_fifty_by_default() {
    let a = authorities();
    let mut store = DeviceStore::new();
    for i in 100..160 {
        store.create_device_as(new_device(&format!("SN-{i}")), format!("d{i}"), 0).unwrap();
    }
    let resp = server(&a).list_devices(&store, list_request("", "", 0, ""));
    assert_eq!((resp.devices.len(), resp.next_cursor.as_str()), (50, "d149"));
    assert_eq!(server(&a).list_devices(&store, list_request("", "", -1, "")).devices.len(), 50);
}

#[test]
fn update_status_and_list_devices() {
    let a = authorities();
    let mut store = DeviceStore::new();
    let mut enrolled_ids = vec![];
    for i in 0..3u8 {
        let serial = format!("SN-LIST-{i:03}");
        store.register_serial(&serial, "humanoid-v2");
        let certs = make_leaf(&serial, &a.device_ca, &a.device_key);
        let resp =
            server(&a).bootstrap_enroll(&mut store, Some(certs), &enroll_request(&serial)).unwrap();
        enrolled_ids.push(resp.device_id);
    }
    let req = UpdateDeviceStatusRequest {
        device_id: enrolled_ids[0].clone(),
        status: "suspended".into(),
        reason: "test".into(),
    };
    server(&a).update_device_status(&mut store, &req).unwrap();
    let all = server(&a).list_devices(&store, list_request("humanoid-v2", "", 10, ""));
    assert_eq!(all.devices.len(), 3);
    let active_only = server(&a).list_devices(&store, list_request("", "active", 10, ""));
    assert_eq!(active_only.devices.len(), 2);
}

#[test]
fn renew_cert_after_enroll() {
    let a = authorities();
    let serial = "SN-INT-RENEW";
    let mut store = DeviceStore::new();
    store.register_serial(serial, "humanoid-v2");
    let certs = make_leaf(serial, &a.device_ca, &a.device_key);
    let enrolled =
        server(&a).bootstrap_enroll(&mut store, Some(certs), &enroll_request(serial)).unwrap();
    let req = RenewCertRequest { device_id: enrolled.device_id, csr_pem: make_csr(serial) };
    let renewed = server(&a).renew_cert(&store, &req).unwrap();
    assert!(renewed.operational_cert_pem.contains("CERTIFICATE"));
    assert_ne!(renewed.operational_cert_pem, enrolled.operational_cert_pem);
}

#[test]
fn heartbeat_touch_last_seen_called_per_message() {
    let mut store = DeviceStore::new();
    store.create_device_as(new_device("SN-1"), "dev-1".into(), 5).unwrap();
    let messages = vec![Ok("dev-1".to_string()), Ok("dev-1".to_string()), Ok("dev-1".to_string())];
    let responses = HeartbeatHandler::new().handle(&mut store, &messages);
    assert_eq!(responses.len(), 3);
    assert!(responses.iter().all(|r| r.is_ok()));
    assert!(store.get_device("dev-1").unwrap().last_seen_at > 5);

    let mut session = HeartbeatSession::new();
    let mut touches = 0;
    for device_id in ["dev-1", "dev-2", "dev-3"] {
        match session.receive(HeartbeatEvent::Message { device_id: device_id.into() }) {
            HeartbeatAction::Touch { device_id } => assert_eq!(device_id, "dev-1"),
            other => panic!("{other:?}"),
        }
        touches += 1;
        assert!(session.touched(&Ok(())).is_ok());
    }
    assert_eq!(touches, 3);
    assert!(matches!(session.receive(HeartbeatEvent::Ended), HeartbeatAction::Close));
}

#[test]
fn a_device_was_last_seen_with_its_last_message() {
    let seen = |messages: &[Result<&str, &str>]| {
        let mut store = DeviceStore::new();
        store.create_device_as(new_device("SN-1"), "dev-1".into(), 5).unwrap();
        let messages: Vec<Result<String, String>> = messages
            .iter()
            .map(|m| m.map(|id| id.to_string()).map_err(|e| e.to_string()))
            .collect();
        let times = vec![10, 20, 30, 40];
        let replies = HeartbeatHandler::new().handle_at(&mut store, &messages, &times);
        (replies.len(), store.get_device("dev-1").unwrap().last_seen_at)
    };
    assert_eq!(seen(&[Ok("dev-1"), Ok("dev-1"), Ok("dev-1")]), (3, 30));
    assert_eq!(seen(&[Ok("dev-1"), Ok("dev-2"), Err("cut"), Ok("dev-1")]), (2, 20));
    assert_eq!(seen(&[Ok("dev-1")]), (1, 10));
    assert_eq!(seen(&[Err("cut"), Ok("dev-1")]), (1, 5));
    assert_eq!(seen(&[Ok("dev-2"), Ok("dev-1")]), (1, 5));
    assert_eq!(seen(&[]), (0, 5));
}

#[test]
fn heartbeat_not_found_closes_stream_with_error() {
    let mut store = DeviceStore::new();
    let responses =
        HeartbeatHandler::new().handle(&mut store, &vec![Ok("dev-1".into()), Ok("dev-1".into())]);
    assert_eq!(responses.len(), 1);
    let err = responses[0].as_ref().unwrap_err();
    assert_eq!(err.code, Code::NotFound);
    assert_eq!(err.message, "device dev-1 not found");
}

#[test]
fn stream_heartbeat_updates_last_seen() {
    let a = authorities();
    let serial = "SN-INT-HB";
    let mut store = DeviceStore::new();
    store.register_serial(serial, "humanoid-v2");
    let certs = make_leaf(serial, &a.device_ca, &a.device_key);
    let enrolled =
        server(&a).bootstrap_enroll(&mut store, Some(certs), &enroll_request(serial)).unwrap();
    let id = enrolled.device_id;
    let last_seen_before = store.get_device(&id).unwrap().last_seen_at;
    let pings = vec![Ok(id.clone()), Ok(id.clone()), Ok(id.clone())];
    let count = HeartbeatHandler::new().handle(&mut store, &pings).len();
    assert_eq!(count, 3);
    let last_seen_after = store.get_device(&id).unwrap().last_seen_at;
    assert!(
        last_seen_after >= last_seen_before,
        "last_seen_at must be updated by heartbeats"
    );
}

#[test]
fn stream_heartbeat_unknown_device_returns_not_found() {
    let mut store = DeviceStore::new();
    store.create_device_as(new_device("SN-INT-HB-GHOST-AUTH"), "dev-1".into(), 5).unwrap();
    let replies = HeartbeatHandler::new().handle(&mut store, &vec![Ok("ghost-device-id".into())]);
    assert_eq!(replies[0].as_ref().unwrap_err().code, Code::NotFound);
}

#[test]
fn the_first_message_names_the_device() {
    let mut store = DeviceStore::new();
    store.create_device_as(new_device("SN-1"), "dev-1".into(), 5).unwrap();
    store.create_device_as(new_device("SN-2"), "dev-2".into(), 5).unwrap();
    let messages = vec![Ok("dev-1".into()), Ok("dev-2".into()), Err("cut".into()), Ok("dev-1".into())];
    let replies = HeartbeatHandler::new().handle(&mut store, &messages);
    assert_eq!(replies.len(), 2);
    assert!(replies.iter().all(|r| matches!(r, Ok(h) if !h.throttle && h.directive.is_empty())));
    assert_eq!(store.get_device("dev-2").unwrap().last_seen_at, 5);
}

#[test]
fn a_stream_that_starts_with_an_error_gets_it_back() {
    let mut store = DeviceStore::new();
    let replies = HeartbeatHandler::new().handle(&mut store, &vec![Err("cut".into())]);
    assert_eq!(replies.len(), 1);
    let err = replies[0].as_ref().unwrap_err();
    assert_eq!((err.code, err.message.as_str()), (Code::Internal, "cut"));
    assert!(HeartbeatHandler::new().handle(&mut store, &vec![]).is_empty());
}

#[test]
fn a_session_goes_on_when_the_database_fails() {
    let mut session = HeartbeatSession::new();
    let action = session.receive(HeartbeatEvent::Message { device_id: "dev-1".into() });
    assert!(matches!(action, HeartbeatAction::Touch { device_id } if device_id == "dev-1"));
    assert!(session.touched(&Err(Error::Db("locked".into()))).is_ok());
    assert!(session.is_open());
    session.undelivered();
    assert!(!session.is_open());
    let mut session = HeartbeatSession::new();
    assert!(matches!(session.receive(HeartbeatEvent::Ended), HeartbeatAction::Close));
    assert!(!session.is_open());
}

#[test]
fn frames_are_counted_and_reported() {
    let mut session = TelemetryServer.open_stream();
    assert!(session.ended().is_none());
    for i in 1..=12u64 {
        let (ack, report) = session.frame("dev-1", 4);
        assert_eq!((ack.frames_received, ack.throttle), (i, false));
        assert!(report.is_none());
    }
    let (ack, report) = session.frame("dev-1", 5);
    assert_eq!(ack.frames_received, 13);
    let report = report.unwrap();
    assert_eq!((report.frames_in_window, report.frames_total, report.fps), (13, 13, 2));
    assert_eq!(report.device_id, "dev-1");
    assert!(session.ended().is_none());
    session.frame("dev-2", 0);
    let last = session.ended().unwrap();
    assert_eq!((last.frames_in_window, last.frames_total), (1, 14));
    assert_eq!(last.device_id, "dev-2");
    assert_eq!(session.failed("cut".into()).code, Code::Internal);
}

fn provision_request(serial: &str, csr: &str, token: &str) -> ProvisionDeviceRequest {
    ProvisionDeviceRequest {
        serial: serial.into(),
        csr_pem: csr.into(),
        provision_token: token.into(),
    }
}

#[test]
fn provisioned_devices_can_enrol() {
    let a = authorities();
    let factory = ProvisioningServer::new(a.device_ca.pem(), a.device_key.serialize_pem());
    let mut store = DeviceStore::new();
    seed_factory_manifest(&mut store, "robot-001:secret:Walker");
    let key = pki::csr::generate_key().unwrap();
    let csr = pki::csr::generate_csr("robot-001", &key).unwrap();
    let resp =
        factory.provision_device(&mut store, &provision_request("robot-001", &csr, "secret")).unwrap();
    let certs = certs_from_pem(&resp.device_cert_pem).unwrap();
    let (_, cert) = x509_parser::parse_x509_certificate(&certs[0]).unwrap();
    let lasts = cert.validity().not_after.timestamp() - cert.validity().not_before.timestamp();
    assert_eq!(lasts, 365 * 86_400);

    let enrolled = server(&a)
        .bootstrap_enroll(&mut store, Some(certs), &enroll_request("robot-001"))
        .unwrap();
    assert_eq!(store.get_device(&enrolled.device_id).unwrap().model, "Walker");

    let again = factory
        .provision_device(&mut store, &provision_request("robot-001", &csr, "secret"))
        .unwrap_err();
    assert_eq!((again.code, again.message.as_str()), (Code::AlreadyExists, "robot-001"));
}

#[test]
fn provisioning_says_what_is_wrong() {
    let a = authorities();
    let factory = ProvisioningServer::new(a.device_ca.pem(), a.device_key.serialize_pem());
    let mut store = DeviceStore::new();
    store.seed_manifest("SN-1", "m", "t");
    for (serial, csr, token) in [("", "c", "t"), ("SN-1", "", "t"), ("SN-1", "c", "")] {
        let err = factory.provision_device(&mut store, &provision_request(serial, csr, token)).unwrap_err();
        assert_eq!(err.code, Code::InvalidArgument);
        assert_eq!(err.message, "serial, csr_pem, and provision_token are required");
    }
    let err = factory.provision_device(&mut store, &provision_request("SN-2", "c", "t")).unwrap_err();
    assert_eq!((err.code, err.message.as_str()), (Code::FailedPrecondition, "SN-2"));
    let err = factory.provision_device(&mut store, &provision_request("SN-1", "c", "x")).unwrap_err();
    assert_eq!((err.code, err.message.as_str()), (Code::PermissionDenied, "SN-1"));
    let err = factory.provision_device(&mut store, &provision_request("SN-1", "c", "t")).unwrap_err();
    assert_eq!(err.code, Code::Internal);
    assert!(err.message.starts_with("CSR signing failed: PEM parse error: "));
    assert!(matches!(s_claim(&mut store), Err(Error::AlreadyProvisioned(_))));
    assert_eq!(provisioning::map_err(Error::Db("x".into())).message, "database error: x");
}

fn s_claim(store: &mut DeviceStore) -> Result<String, Error> {
    store.claim_manifest_entry("SN-1", "t")
}

#[test]
fn device_errors_become_statuses() {
    let cases = [
        (Error::AlreadyEnrolled("s".into()), Code::AlreadyExists, "s"),
        (Error::SerialAlreadyClaimed("s".into()), Code::AlreadyExists, "s"),
        (Error::NotPreEnrolled("s".into()), Code::FailedPrecondition, "s"),
        (Error::CertVerification("s".into()), Code::Unauthenticated, "s"),
        (Error::NotFound("s".into()), Code::NotFound, "s"),
        (
            Error::DeviceNotActive { status: "lost".into() },
            Code::FailedPrecondition,
            "device is lost, cannot renew cert",
        ),
        (
            Error::SerialMismatch { cert: "a".into(), request: "b".into() },
            Code::InvalidArgument,
            "serial mismatch: cert=a request=b",
        ),
        (Error::NotInManifest("s".into()), Code::Internal, "serial not in factory manifest: s"),
        (
            Error::InvalidProvisionToken("s".into()),
            Code::Internal,
            "invalid provision token for serial: s",
        ),
        (Error::AlreadyProvisioned("s".into()), Code::Internal, "device already provisioned: s"),
        (Error::Db("s".into()), Code::Internal, "database error: s"),
        (Error::Pki(pki::error::Error::Tls("s".into())), Code::Internal, "PKI error: TLS error: s"),
    ];
    for (error, code, message) in cases {
        let status = map_err(error);
        assert_eq!((status.code, status.message.as_str()), (code, message));
    }
    assert_eq!(Error::NotFound("s".into()).message(), "device not found: s");
    assert_eq!(Error::AlreadyEnrolled("s".into()).message(), "serial already enrolled: s");
    assert_eq!(
        Error::NotPreEnrolled("s".into()).message(),
        "serial not in pre-enrollment registry: s"
    );
    assert_eq!(Error::SerialAlreadyClaimed("s".into()).message(), "serial already claimed: s");
    assert_eq!(Error::CertVerification("s".into()).message(), "cert verification failed: s");
}
