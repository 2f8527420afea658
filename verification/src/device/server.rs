//! The device-management service: requests in, answers out.

use vstd::prelude::*;

use crate::device::enrollment;
use crate::device::enrollment::{EnrollResult, EnrollmentService};
use crate::device::error::Error;
use crate::device::error::ErrorView;
use crate::device::laws;
use crate::device::store;
use crate::device::store::{DeviceFilter, DeviceView, FleetView, PreEnrollmentView};
use crate::device::store::{DeviceRecord, DeviceStore};
use crate::keyed;
use crate::pki;
use crate::sources;
use crate::status::StatusView;
use crate::status::{Code, Status, Timestamp};
use crate::text;

verus! {

/// How many devices a page holds when the request does not say.
pub const DEFAULT_PAGE: i64 = 50;

/// A device as the service describes it.
#[derive(Debug)]
pub struct DeviceInfo {
    pub device_id: String,
    pub serial: String,
    pub model: String,
    pub firmware: String,
    pub status: String,
    pub enrolled_at: Timestamp,
    pub last_seen_at: Timestamp,
}

/// What a [`DeviceInfo`] says.
#[verifier::ext_equal]
pub struct InfoView {
    pub device_id: Seq<char>,
    pub serial: Seq<char>,
    pub model: Seq<char>,
    pub firmware: Seq<char>,
    pub status: Seq<char>,
    pub enrolled_at: Timestamp,
    pub last_seen_at: Timestamp,
}

impl View for DeviceInfo {
    type V = InfoView;

    open spec fn view(&self) -> InfoView {
        InfoView {
            device_id: self.device_id@,
            serial: self.serial@,
            model: self.model@,
            firmware: self.firmware@,
            status: self.status@,
            enrolled_at: self.enrolled_at,
            last_seen_at: self.last_seen_at,
        }
    }
}

pub struct BootstrapEnrollRequest {
    pub csr_pem: String,
    pub serial: String,
    pub model: String,
    pub firmware: String,
}

#[derive(Debug)]
pub struct BootstrapEnrollResponse {
    pub device_id: String,
    pub operational_cert_pem: String,
    pub fleet_ca_chain_pem: String,
    pub cert_expires_at: Timestamp,
}

pub struct RenewCertRequest {
    pub device_id: String,
    pub csr_pem: String,
}

#[derive(Debug)]
pub struct RenewCertResponse {
    pub operational_cert_pem: String,
    pub cert_expires_at: Timestamp,
}

pub struct ListDevicesRequest {
    pub model: String,
    pub status: String,
    pub limit: i32,
    pub cursor: String,
}

#[derive(Debug)]
pub struct ListDevicesResponse {
    pub devices: Vec<DeviceInfo>,
    pub next_cursor: String,
}

pub struct UpdateDeviceStatusRequest {
    pub device_id: String,
    pub status: String,
    pub reason: String,
}

/// How a failure is answered.
pub open spec fn refusal(e: ErrorView) -> StatusView {
    match e {
        ErrorView::NotFound(m) => StatusView { code: Code::NotFound, message: m },
        ErrorView::AlreadyEnrolled(m) => StatusView { code: Code::AlreadyExists, message: m },
        ErrorView::SerialAlreadyClaimed(m) => StatusView { code: Code::AlreadyExists, message: m },
        ErrorView::NotPreEnrolled(m) => StatusView { code: Code::FailedPrecondition, message: m },
        ErrorView::SerialMismatch { .. } => StatusView {
            code: Code::InvalidArgument,
            message: e.message(),
        },
        ErrorView::DeviceNotActive { .. } => StatusView {
            code: Code::FailedPrecondition,
            message: e.message(),
        },
        ErrorView::CertVerification(m) => StatusView { code: Code::Unauthenticated, message: m },
        _ => StatusView { code: Code::Internal, message: e.message() },
    }
}

/// How a failure is answered.
pub fn map_err(e: Error) -> (r: Status)
    ensures
        r@ == refusal(e@),
{
    match e {
        Error::NotFound(m) => Status::new(Code::NotFound, m),
        Error::AlreadyEnrolled(m) => Status::new(Code::AlreadyExists, m),
        Error::SerialAlreadyClaimed(m) => Status::new(Code::AlreadyExists, m),
        Error::NotPreEnrolled(m) => Status::new(Code::FailedPrecondition, m),
        Error::CertVerification(m) => Status::new(Code::Unauthenticated, m),
        other => {
            let message: String = other.message();
            match other {
                Error::SerialMismatch { .. } => Status::new(Code::InvalidArgument, message),
                Error::DeviceNotActive { .. } => Status::new(Code::FailedPrecondition, message),
                _ => Status::new(Code::Internal, message),
            }
        },
    }
}

/// A device as the service describes it: its record without the certificate, with the times
/// to the second.
pub open spec fn info_of(d: DeviceView) -> InfoView {
    InfoView {
        device_id: d.id,
        serial: d.serial,
        model: d.model,
        firmware: d.firmware,
        status: d.status,
        enrolled_at: Timestamp::second(d.enrolled_at),
        last_seen_at: Timestamp::second(d.last_seen_at),
    }
}

/// Devices as the service describes them.
pub open spec fn infos_of(list: Seq<DeviceView>) -> Seq<InfoView> {
    list.map_values(|d: DeviceView| info_of(d))
}

/// A device as the service describes it.
pub fn record_to_proto(r: DeviceRecord) -> (info: DeviceInfo)
    ensures
        info@ == info_of(r@),
        info.device_id@ == r.id@,
        info.serial@ == r.serial@,
        info.model@ == r.model@,
        info.firmware@ == r.firmware@,
        info.status@ == r.status@,
        info.enrolled_at.seconds == r.enrolled_at,
        info.enrolled_at.nanos == 0,
        info.last_seen_at.seconds == r.last_seen_at,
        info.last_seen_at.nanos == 0,
{
    DeviceInfo {
        device_id: r.id,
        serial: r.serial,
        model: r.model,
        firmware: r.firmware,
        status: r.status,
        enrolled_at: Timestamp::at_second(r.enrolled_at),
        last_seen_at: Timestamp::at_second(r.last_seen_at),
    }
}

/// How many devices a page holds: as many as the request says, where it says a positive
/// number.
pub open spec fn page_size(limit: i32) -> i64 {
    if limit > 0 {
        limit as i64
    } else {
        DEFAULT_PAGE
    }
}

/// A text that stands for nothing when it is empty.
pub open spec fn unless_empty(text: Seq<char>) -> Option<Seq<char>> {
    if text.len() == 0 {
        None
    } else {
        Some(text)
    }
}

/// A text that stands for nothing when it is empty.
fn non_empty(text: String) -> (r: Option<String>)
    ensures
        store::text_view(r) == unless_empty(text@),
{
    if text.as_str().is_empty() {
        None
    } else {
        Some(text)
    }
}

/// The device-management service.
pub struct DeviceManagementServer {
    enrollment: EnrollmentService,
    device_ca_pem: String,
}

impl DeviceManagementServer {
    /// The part that enrols devices.
    pub closed spec fn service(&self) -> EnrollmentService {
        self.enrollment
    }

    /// The certificate of the factory's authority.
    pub closed spec fn device_ca(&self) -> Seq<char> {
        self.device_ca_pem@
    }

    /// The service with the fleet's authority and the certificate of the factory's.
    pub fn new(
        fleet_ca_cert_pem: String,
        fleet_ca_key_pem: String,
        device_ca_pem: String,
        cert_validity_days: u32,
    ) -> (r: DeviceManagementServer)
        ensures
            r.service().ca_cert() == fleet_ca_cert_pem@,
            r.service().ca_key() == fleet_ca_key_pem@,
            r.service().days() == cert_validity_days,
            r.device_ca() == device_ca_pem@,
    {
        let enrollment = EnrollmentService::new(
            fleet_ca_cert_pem,
            fleet_ca_key_pem,
            cert_validity_days,
        );
        DeviceManagementServer { enrollment, device_ca_pem }
    }

    /// Answers an enrolment.
    pub fn answer_enrolled(outcome: Result<EnrollResult, Error>) -> (r: Result<
        BootstrapEnrollResponse,
        Status,
    >)
        ensures
            match outcome {
                Ok(result) => r matches Ok(response) && {
                    &&& response.device_id@ == result.device_id@
                    &&& response.operational_cert_pem@ == result.operational_cert_pem@
                    &&& response.fleet_ca_chain_pem@ == result.fleet_ca_chain_pem@
                    &&& response.cert_expires_at == Timestamp::second(result.expires_at)
                },
                Err(e) => r matches Err(s) && s@ == refusal(e@),
            },
    {
        match outcome {
            Ok(result) => Ok(
                BootstrapEnrollResponse {
                    device_id: result.device_id,
                    operational_cert_pem: result.operational_cert_pem,
                    fleet_ca_chain_pem: result.fleet_ca_chain_pem,
                    cert_expires_at: Timestamp::at_second(result.expires_at),
                },
            ),
            Err(e) => Err(map_err(e)),
        }
    }

    /// Enrols the device that shows the certificates `peer_certs`; who shows none is turned
    /// away.
    pub fn bootstrap_enroll(
        &self,
        store: &mut DeviceStore,
        peer_certs: Option<Vec<Vec<u8>>>,
        req: &BootstrapEnrollRequest,
    ) -> (r: Result<BootstrapEnrollResponse, Status>)
        requires
            old(store).wf(),
        ensures
            final(store).wf(),
            match peer_certs {
                None => {
                    &&& r matches Err(s) && s@ == (StatusView {
                        code: Code::Unauthenticated,
                        message: "no peer certificate"@,
                    })
                    &&& final(store)@ == old(store)@
                },
                Some(certs) => {
                    let chain = pki::mtls::der_bytes(certs@);
                    let fleet = old(store)@;
                    match enrollment::admission(
                        req.serial@,
                        pki::mtls::serial_outcome(chain),
                        pki::mtls::signer_fault(chain, self.device_ca()),
                    ) {
                        Err(e) => (r matches Err(s) && s@ == refusal(e)) && final(store)@ == fleet,
                        Ok(serial) => match fleet.claim_outcome(serial) {
                            Err(e) => (r matches Err(s) && s@ == refusal(e)) && final(store)@
                                == fleet,
                            Ok(pre) => match r {
                                Ok(response) => {
                                    &&& !fleet.enrolled(serial)
                                    &&& self.service().issues(
                                        response.operational_cert_pem@,
                                        req.csr_pem@,
                                    )
                                    &&& response.fleet_ca_chain_pem@ == self.service().ca_cert()
                                    &&& sources::is_uuid_text(response.device_id@)
                                    &&& !fleet.devices.contains_key(response.device_id@)
                                    &&& exists|signed_at: i64|
                                        sources::is_reading(signed_at as int)
                                            && response.cert_expires_at == Timestamp::second(
                                            (#[trigger] self.service().expiry(signed_at)) as i64,
                                        )
                                    &&& exists|now: i64|
                                        sources::is_reading(now as int) && final(store)@ == fleet.after_claim(serial).with_device(
                                            #[trigger] enrollment::enrolled_device(
                                                response.device_id@,
                                                serial,
                                                pre.model,
                                                req.firmware@,
                                                response.operational_cert_pem@,
                                                now,
                                            ),
                                        )
                                },
                                Err(s) => {
                                    &&& {
                                        ||| exists|e: ErrorView|
                                            self.service().cannot_sign(e, req.csr_pem@) && s@
                                                == #[trigger] refusal(e)
                                        ||| s@ == refusal(ErrorView::AlreadyEnrolled(serial)) && (
                                        fleet.enrolled(serial) || exists|id: Seq<char>|
                                            sources::is_uuid_text(id)
                                                && #[trigger] fleet.devices.contains_key(id))
                                    }
                                    &&& final(store)@ == fleet.after_claim(serial)
                                },
                            },
                        },
                    }
                },
            },
            r matches Ok(response) ==> {
                let device = final(store)@.devices[response.device_id@];
                &&& peer_certs is Some
                &&& final(store)@.devices.contains_key(response.device_id@)
                &&& device.status == "active"@
                &&& device.firmware == req.firmware@
                &&& device.operational_cert_pem == response.operational_cert_pem@
                &&& req.serial@.len() > 0 ==> device.serial == req.serial@
                &&& old(store)@.serials.contains_key(device.serial)
                &&& !old(store)@.serials[device.serial].claimed
                &&& device.model == old(store)@.serials[device.serial].model
                &&& final(store)@.serials[device.serial].claimed
            },
    {
        let certs: Vec<Vec<u8>> = match peer_certs {
            None => return Err(
                Status::new(Code::Unauthenticated, "no peer certificate".to_owned()),
            ),
            Some(c) => c,
        };
        let outcome = self.enrollment.bootstrap_enroll(
            store,
            req.serial.as_str(),
            req.csr_pem.as_str(),
            req.firmware.as_str(),
            &certs,
            self.device_ca_pem.as_str(),
        );
        Self::answer_enrolled(outcome)
    }

    /// Answers a renewal.
    pub fn answer_renewed(outcome: Result<(String, i64), Error>) -> (r: Result<
        RenewCertResponse,
        Status,
    >)
        ensures
            match outcome {
                Ok(renewed) => r matches Ok(response) && response.operational_cert_pem@
                    == renewed.0@ && response.cert_expires_at == Timestamp::second(renewed.1),
                Err(e) => r matches Err(s) && s@ == refusal(e@),
            },
    {
        match outcome {
            Ok((cert, expires_at)) => Ok(
                RenewCertResponse {
                    operational_cert_pem: cert,
                    cert_expires_at: Timestamp::at_second(expires_at),
                },
            ),
            Err(e) => Err(map_err(e)),
        }
    }

    /// Issues a new certificate to an active device.
    pub fn renew_cert(&self, store: &DeviceStore, req: &RenewCertRequest) -> (r: Result<
        RenewCertResponse,
        Status,
    >)
        requires
            store.wf(),
        ensures
            match store@.device_outcome(req.device_id@) {
                Err(e) => r matches Err(s) && s@ == refusal(e),
                Ok(device) => if device.status != "active"@ {
                    r matches Err(s) && s@ == refusal(
                        ErrorView::DeviceNotActive { status: device.status },
                    )
                } else {
                    match r {
                        Ok(response) => {
                            &&& self.service().issues(
                                response.operational_cert_pem@,
                                req.csr_pem@,
                            )
                            &&& exists|signed_at: i64|
                                sources::is_reading(signed_at as int) && response.cert_expires_at
                                    == Timestamp::second(
                                    (#[trigger] self.service().expiry(signed_at)) as i64,
                                )
                        },
                        Err(s) => exists|e: ErrorView|
                            self.service().cannot_sign(e, req.csr_pem@) && s@
                                == #[trigger] refusal(e),
                    }
                },
            },
            r is Ok ==> store@.devices.contains_key(req.device_id@)
                && store@.devices[req.device_id@].status == "active"@,
    {
        let outcome = self.enrollment.renew_cert(
            store,
            req.device_id.as_str(),
            req.csr_pem.as_str(),
        );
        proof {
            if let Ok(renewed) = &outcome {
                let signed_at = choose|signed_at: i64|
                    sources::is_reading(signed_at as int) && renewed.1
                        == #[trigger] self.service().expiry(signed_at);
                assert(renewed.1 == self.service().expiry(signed_at) as i64);
            }
        }
        Self::answer_renewed(outcome)
    }

    /// Describes a device.
    pub fn get_device(&self, store: &DeviceStore, device_id: &str) -> (r: Result<
        DeviceInfo,
        Status,
    >)
        requires
            store.wf(),
        ensures
            match store@.device_outcome(device_id@) {
                Ok(device) => r matches Ok(info) && info@ == info_of(device),
                Err(e) => r matches Err(s) && s@ == refusal(e),
            },
            r matches Ok(info) ==> info.device_id@ == device_id@,
            r is Ok <==> store@.devices.contains_key(device_id@),
    {
        match store.get_device(device_id) {
            Ok(record) => Ok(record_to_proto(record)),
            Err(e) => Err(map_err(e)),
        }
    }

    /// The filter that a listing request stands for.
    pub open spec fn filter_of(req: ListDevicesRequest) -> DeviceFilter {
        DeviceFilter {
            model: unless_empty(req.model@),
            status: unless_empty(req.status@),
            after: unless_empty(req.cursor@),
        }
    }

    /// Describes a page of the devices that the request asks for. The cursor is empty where
    /// no page follows.
    pub fn list_devices(&self, store: &DeviceStore, req: ListDevicesRequest) -> (r:
        ListDevicesResponse)
        requires
            store.wf(),
        ensures
            ({
                let all = store::listing(store@, Self::filter_of(req));
                let (shown, next) = store::page(all, page_size(req.limit));
                &&& store::is_listing(store@, Self::filter_of(req), all)
                &&& keyed::views(r.devices@) == infos_of(shown)
                &&& r.next_cursor@ == (match next {
                    Some(id) => id,
                    None => Seq::empty(),
                })
            }),
            forall|k: int| #![trigger r.devices@[k]]
                0 <= k < r.devices@.len() ==> {
                    &&& store@.devices.contains_key(r.devices@[k].device_id@)
                    &&& req.model@.len() > 0 ==> r.devices@[k].model@ == req.model@
                    &&& req.status@.len() > 0 ==> r.devices@[k].status@ == req.status@
                    &&& req.cursor@.len() > 0 ==> text::text_less(
                        req.cursor@,
                        r.devices@[k].device_id@,
                    )
                },
    {
        let limit: i64 = if req.limit > 0 {
            req.limit as i64
        } else {
            DEFAULT_PAGE
        };
        let model: Option<String> = non_empty(req.model);
        let status: Option<String> = non_empty(req.status);
        let cursor: Option<String> = non_empty(req.cursor);
        let (records, next) = store.list_devices(model, status, limit, cursor);
        let ghost shown = keyed::views(records@);
        let mut devices: Vec<DeviceInfo> = Vec::new();
        let mut i: usize = 0;
        while i < records.len()
            invariant
                i <= records@.len(),
                shown == keyed::views(records@),
                keyed::views(devices@) =~= infos_of(shown.take(i as int)),
            decreases records.len() - i,
        {
            let ghost before = keyed::views(devices@);
            let info: DeviceInfo = record_to_proto(records[i].clone());
            let ghost said = info@;
            devices.push(info);
            assert(keyed::views(devices@) =~= before.push(said));
            assert(shown.take(i + 1) =~= shown.take(i as int).push(shown[i as int]));
            i = i + 1;
        }
        assert(shown.take(i as int) =~= shown);
        proof {
            assert forall|k: int| #![trigger devices@[k]] 0 <= k < devices@.len() implies {
                &&& store@.devices.contains_key(devices@[k].device_id@)
                &&& req.model@.len() > 0 ==> devices@[k].model@ == req.model@
                &&& req.status@.len() > 0 ==> devices@[k].status@ == req.status@
                &&& req.cursor@.len() > 0 ==> text::text_less(
                    req.cursor@,
                    devices@[k].device_id@,
                )
            } by {
                assert(keyed::views(devices@)[k] == devices@[k]@);
                assert(shown[k] == records@[k]@);
                assert(devices@[k]@ == info_of(records@[k]@));
            }
        }
        let next_cursor: String = match next {
            Some(id) => id,
            None => String::new(),
        };
        assert(next is None ==> next_cursor@ =~= Seq::<char>::empty());
        ListDevicesResponse { devices, next_cursor }
    }

    /// Sets the status of a device and describes it afterwards.
    pub fn update_device_status(
        &self,
        store: &mut DeviceStore,
        req: &UpdateDeviceStatusRequest,
    ) -> (r: Result<DeviceInfo, Status>)
        requires
            old(store).wf(),
        ensures
            final(store).wf(),
            final(store)@ == old(store)@.after_status(req.device_id@, req.status@),
            match old(store)@.device_outcome(req.device_id@) {
                Ok(device) => r matches Ok(info) && info@ == info_of(
                    DeviceView { status: req.status@, ..device },
                ),
                Err(e) => r matches Err(s) && s@ == refusal(e),
            },
    {
        proof {
            store.lemma_wf();
        }
        match store.update_status(
            req.device_id.as_str(),
            req.status.as_str(),
            req.reason.as_str(),
        ) {
            Ok(_) => {},
            Err(e) => return Err(map_err(e)),
        }
        match store.get_device(req.device_id.as_str()) {
            Ok(record) => Ok(record_to_proto(record)),
            Err(e) => Err(map_err(e)),
        }
    }
}

/// A device that enrolled once is turned away when it tries again with the same certificate,
/// whatever happened to the records in between: the answer is `AlreadyExists`, and nothing
/// is recorded.
pub proof fn second_enrolment_is_refused(
    fleet: FleetView,
    device: DeviceView,
    operations: Seq<laws::Operation>,
)
    requires
        fleet.wf(),
        fleet.claim_outcome(device.serial) is Ok,
        !fleet.enrolled(device.serial),
        !fleet.devices.contains_key(device.id),
    ensures
        ({
            let later = laws::run(
                fleet.after_claim(device.serial).with_device(device),
                operations,
            );
            &&& later.claim_outcome(device.serial) == Err::<PreEnrollmentView, ErrorView>(
                ErrorView::SerialAlreadyClaimed(device.serial),
            )
            &&& refusal(ErrorView::SerialAlreadyClaimed(device.serial)) == (StatusView {
                code: Code::AlreadyExists,
                message: device.serial,
            })
        }),
{
    let claimed = fleet.after_claim(device.serial);
    assert forall|id: Seq<char>| claimed.is_device(id, device.serial) implies false by {
        assert(fleet.is_device(id, device.serial));
    }
    let steps = seq![
        laws::Operation::Claim { serial: device.serial },
        laws::Operation::Create { device },
    ];
    assert(laws::run(fleet, Seq::empty()) == fleet);
    assert(steps.drop_last() =~= seq![laws::Operation::Claim { serial: device.serial }]);
    assert(steps.drop_last().drop_last() =~= Seq::empty());
    assert(laws::run(fleet, steps.drop_last()) == claimed);
    assert(laws::run(fleet, steps) == claimed.with_device(device));
    laws::operations_keep_records_well_formed(fleet, steps);
    laws::enrolment_closes_serial(fleet, device);
    laws::enrolled_serial_stays_closed(
        claimed.with_device(device),
        device.serial,
        operations,
    );
}

/// A device is described by what its record says, each thing under its own name, but for the
/// certificate.
pub proof fn descriptions_say_what_the_record_says(d: DeviceView)
    ensures
        info_of(d).device_id == d.id,
        info_of(d).serial == d.serial,
        info_of(d).model == d.model,
        info_of(d).firmware == d.firmware,
        info_of(d).status == d.status,
        info_of(d).enrolled_at.seconds == d.enrolled_at,
        info_of(d).enrolled_at.nanos == 0,
        info_of(d).last_seen_at.seconds == d.last_seen_at,
        info_of(d).last_seen_at.nanos == 0,
{
}

/// A list describes the devices one by one, in their order.
pub proof fn lists_describe_one_by_one(list: Seq<DeviceView>, i: int)
    requires
        0 <= i < list.len(),
    ensures
        infos_of(list).len() == list.len(),
        infos_of(list)[i].device_id == list[i].id,
        infos_of(list)[i] == info_of(list[i]),
{
}

/// A list is as long as was asked for, and fifty long where nothing positive was asked for. It
/// is of the model, of the status and after the device that the request names, each where it
/// is not empty.
pub proof fn lists_are_as_asked(req: ListDevicesRequest)
    ensures
        req.limit > 0 ==> page_size(req.limit) == req.limit,
        req.limit <= 0 ==> page_size(req.limit) == 50,
        ({
            let filter = DeviceManagementServer::filter_of(req);
            &&& req.model@.len() > 0 ==> filter.model == Some(req.model@)
            &&& req.model@.len() == 0 ==> filter.model is None
            &&& req.status@.len() > 0 ==> filter.status == Some(req.status@)
            &&& req.status@.len() == 0 ==> filter.status is None
            &&& req.cursor@.len() > 0 ==> filter.after == Some(req.cursor@)
            &&& req.cursor@.len() == 0 ==> filter.after is None
        }),
{
}

/// Each failure has its own kind of refusal.
pub proof fn failures_are_told_by_kind(m: Seq<char>, other: Seq<char>, e: pki::error::ErrorView)
    ensures
        refusal(ErrorView::NotFound(m)).code == Code::NotFound,
        refusal(ErrorView::NotFound(m)).message == m,
        refusal(ErrorView::AlreadyEnrolled(m)).code == Code::AlreadyExists,
        refusal(ErrorView::AlreadyEnrolled(m)).message == m,
        refusal(ErrorView::SerialAlreadyClaimed(m)).code == Code::AlreadyExists,
        refusal(ErrorView::SerialAlreadyClaimed(m)).message == m,
        refusal(ErrorView::NotPreEnrolled(m)).code == Code::FailedPrecondition,
        refusal(ErrorView::NotPreEnrolled(m)).message == m,
        refusal(ErrorView::SerialMismatch { cert: m, request: other }).code
            == Code::InvalidArgument,
        refusal(ErrorView::SerialMismatch { cert: m, request: other }).message
            == "serial mismatch: cert="@ + m + " request="@ + other,
        refusal(ErrorView::DeviceNotActive { status: m }).code == Code::FailedPrecondition,
        refusal(ErrorView::DeviceNotActive { status: m }).message == "device is "@ + m
            + ", cannot renew cert"@,
        refusal(ErrorView::CertVerification(m)).code == Code::Unauthenticated,
        refusal(ErrorView::CertVerification(m)).message == m,
        refusal(ErrorView::NotInManifest(m)).code == Code::Internal,
        refusal(ErrorView::InvalidProvisionToken(m)).code == Code::Internal,
        refusal(ErrorView::AlreadyProvisioned(m)).code == Code::Internal,
        refusal(ErrorView::Db(m)).code == Code::Internal,
        refusal(ErrorView::Db(m)).message == "database error: "@ + m,
        refusal(ErrorView::Pki(e)).code == Code::Internal,
        refusal(ErrorView::Pki(e)).message == "PKI error: "@ + e.message(),
{
}

} // verus!
