//! What holds of the fleet's records whatever happens to them.

use vstd::prelude::*;

use crate::device::enrollment;
use crate::device::error::ErrorView;
use crate::device::provisioning::{ProvisioningServer, DEVICE_CERT_DAYS};
use crate::device::store;
use crate::device::store::{DeviceFilter, DeviceView, FleetView, PreEnrollmentView};
use crate::pki;
use crate::selection;
use crate::sources;
use crate::text;

verus! {

/// Something that is done to the fleet's records.
pub enum Operation {
    Seed { serial: Seq<char>, model: Seq<char>, token: Seq<char> },
    UseToken { serial: Seq<char>, token: Seq<char>, now: i64 },
    Register { serial: Seq<char>, model: Seq<char> },
    Claim { serial: Seq<char> },
    Create { device: DeviceView },
    SetStatus { id: Seq<char>, status: Seq<char> },
    Touch { id: Seq<char>, now: i64 },
}

/// The records after one operation. A device is not created where its serial or its
/// identifier is taken.
pub open spec fn step(fleet: FleetView, operation: Operation) -> FleetView {
    match operation {
        Operation::Seed { serial, model, token } => fleet.after_seed(serial, model, token),
        Operation::UseToken { serial, token, now } => fleet.after_token(serial, token, now),
        Operation::Register { serial, model } => fleet.after_register(serial, model),
        Operation::Claim { serial } => fleet.after_claim(serial),
        Operation::Create { device } => if fleet.enrolled(device.serial)
            || fleet.devices.contains_key(device.id) {
            fleet
        } else {
            fleet.with_device(device)
        },
        Operation::SetStatus { id, status } => fleet.after_status(id, status),
        Operation::Touch { id, now } => fleet.after_touch(id, now),
    }
}

/// The records after a series of operations.
pub open spec fn run(fleet: FleetView, operations: Seq<Operation>) -> FleetView
    decreases operations.len(),
{
    if operations.len() == 0 {
        fleet
    } else {
        step(run(fleet, operations.drop_last()), operations.last())
    }
}

/// Operations keep the records well-formed: every record stands under its own key, and no
/// serial is enrolled twice.
pub proof fn operations_keep_records_well_formed(fleet: FleetView, operations: Seq<Operation>)
    requires
        fleet.wf(),
    ensures
        run(fleet, operations).wf(),
    decreases operations.len(),
{
    if operations.len() > 0 {
        operations_keep_records_well_formed(fleet, operations.drop_last());
        lemma_step_wf(run(fleet, operations.drop_last()), operations.last());
    }
}

proof fn lemma_step_wf(fleet: FleetView, operation: Operation)
    requires
        fleet.wf(),
    ensures
        step(fleet, operation).wf(),
{
    let next = step(fleet, operation);
    assert forall|a: Seq<char>, b: Seq<char>|
        #![trigger next.devices.contains_key(a), next.devices.contains_key(b)]
        next.devices.contains_key(a) && next.devices.contains_key(b) && a
            != b implies next.devices[a].serial != next.devices[b].serial by {
        if operation is Create {
            if fleet.devices.contains_key(a) {
                assert(fleet.is_device(a, fleet.devices[a].serial));
            }
            if fleet.devices.contains_key(b) {
                assert(fleet.is_device(b, fleet.devices[b].serial));
            }
        }
    }
}

/// Once enrolled, always enrolled.
proof fn lemma_step_enrolled(fleet: FleetView, operation: Operation, serial: Seq<char>)
    requires
        fleet.wf(),
        fleet.enrolled(serial),
    ensures
        step(fleet, operation).enrolled(serial),
{
    let id = choose|id: Seq<char>| fleet.is_device(id, serial);
    assert(step(fleet, operation).is_device(id, serial));
}

/// A device with the serial is enrolled, and the serial is used up.
pub open spec fn sealed(fleet: FleetView, serial: Seq<char>) -> bool {
    &&& fleet.enrolled(serial)
    &&& fleet.serials.contains_key(serial)
    &&& fleet.serials[serial].claimed
}

/// A serial that was claimed cannot be claimed again.
pub proof fn serial_is_claimed_once(fleet: FleetView, serial: Seq<char>)
    requires
        fleet.wf(),
        fleet.claim_outcome(serial) is Ok,
    ensures
        fleet.after_claim(serial).claim_outcome(serial) == Err::<PreEnrollmentView, ErrorView>(
            ErrorView::SerialAlreadyClaimed(serial),
        ),
{
}

/// Once a device has enrolled on its serial, no series of operations opens the serial again:
/// not a new registration, not another manifest entry, not another token.
pub proof fn enrolled_serial_stays_closed(
    fleet: FleetView,
    serial: Seq<char>,
    operations: Seq<Operation>,
)
    requires
        fleet.wf(),
        sealed(fleet, serial),
    ensures
        sealed(run(fleet, operations), serial),
        run(fleet, operations).claim_outcome(serial) == Err::<PreEnrollmentView, ErrorView>(
            ErrorView::SerialAlreadyClaimed(serial),
        ),
    decreases operations.len(),
{
    if operations.len() > 0 {
        let earlier = operations.drop_last();
        enrolled_serial_stays_closed(fleet, serial, earlier);
        operations_keep_records_well_formed(fleet, earlier);
        lemma_step_enrolled(run(fleet, earlier), operations.last(), serial);
    }
}

/// Claiming a serial and recording a device on it closes the serial.
pub proof fn enrolment_closes_serial(fleet: FleetView, device: DeviceView)
    requires
        fleet.wf(),
        fleet.claim_outcome(device.serial) is Ok,
    ensures
        sealed(fleet.after_claim(device.serial).with_device(device), device.serial),
{
    let after = fleet.after_claim(device.serial).with_device(device);
    assert(after.is_device(device.id, device.serial));
}

/// A claim that led to no enrolment is given back by registering the serial anew, for the
/// model that it was registered for at first.
pub proof fn unfinished_claim_is_given_back(
    fleet: FleetView,
    serial: Seq<char>,
    model: Seq<char>,
)
    requires
        fleet.wf(),
        fleet.claim_outcome(serial) is Ok,
        !fleet.enrolled(serial),
    ensures
        fleet.after_claim(serial).after_register(serial, model).claim_outcome(serial)
            == fleet.claim_outcome(serial),
{
    let claimed = fleet.after_claim(serial);
    assert forall|id: Seq<char>| claimed.is_device(id, serial) implies false by {
        assert(fleet.is_device(id, serial));
    }
}

/// What happens to one serial is of no concern to another.
pub proof fn serials_are_independent(
    fleet: FleetView,
    serial: Seq<char>,
    other: Seq<char>,
    model: Seq<char>,
    token: Seq<char>,
    now: i64,
)
    requires
        fleet.wf(),
        serial != other,
    ensures
        fleet.after_claim(other).claim_outcome(serial) == fleet.claim_outcome(serial),
        fleet.after_register(other, model).claim_outcome(serial) == fleet.claim_outcome(serial),
        fleet.after_token(other, token, now).claim_outcome(serial) == fleet.claim_outcome(serial),
        forall|t: Seq<char>|
            fleet.after_token(other, token, now).token_outcome(serial, t)
                == #[trigger] fleet.token_outcome(serial, t),
{
}

/// The token of the serial was used.
pub open spec fn provisioned(fleet: FleetView, serial: Seq<char>) -> bool {
    fleet.manifest.contains_key(serial) && fleet.manifest[serial].provisioned_at is Some
}

/// A token serves once: after it was used, no series of operations makes it, or any other
/// text, serve again. The token itself is then answered with `AlreadyProvisioned`, any
/// other with `InvalidProvisionToken`.
pub proof fn token_serves_once(
    fleet: FleetView,
    serial: Seq<char>,
    token: Seq<char>,
    now: i64,
    operations: Seq<Operation>,
    again: Seq<char>,
)
    requires
        fleet.wf(),
        fleet.token_outcome(serial, token) is Ok,
    ensures
        run(fleet.after_token(serial, token, now), operations).token_outcome(serial, again)
            == Err::<Seq<char>, ErrorView>(
            if again == token {
                ErrorView::AlreadyProvisioned(serial)
            } else {
                ErrorView::InvalidProvisionToken(serial)
            },
        ),
{
    let used = Operation::UseToken { serial, token, now };
    lemma_step_wf(fleet, used);
    lemma_provisioned_stays(step(fleet, used), serial, operations);
}

/// A manifest entry whose token was used stays as it is.
proof fn lemma_provisioned_stays(
    fleet: FleetView,
    serial: Seq<char>,
    operations: Seq<Operation>,
)
    requires
        fleet.wf(),
        provisioned(fleet, serial),
    ensures
        run(fleet, operations).manifest.contains_key(serial),
        run(fleet, operations).manifest[serial] == fleet.manifest[serial],
    decreases operations.len(),
{
    if operations.len() > 0 {
        let earlier = operations.drop_last();
        lemma_provisioned_stays(fleet, serial, earlier);
        operations_keep_records_well_formed(fleet, earlier);
    }
}

/// A device that was provisioned can enrol, with the model that the manifest gives it,
/// unless its serial was registered by other means before.
pub proof fn provisioning_opens_enrolment(
    fleet: FleetView,
    serial: Seq<char>,
    token: Seq<char>,
    now: i64,
)
    requires
        fleet.wf(),
        fleet.token_outcome(serial, token) is Ok,
        !fleet.serials.contains_key(serial),
    ensures
        fleet.after_token(serial, token, now).claim_outcome(serial) == Ok::<
            PreEnrollmentView,
            ErrorView,
        >(PreEnrollmentView { serial, model: fleet.manifest[serial].model }),
{
}

/// A manifest entry that was seeded is not changed by seeding it again.
pub proof fn seeding_twice_keeps_first(
    fleet: FleetView,
    serial: Seq<char>,
    model: Seq<char>,
    token: Seq<char>,
    other_model: Seq<char>,
    other_token: Seq<char>,
)
    ensures
        fleet.after_seed(serial, model, token).after_seed(serial, other_model, other_token)
            == fleet.after_seed(serial, model, token),
{
}

/// A device that was recorded is found, by its identifier and by its serial; the other
/// devices stay as they are.
pub proof fn recorded_device_is_found(fleet: FleetView, device: DeviceView, other: Seq<char>)
    requires
        fleet.wf(),
        !fleet.enrolled(device.serial),
        !fleet.devices.contains_key(device.id),
    ensures
        fleet.with_device(device).device_outcome(device.id) == Ok::<DeviceView, ErrorView>(device),
        fleet.with_device(device).enrolled(device.serial),
        other != device.id ==> fleet.with_device(device).device_outcome(other)
            == fleet.device_outcome(other),
{
    assert(fleet.with_device(device).is_device(device.id, device.serial));
}

/// A status lasts until it is set again: a device that was taken out of service stays so, and
/// is refused a new certificate, whatever else happens to the records.
pub proof fn status_lasts_until_it_is_set(
    fleet: FleetView,
    id: Seq<char>,
    status: Seq<char>,
    operations: Seq<Operation>,
)
    requires
        fleet.wf(),
        fleet.devices.contains_key(id),
        forall|k: int|
            0 <= k < operations.len() ==> !((#[trigger] operations[k]) matches Operation::SetStatus {
                id: other,
                ..
            } && other == id),
    ensures
        run(fleet.after_status(id, status), operations).device_outcome(id) matches Ok(device)
            && device.status == status,
    decreases operations.len(),
{
    lemma_step_wf(fleet, Operation::SetStatus { id, status });
    if operations.len() > 0 {
        let earlier = operations.drop_last();
        assert forall|k: int|
            0 <= k < earlier.len() implies !((#[trigger] earlier[k]) matches Operation::SetStatus {
            id: other,
            ..
        } && other == id) by {
            assert(earlier[k] == operations[k]);
        }
        status_lasts_until_it_is_set(fleet, id, status, earlier);
        operations_keep_records_well_formed(fleet.after_status(id, status), earlier);
        assert(operations.last() == operations[operations.len() - 1]);
    }
}

/// A page and the listing that starts after its cursor are the whole listing; where no
/// cursor comes with the page, the page is the whole listing.
pub proof fn page_and_rest_are_all(
    fleet: FleetView,
    filter: DeviceFilter,
    limit: i64,
)
    requires
        fleet.wf(),
        0 < limit < i64::MAX,
    ensures
        ({
            let all = store::listing(fleet, filter);
            let (shown, next) = store::page(all, limit);
            match next {
                None => shown == all,
                Some(id) => shown.len() == limit && all == shown + store::listing(
                    fleet,
                    filter.from_id(id),
                ),
            }
        }),
{
    let all = store::listing(fleet, filter);
    store::lemma_listing_exists(fleet, filter);
    let (shown, next) = store::page(all, limit);
    if all.len() > limit {
        assert(selection::at_most(all, limit + 1).drop_last() =~= all.take(limit as int));
        assert(shown =~= all.take(limit as int));
        let last = all[limit - 1];
        assert(shown.last() == last);
        let rest = all.skip(limit as int);
        assert(all =~= shown + rest);
        let narrowed = filter.from_id(last.id);
        assert forall|i: int| #![trigger rest[i]] 0 <= i < rest.len() implies {
            &&& fleet.devices.contains_key(rest[i].id)
            &&& fleet.devices[rest[i].id] == rest[i]
            &&& narrowed.accepts(rest[i])
        } by {
            assert(rest[i] == all[limit + i]);
            assert(text::text_less(all[limit - 1].id, all[limit + i].id));
        }
        assert forall|id: Seq<char>| #[trigger]
            fleet.devices.contains_key(id) && narrowed.accepts(
                fleet.devices[id],
            ) implies rest.contains(fleet.devices[id]) by {
            assert(filter.accepts(fleet.devices[id])) by {
                if let Some(c) = filter.after {
                    assert(filter.accepts(last));
                    text::text_less_transitive(c, last.id, id);
                }
            }
            assert(all.contains(fleet.devices[id]));
            let i = choose|i: int| 0 <= i < all.len() && all[i] == fleet.devices[id];
            if i < limit {
                if i < limit - 1 {
                    assert(text::text_less(all[i].id, all[limit - 1].id));
                    text::text_less_transitive(last.id, all[i].id, last.id);
                }
                text::text_less_irreflexive(last.id);
                assert(false);
            }
            assert(rest[i - limit] == fleet.devices[id]);
        }
        assert forall|a: int, b: int| 0 <= a < b < rest.len() implies text::text_less(
            (#[trigger] rest[a]).id,
            (#[trigger] rest[b]).id,
        ) by {
            assert(rest[a] == all[limit + a] && rest[b] == all[limit + b]);
        }
        assert(store::is_listing(fleet, narrowed, rest));
        store::lemma_listing(fleet, narrowed, rest);
    }
}

/// What someone sees who asks for pages of `limit` devices, one after the other, at most
/// `pages` of them, each from the cursor of the one before.
pub open spec fn walk(fleet: FleetView, filter: DeviceFilter, limit: i64, pages: nat) -> Seq<
    DeviceView,
>
    decreases pages,
{
    if pages == 0 {
        Seq::empty()
    } else {
        let (shown, next) = store::page(store::listing(fleet, filter), limit);
        match next {
            None => shown,
            Some(id) => shown + walk(fleet, filter.from_id(id), limit, (pages - 1) as nat),
        }
    }
}

/// Who follows the cursors to the end sees every device of the listing once, in order.
pub proof fn pages_show_everything_once(
    fleet: FleetView,
    filter: DeviceFilter,
    limit: i64,
    pages: nat,
)
    requires
        fleet.wf(),
        0 < limit < i64::MAX,
        store::listing(fleet, filter).len() < pages,
    ensures
        walk(fleet, filter, limit, pages) == store::listing(fleet, filter),
    decreases pages,
{
    page_and_rest_are_all(fleet, filter, limit);
    if let Some(id) = store::page(store::listing(fleet, filter), limit).1 {
        pages_show_everything_once(fleet, filter.from_id(id), limit, (pages - 1) as nat);
    }
}

/// A listing holds the devices that the filter accepts and no others, each once.
pub proof fn listing_holds_what_is_accepted(
    fleet: FleetView,
    filter: DeviceFilter,
    device: DeviceView,
)
    requires
        fleet.wf(),
    ensures
        store::listing(fleet, filter).contains(device) <==> {
            &&& fleet.devices.contains_key(device.id)
            &&& fleet.devices[device.id] == device
            &&& filter.accepts(device)
        },
        store::listing(fleet, filter).no_duplicates(),
{
    let all = store::listing(fleet, filter);
    store::lemma_listing_exists(fleet, filter);
    if all.contains(device) {
        let i = choose|i: int| 0 <= i < all.len() && all[i] == device;
        assert(fleet.devices.contains_key(all[i].id));
    }
    assert forall|i: int, j: int| 0 <= i < all.len() && 0 <= j < all.len() && i != j implies all[i]
        != all[j] by {
        text::text_less_irreflexive(all[i].id);
        if i < j {
            assert(text::text_less(all[i].id, all[j].id));
        } else {
            assert(text::text_less(all[j].id, all[i].id));
        }
    }
}

/// A device that was provisioned under a serial may go on to claim that serial: the
/// certificate that the factory's authority issued on its request lets it in at enrolment,
/// where the request there names the same serial or none, and the authority's certificate is
/// one for its key.
pub proof fn who_is_provisioned_is_let_in(
    factory: &ProvisioningServer,
    cert: Seq<char>,
    csr_pem: Seq<char>,
    serial: Seq<char>,
    key_pem: Seq<char>,
    requested: Seq<char>,
)
    requires
        pki::csr::requests(csr_pem, serial, key_pem),
        factory.issues(cert, csr_pem),
        pki::laws::is_certificate_for(factory.ca_cert(), factory.ca_key()),
        requested.len() == 0 || requested == serial,
    ensures
        pki::mtls::certs_outcome(cert) matches Ok(chain) && enrollment::admission(
            requested,
            pki::mtls::serial_outcome(chain),
            pki::mtls::signer_fault(chain, factory.ca_cert()),
        ) == Ok::<Seq<char>, ErrorView>(serial),
{
    let now = choose|now: int|
        sources::is_reading(now) && #[trigger] pki::csr::issued_at(
            cert,
            csr_pem,
            factory.ca_cert(),
            factory.ca_key(),
            DEVICE_CERT_DAYS as int,
            now,
        );
    pki::laws::an_issued_certificate_names_its_holder(
        cert,
        csr_pem,
        serial,
        key_pem,
        factory.ca_cert(),
        factory.ca_key(),
        DEVICE_CERT_DAYS as int,
        now,
    );
}

/// Every device listed for a request with a model has that model, every device listed for a
/// request with a status has that status, and every device listed after a cursor has an
/// identifier that comes after it, all at once where all are given; and every enrolled device
/// of which all that holds is listed. The identifiers ascend.
pub proof fn listing_holds_the_devices_asked_for(
    fleet: FleetView,
    filter: DeviceFilter,
    device: DeviceView,
)
    requires
        fleet.wf(),
    ensures
        store::listing(fleet, filter).contains(device) <==> {
            &&& fleet.devices.contains_key(device.id)
            &&& fleet.devices[device.id] == device
            &&& filter.model matches Some(model) ==> device.model == model
            &&& filter.status matches Some(status) ==> device.status == status
            &&& filter.after matches Some(cursor) ==> text::text_less(cursor, device.id)
        },
        forall|i: int, j: int|
            0 <= i < j < store::listing(fleet, filter).len() ==> text::text_less(
                (#[trigger] store::listing(fleet, filter)[i]).id,
                (#[trigger] store::listing(fleet, filter)[j]).id,
            ),
{
    listing_holds_what_is_accepted(fleet, filter, device);
    store::lemma_listing_exists(fleet, filter);
    let all = store::listing(fleet, filter);
    assert forall|i: int, j: int| 0 <= i < j < all.len() implies text::text_less(
        (#[trigger] all[i]).id,
        (#[trigger] all[j]).id,
    ) by {}
}

/// To go on after a device changes nothing but where the listing starts.
pub proof fn cursors_change_the_start_only(filter: DeviceFilter, id: Seq<char>)
    ensures
        filter.from_id(id).model == filter.model,
        filter.from_id(id).status == filter.status,
        filter.from_id(id).after == Some(id),
{
}

/// A page is the start of a listing, as long as was asked for where the listing goes that far.
/// Where more follows, the cursor is the identifier of the last device shown; where nothing
/// follows, there is none.
pub proof fn pages_are_the_start_of_a_listing(all: Seq<DeviceView>, limit: i64)
    requires
        0 < limit < i64::MAX,
    ensures
        all.len() <= limit ==> store::page(all, limit) == (all, None::<Seq<char>>),
        all.len() > limit ==> store::page(all, limit) == (
            all.take(limit as int),
            Some(all[limit - 1].id),
        ),
{
    if all.len() > limit {
        assert(selection::at_most(all, limit + 1).drop_last() =~= all.take(limit as int));
    }
}

/// A device is found under its identifier, and a serial is enrolled where a device has it.
pub proof fn devices_are_found_by_identifier(fleet: FleetView, id: Seq<char>, serial: Seq<char>)
    ensures
        fleet.device_outcome(id) matches Ok(device) ==> fleet.devices.contains_key(id) && device
            == fleet.devices[id],
        fleet.device_outcome(id) is Err <==> !fleet.devices.contains_key(id),
        fleet.device_outcome(id) matches Err(e) ==> e == ErrorView::NotFound(id),
        fleet.enrolled(serial) <==> exists|d: Seq<char>| #[trigger]
            fleet.devices.contains_key(d) && fleet.devices[d].serial == serial,
{
    if fleet.enrolled(serial) {
        let d = choose|d: Seq<char>| fleet.is_device(d, serial);
        assert(fleet.devices.contains_key(d));
    }
    if exists|d: Seq<char>| #[trigger]
        fleet.devices.contains_key(d) && fleet.devices[d].serial == serial {
        let d = choose|d: Seq<char>| #[trigger]
            fleet.devices.contains_key(d) && fleet.devices[d].serial == serial;
        assert(fleet.is_device(d, serial));
    }
}

/// Setting the status of a device changes its status, and nothing else of it nor of any other
/// record; of a device that is not there nothing is recorded.
pub proof fn only_the_status_is_set(
    fleet: FleetView,
    id: Seq<char>,
    status: Seq<char>,
    other: Seq<char>,
)
    requires
        fleet.wf(),
    ensures
        ({
            let after = fleet.after_status(id, status);
            &&& after.manifest == fleet.manifest && after.serials == fleet.serials
            &&& after.devices.contains_key(other) == fleet.devices.contains_key(other)
            &&& other != id ==> after.devices[other] == fleet.devices[other]
            &&& fleet.devices.contains_key(id) ==> {
                let (a, b) = (after.devices[id], fleet.devices[id]);
                &&& a.status == status
                &&& a.id == b.id && a.serial == b.serial
                &&& a.model == b.model && a.firmware == b.firmware
                &&& a.operational_cert_pem == b.operational_cert_pem
                &&& a.enrolled_at == b.enrolled_at && a.last_seen_at == b.last_seen_at
            }
        }),
{
}

/// To see a device changes when it was last seen, and nothing else of it nor of any other
/// record; of a device that is not there nothing is recorded.
pub proof fn only_the_last_sighting_is_set(
    fleet: FleetView,
    id: Seq<char>,
    now: i64,
    other: Seq<char>,
)
    requires
        fleet.wf(),
    ensures
        ({
            let after = fleet.after_touch(id, now);
            &&& after.manifest == fleet.manifest && after.serials == fleet.serials
            &&& after.devices.contains_key(other) == fleet.devices.contains_key(other)
            &&& other != id ==> after.devices[other] == fleet.devices[other]
            &&& fleet.devices.contains_key(id) ==> {
                let (a, b) = (after.devices[id], fleet.devices[id]);
                &&& a.last_seen_at == now
                &&& a.id == b.id && a.serial == b.serial
                &&& a.model == b.model && a.firmware == b.firmware && a.status == b.status
                &&& a.operational_cert_pem == b.operational_cert_pem
                &&& a.enrolled_at == b.enrolled_at
            }
        }),
{
}

/// To register a serial makes it ready to be claimed, unless a device with it is enrolled, in
/// which case nothing changes. A new serial is registered for the model given, and one that was
/// there keeps its own. No other record changes.
pub proof fn registered_serials_are_ready(
    fleet: FleetView,
    serial: Seq<char>,
    model: Seq<char>,
    other: Seq<char>,
)
    requires
        fleet.wf(),
    ensures
        ({
            let after = fleet.after_register(serial, model);
            &&& after.manifest == fleet.manifest && after.devices == fleet.devices
            &&& other != serial ==> after.serials.contains_key(other)
                == fleet.serials.contains_key(other)
            &&& other != serial ==> after.serials[other] == fleet.serials[other]
            &&& after.serials.contains_key(serial)
            &&& after.serials[serial].serial == serial
            &&& fleet.serials.contains_key(serial) ==> after.serials[serial].model
                == fleet.serials[serial].model
            &&& !fleet.serials.contains_key(serial) ==> after.serials[serial].model == model
            &&& !fleet.serials.contains_key(serial) || !(exists|d: Seq<char>| #[trigger]
                fleet.devices.contains_key(d) && fleet.devices[d].serial == serial)
                ==> !after.serials[serial].claimed
            &&& fleet.serials.contains_key(serial) && (exists|d: Seq<char>| #[trigger]
                fleet.devices.contains_key(d) && fleet.devices[d].serial == serial) ==> after
                == fleet
        }),
{
    devices_are_found_by_identifier(fleet, serial, serial);
}

/// A claim succeeds exactly where the serial is registered and not claimed; it is answered
/// with the serial and the model that it was registered for, and from then on the serial is
/// claimed. Otherwise the refusal says which of the two was missing, and nothing changes. No
/// other record ever changes.
pub proof fn claims_take_a_registered_serial(fleet: FleetView, serial: Seq<char>, other: Seq<char>)
    requires
        fleet.wf(),
    ensures
        ({
            let after = fleet.after_claim(serial);
            &&& after.manifest == fleet.manifest && after.devices == fleet.devices
            &&& after.serials.contains_key(other) == fleet.serials.contains_key(other)
            &&& other != serial ==> after.serials[other] == fleet.serials[other]
            &&& !fleet.serials.contains_key(serial) ==> fleet.claim_outcome(serial) == Err::<
                PreEnrollmentView,
                ErrorView,
            >(ErrorView::NotPreEnrolled(serial)) && after == fleet
            &&& fleet.serials.contains_key(serial) && fleet.serials[serial].claimed
                ==> fleet.claim_outcome(serial) == Err::<PreEnrollmentView, ErrorView>(
                ErrorView::SerialAlreadyClaimed(serial),
            ) && after == fleet
            &&& fleet.serials.contains_key(serial) && !fleet.serials[serial].claimed ==> {
                &&& fleet.claim_outcome(serial) matches Ok(pre) && pre.serial == serial && pre.model
                    == fleet.serials[serial].model
                &&& after.serials[serial].claimed
                &&& after.serials[serial].serial == serial
                &&& after.serials[serial].model == fleet.serials[serial].model
            }
        }),
{
}

/// A seeded entry holds the serial, the model and the token given, and its token is unused; an
/// entry that was there stays as it was. No other record changes.
pub proof fn seeded_entries_hold_what_was_given(
    fleet: FleetView,
    serial: Seq<char>,
    model: Seq<char>,
    token: Seq<char>,
    other: Seq<char>,
)
    ensures
        ({
            let after = fleet.after_seed(serial, model, token);
            &&& after.serials == fleet.serials && after.devices == fleet.devices
            &&& other != serial ==> after.manifest.contains_key(other)
                == fleet.manifest.contains_key(other)
            &&& other != serial ==> after.manifest[other] == fleet.manifest[other]
            &&& after.manifest.contains_key(serial)
            &&& fleet.manifest.contains_key(serial) ==> after.manifest[serial]
                == fleet.manifest[serial]
            &&& !fleet.manifest.contains_key(serial) ==> {
                &&& after.manifest[serial].serial == serial
                &&& after.manifest[serial].model == model
                &&& after.manifest[serial].token == token
                &&& after.manifest[serial].provisioned_at is None
            }
        }),
{
}

/// A token serves exactly where the serial is in the manifest, the token is the one there, and
/// it was not used before; it is answered with the model in the manifest. From then on it is
/// used, since the time given, and the serial is registered for that model and unclaimed,
/// unless it was registered before. Otherwise the refusal says what was wrong, and nothing
/// changes.
pub proof fn tokens_serve_their_serial(
    fleet: FleetView,
    serial: Seq<char>,
    token: Seq<char>,
    now: i64,
    other: Seq<char>,
)
    requires
        fleet.wf(),
    ensures
        ({
            let after = fleet.after_token(serial, token, now);
            let known = fleet.manifest.contains_key(serial);
            let entry = fleet.manifest[serial];
            let outcome = fleet.token_outcome(serial, token);
            &&& after.devices == fleet.devices
            &&& other != serial ==> after.manifest.contains_key(other)
                == fleet.manifest.contains_key(other) && after.manifest[other]
                == fleet.manifest[other] && after.serials.contains_key(other)
                == fleet.serials.contains_key(other) && after.serials[other]
                == fleet.serials[other]
            &&& !known ==> outcome == Err::<Seq<char>, ErrorView>(
                ErrorView::NotInManifest(serial),
            )
            &&& known && entry.token != token ==> outcome == Err::<Seq<char>, ErrorView>(
                ErrorView::InvalidProvisionToken(serial),
            )
            &&& known && entry.token == token && entry.provisioned_at is Some ==> outcome == Err::<
                Seq<char>,
                ErrorView,
            >(ErrorView::AlreadyProvisioned(serial))
            &&& outcome is Err ==> after == fleet
            &&& known && entry.token == token && entry.provisioned_at is None ==> {
                &&& outcome == Ok::<Seq<char>, ErrorView>(entry.model)
                &&& after.manifest.contains_key(serial)
                &&& after.manifest[serial].provisioned_at == Some(now)
                &&& after.manifest[serial].token == token
                &&& after.manifest[serial].model == entry.model
                &&& after.manifest[serial].serial == serial
                &&& after.serials.contains_key(serial)
                &&& fleet.serials.contains_key(serial) ==> after.serials[serial]
                    == fleet.serials[serial]
                &&& !fleet.serials.contains_key(serial) ==> after.serials[serial].serial == serial
                    && after.serials[serial].model == entry.model
                    && !after.serials[serial].claimed
            }
        }),
{
}

/// Records that are well-formed tell devices apart by their identifiers and by their serials,
/// and each record stands under the key that it names.
pub proof fn records_are_told_apart(fleet: FleetView, a: Seq<char>, b: Seq<char>)
    requires
        fleet.wf(),
    ensures
        fleet.devices.contains_key(a) ==> fleet.devices[a].id == a,
        fleet.serials.contains_key(a) ==> fleet.serials[a].serial == a,
        fleet.manifest.contains_key(a) ==> fleet.manifest[a].serial == a,
        fleet.devices.contains_key(a) && fleet.devices.contains_key(b) && fleet.devices[a].serial
            == fleet.devices[b].serial ==> a == b,
{
}

/// A page without a positive limit: zero and minus one stand for no device; less than that for
/// all but the last, and then the cursor is the identifier of the last one shown.
pub proof fn pages_without_a_limit(all: Seq<DeviceView>, limit: i64)
    requires
        limit <= 0,
    ensures
        limit == 0 || limit == -1 ==> store::page(all, limit).0.len() == 0 && store::page(
            all,
            limit,
        ).1 is None,
        limit < -1 && all.len() <= 1 ==> store::page(all, limit).0.len() == 0 && store::page(
            all,
            limit,
        ).1 is None,
        limit < -1 && all.len() > 1 ==> store::page(all, limit) == (
            all.take(all.len() - 1),
            Some(all[all.len() - 2].id),
        ),
{
    if limit < -1 && all.len() > 1 {
        assert(all.drop_last() =~= all.take(all.len() - 1));
    }
}

} // verus!
