//! The records of the fleet: the factory manifest, the serials that may enrol, and the
//! devices that did.

use vstd::prelude::*;

use crate::device::error::Error;
use crate::device::error::ErrorView;
use crate::keyed;
use crate::keyed::{are_keys_unique, find, Row};
use crate::selection;
use crate::selection::{bounded, select, Query};
use crate::sources;
use crate::sources::{new_uuid, unix_now};
use crate::text;
use crate::text::{is_text_less, same_text};

verus! {

/// A device that asks to be recorded.
pub struct NewDevice {
    pub serial: String,
    pub model: String,
    pub firmware: String,
    pub operational_cert_pem: String,
}

/// An enrolled device.
#[derive(Debug)]
pub struct DeviceRecord {
    pub id: String,
    pub serial: String,
    pub model: String,
    pub firmware: String,
    pub status: String,
    pub operational_cert_pem: String,
    pub enrolled_at: i64,
    pub last_seen_at: i64,
}

/// What a [`DeviceRecord`] says.
#[verifier::ext_equal]
pub struct DeviceView {
    pub id: Seq<char>,
    pub serial: Seq<char>,
    pub model: Seq<char>,
    pub firmware: Seq<char>,
    pub status: Seq<char>,
    pub operational_cert_pem: Seq<char>,
    pub enrolled_at: i64,
    pub last_seen_at: i64,
}

impl View for DeviceRecord {
    type V = DeviceView;

    open spec fn view(&self) -> DeviceView {
        DeviceView {
            id: self.id@,
            serial: self.serial@,
            model: self.model@,
            firmware: self.firmware@,
            status: self.status@,
            operational_cert_pem: self.operational_cert_pem@,
            enrolled_at: self.enrolled_at,
            last_seen_at: self.last_seen_at,
        }
    }
}

impl Clone for DeviceRecord {
    fn clone(&self) -> (r: DeviceRecord)
        ensures
            r == *self,
    {
        DeviceRecord {
            id: self.id.clone(),
            serial: self.serial.clone(),
            model: self.model.clone(),
            firmware: self.firmware.clone(),
            status: self.status.clone(),
            operational_cert_pem: self.operational_cert_pem.clone(),
            enrolled_at: self.enrolled_at,
            last_seen_at: self.last_seen_at,
        }
    }
}

impl Row for DeviceRecord {
    open spec fn key(row: DeviceView) -> Seq<char> {
        row.id
    }

    fn key_text(&self) -> (r: &str) {
        self.id.as_str()
    }
}

/// A serial that was just claimed, with the model that it was registered for.
#[derive(Debug)]
pub struct PreEnrollmentRecord {
    pub serial: String,
    pub model: String,
}

/// What a [`PreEnrollmentRecord`] says.
#[verifier::ext_equal]
pub struct PreEnrollmentView {
    pub serial: Seq<char>,
    pub model: Seq<char>,
}

impl View for PreEnrollmentRecord {
    type V = PreEnrollmentView;

    open spec fn view(&self) -> PreEnrollmentView {
        PreEnrollmentView { serial: self.serial@, model: self.model@ }
    }
}

impl Clone for PreEnrollmentRecord {
    fn clone(&self) -> (r: PreEnrollmentRecord)
        ensures
            r == *self,
    {
        PreEnrollmentRecord { serial: self.serial.clone(), model: self.model.clone() }
    }
}

/// A serial that may enrol, or has used up its right to.
#[derive(Debug)]
pub struct SerialRow {
    pub serial: String,
    pub model: String,
    pub claimed: bool,
}

/// What a [`SerialRow`] says.
#[verifier::ext_equal]
pub struct SerialView {
    pub serial: Seq<char>,
    pub model: Seq<char>,
    pub claimed: bool,
}

impl View for SerialRow {
    type V = SerialView;

    open spec fn view(&self) -> SerialView {
        SerialView { serial: self.serial@, model: self.model@, claimed: self.claimed }
    }
}

impl Row for SerialRow {
    open spec fn key(row: SerialView) -> Seq<char> {
        row.serial
    }

    fn key_text(&self) -> (r: &str) {
        self.serial.as_str()
    }
}

/// An entry of the factory manifest: a serial, its model and its one-time token, and when
/// the token was used, in seconds since 1970.
#[derive(Debug)]
pub struct ManifestRow {
    pub serial: String,
    pub model: String,
    pub token: String,
    pub provisioned_at: Option<i64>,
}

/// What a [`ManifestRow`] says.
#[verifier::ext_equal]
pub struct ManifestView {
    pub serial: Seq<char>,
    pub model: Seq<char>,
    pub token: Seq<char>,
    pub provisioned_at: Option<i64>,
}

impl View for ManifestRow {
    type V = ManifestView;

    open spec fn view(&self) -> ManifestView {
        ManifestView {
            serial: self.serial@,
            model: self.model@,
            token: self.token@,
            provisioned_at: self.provisioned_at,
        }
    }
}

impl Row for ManifestRow {
    open spec fn key(row: ManifestView) -> Seq<char> {
        row.serial
    }

    fn key_text(&self) -> (r: &str) {
        self.serial.as_str()
    }
}

/// The records of the fleet: manifest entries and registered serials by serial, devices by
/// identifier.
#[verifier::ext_equal]
pub struct FleetView {
    pub manifest: Map<Seq<char>, ManifestView>,
    pub serials: Map<Seq<char>, SerialView>,
    pub devices: Map<Seq<char>, DeviceView>,
}

impl FleetView {
    /// Every record stands under its own key, there are finitely many devices, and no two of
    /// them have the same serial.
    pub open spec fn wf(self) -> bool {
        &&& self.devices.dom().finite()
        &&& forall|s: Seq<char>| #[trigger]
            self.manifest.contains_key(s) ==> self.manifest[s].serial == s
        &&& forall|s: Seq<char>| #[trigger]
            self.serials.contains_key(s) ==> self.serials[s].serial == s
        &&& forall|id: Seq<char>| #[trigger]
            self.devices.contains_key(id) ==> self.devices[id].id == id
        &&& forall|a: Seq<char>, b: Seq<char>|
            #![trigger self.devices.contains_key(a), self.devices.contains_key(b)]
            self.devices.contains_key(a) && self.devices.contains_key(b) && a != b
                ==> self.devices[a].serial != self.devices[b].serial
    }

    /// The device `id` exists and has the serial `serial`.
    pub open spec fn is_device(self, id: Seq<char>, serial: Seq<char>) -> bool {
        self.devices.contains_key(id) && self.devices[id].serial == serial
    }

    /// A device with the serial `serial` exists.
    pub open spec fn enrolled(self, serial: Seq<char>) -> bool {
        exists|id: Seq<char>| self.is_device(id, serial)
    }

    /// What [`DeviceStore::get_device`] answers.
    pub open spec fn device_outcome(self, id: Seq<char>) -> Result<DeviceView, ErrorView> {
        if self.devices.contains_key(id) {
            Ok(self.devices[id])
        } else {
            Err(ErrorView::NotFound(id))
        }
    }

    /// The records after a device's status was set, where the device exists.
    pub open spec fn after_status(self, id: Seq<char>, status: Seq<char>) -> FleetView {
        if self.devices.contains_key(id) {
            self.with_device(DeviceView { status, ..self.devices[id] })
        } else {
            self
        }
    }

    /// The records after a device was seen at the time `now`, where the device exists.
    pub open spec fn after_touch(self, id: Seq<char>, now: i64) -> FleetView {
        if self.devices.contains_key(id) {
            self.with_device(DeviceView { last_seen_at: now, ..self.devices[id] })
        } else {
            self
        }
    }

    /// The records after a serial was registered. A serial that is there already keeps its
    /// model; a claim on it is given back unless a device with the serial is enrolled.
    pub open spec fn after_register(self, serial: Seq<char>, model: Seq<char>) -> FleetView {
        if !self.serials.contains_key(serial) {
            self.with_serial(SerialView { serial, model, claimed: false })
        } else if !self.enrolled(serial) {
            self.with_serial(SerialView { claimed: false, ..self.serials[serial] })
        } else {
            self
        }
    }

    /// What [`DeviceStore::lookup_and_claim`] answers.
    pub open spec fn claim_outcome(self, serial: Seq<char>) -> Result<
        PreEnrollmentView,
        ErrorView,
    > {
        if !self.serials.contains_key(serial) {
            Err(ErrorView::NotPreEnrolled(serial))
        } else if self.serials[serial].claimed {
            Err(ErrorView::SerialAlreadyClaimed(serial))
        } else {
            Ok(PreEnrollmentView { serial, model: self.serials[serial].model })
        }
    }

    /// The records after an attempt to claim a serial.
    pub open spec fn after_claim(self, serial: Seq<char>) -> FleetView {
        if self.claim_outcome(serial) is Ok {
            self.with_serial(SerialView { claimed: true, ..self.serials[serial] })
        } else {
            self
        }
    }

    /// The records after a manifest entry was seeded. One that is there already stays.
    pub open spec fn after_seed(
        self,
        serial: Seq<char>,
        model: Seq<char>,
        token: Seq<char>,
    ) -> FleetView {
        if self.manifest.contains_key(serial) {
            self
        } else {
            self.with_entry(ManifestView { serial, model, token, provisioned_at: None })
        }
    }

    /// What [`DeviceStore::claim_manifest_entry`] answers.
    pub open spec fn token_outcome(self, serial: Seq<char>, token: Seq<char>) -> Result<
        Seq<char>,
        ErrorView,
    > {
        if !self.manifest.contains_key(serial) {
            Err(ErrorView::NotInManifest(serial))
        } else if self.manifest[serial].token != token {
            Err(ErrorView::InvalidProvisionToken(serial))
        } else if self.manifest[serial].provisioned_at is Some {
            Err(ErrorView::AlreadyProvisioned(serial))
        } else {
            Ok(self.manifest[serial].model)
        }
    }

    /// The records after an attempt to use a token at the time `now`. Where it succeeds, the
    /// serial is registered too, unless it was before.
    pub open spec fn after_token(
        self,
        serial: Seq<char>,
        token: Seq<char>,
        now: i64,
    ) -> FleetView {
        if self.token_outcome(serial, token) is Ok {
            let used = self.with_entry(
                ManifestView { provisioned_at: Some(now), ..self.manifest[serial] },
            );
            if self.serials.contains_key(serial) {
                used
            } else {
                used.with_serial(
                    SerialView { serial, model: self.manifest[serial].model, claimed: false },
                )
            }
        } else {
            self
        }
    }

    /// The records with the device `d` added, or in place of the one with its identifier.
    pub open spec fn with_device(self, d: DeviceView) -> FleetView {
        FleetView { devices: self.devices.insert(d.id, d), ..self }
    }

    /// The records with the registered serial `s` added, or in place of the one there was.
    pub open spec fn with_serial(self, s: SerialView) -> FleetView {
        FleetView { serials: self.serials.insert(s.serial, s), ..self }
    }

    /// The records with the manifest entry `m` added, or in place of the one there was.
    pub open spec fn with_entry(self, m: ManifestView) -> FleetView {
        FleetView { manifest: self.manifest.insert(m.serial, m), ..self }
    }
}

/// Which devices to list: those of a model, those with a status, those whose identifier
/// comes after another.
#[verifier::ext_equal]
pub struct DeviceFilter {
    pub model: Option<Seq<char>>,
    pub status: Option<Seq<char>>,
    pub after: Option<Seq<char>>,
}

/// The characters of a text, where there is one.
pub open spec fn text_view(text: Option<String>) -> Option<Seq<char>> {
    match text {
        Some(t) => Some(t@),
        None => None,
    }
}

impl DeviceFilter {
    /// The device `d` is to be listed.
    pub open spec fn accepts(self, d: DeviceView) -> bool {
        &&& self.model matches Some(m) ==> d.model == m
        &&& self.status matches Some(s) ==> d.status == s
        &&& self.after matches Some(c) ==> text::text_less(c, d.id)
    }

    /// The same devices, but only those whose identifier comes after `id`.
    pub open spec fn from_id(self, id: Seq<char>) -> DeviceFilter {
        DeviceFilter { after: Some(id), ..self }
    }
}

/// `list` holds the devices that the filter accepts, each once, in the order of their
/// identifiers.
pub open spec fn is_listing(fleet: FleetView, filter: DeviceFilter, list: Seq<DeviceView>) -> bool {
    &&& selection::in_order(list, |a: DeviceView, b: DeviceView| text::text_less(a.id, b.id))
    &&& forall|i: int| #![trigger list[i]]
        0 <= i < list.len() ==> fleet.devices.contains_key(list[i].id)
            && fleet.devices[list[i].id] == list[i] && filter.accepts(list[i])
    &&& forall|id: Seq<char>| #[trigger]
        fleet.devices.contains_key(id) && filter.accepts(fleet.devices[id]) ==> list.contains(
            fleet.devices[id],
        )
}

/// The devices that the filter accepts, in the order of their identifiers.
pub open spec fn listing(fleet: FleetView, filter: DeviceFilter) -> Seq<DeviceView> {
    choose|list: Seq<DeviceView>| is_listing(fleet, filter, list)
}

/// There is only one listing.
pub proof fn lemma_listing(fleet: FleetView, filter: DeviceFilter, list: Seq<DeviceView>)
    requires
        is_listing(fleet, filter, list),
        fleet.wf(),
    ensures
        listing(fleet, filter) == list,
{
    let other = listing(fleet, filter);
    assert(is_listing(fleet, filter, other));
    let before = |a: DeviceView, b: DeviceView| text::text_less(a.id, b.id);
    assert forall|x: DeviceView, y: DeviceView| #[trigger] before(x, y) implies !before(y, x) by {
        if before(y, x) {
            text::text_less_transitive(x.id, y.id, x.id);
            text::text_less_irreflexive(x.id);
        }
    }
    assert forall|x: DeviceView| list.contains(x) <==> other.contains(x) by {
        if list.contains(x) {
            let i = choose|i: int| 0 <= i < list.len() && list[i] == x;
            assert(fleet.devices.contains_key(list[i].id));
        }
        if other.contains(x) {
            let i = choose|i: int| 0 <= i < other.len() && other[i] == x;
            assert(fleet.devices.contains_key(other[i].id));
        }
    }
    selection::lemma_order_unique(other, list, before);
}

/// The devices that a filter accepts can be listed.
pub proof fn lemma_listing_exists(fleet: FleetView, filter: DeviceFilter)
    requires
        fleet.wf(),
    ensures
        is_listing(fleet, filter, listing(fleet, filter)),
{
    let wanted = Set::new(
        |id: Seq<char>| fleet.devices.contains_key(id) && filter.accepts(fleet.devices[id]),
    );
    vstd::set_lib::lemma_set_subset_finite(fleet.devices.dom(), wanted);
    let less = |a: Seq<char>, b: Seq<char>| text::text_less(a, b);
    assert forall|x: Seq<char>, y: Seq<char>, z: Seq<char>|
        #[trigger] less(x, y) && #[trigger] less(y, z) implies less(x, z) by {
        text::text_less_transitive(x, y, z);
    }
    assert forall|x: Seq<char>, y: Seq<char>|
        #![trigger wanted.contains(x), wanted.contains(y)]
        wanted.contains(x) && wanted.contains(y) && x != y implies less(x, y) || less(y, x) by {
        text::text_less_total(x, y);
    }
    let ids = selection::lemma_order_exists(wanted, less);
    let list = ids.map_values(|id: Seq<char>| fleet.devices[id]);
    assert forall|i: int| #![trigger list[i]] 0 <= i < list.len() implies {
        &&& fleet.devices.contains_key(list[i].id)
        &&& fleet.devices[list[i].id] == list[i]
        &&& filter.accepts(list[i])
    } by {
        assert(ids.contains(ids[i]));
    }
    assert forall|id: Seq<char>| #[trigger]
        fleet.devices.contains_key(id) && filter.accepts(
            fleet.devices[id],
        ) implies list.contains(fleet.devices[id]) by {
        assert(ids.contains(id));
        let i = choose|i: int| 0 <= i < ids.len() && ids[i] == id;
        assert(list[i] == fleet.devices[id]);
    }
    assert forall|a: int, b: int| 0 <= a < b < list.len() implies text::text_less(
        (#[trigger] list[a]).id,
        (#[trigger] list[b]).id,
    ) by {
        assert(ids.contains(ids[a]) && ids.contains(ids[b]));
        assert(less(ids[a], ids[b]));
    }
    assert(is_listing(fleet, filter, list));
}

/// The page of `limit` devices with which a listing starts, and the identifier after which
/// the next page starts. One device more than the page takes is read, to see whether there
/// is another page; where there is, it is left for that page, and the identifier is that of
/// the last device shown.
pub open spec fn page(all: Seq<DeviceView>, limit: i64) -> (Seq<DeviceView>, Option<Seq<char>>) {
    let read = selection::at_most(all, limit + 1);
    if read.len() > limit {
        let shown = if read.len() == 0 { read } else { read.drop_last() };
        (
            shown,
            if shown.len() == 0 {
                None
            } else {
                Some(shown.last().id)
            },
        )
    } else {
        (read, None)
    }
}

/// The devices of a table to be listed.
struct DeviceQuery<'a> {
    rows: &'a Vec<DeviceRecord>,
    model: &'a Option<String>,
    status: &'a Option<String>,
    cursor: &'a Option<String>,
}

impl<'a> DeviceQuery<'a> {
    spec fn filter(&self) -> DeviceFilter {
        DeviceFilter {
            model: text_view(*self.model),
            status: text_view(*self.status),
            after: text_view(*self.cursor),
        }
    }
}

impl<'a> Query for DeviceQuery<'a> {
    closed spec fn size(&self) -> nat {
        self.rows@.len()
    }

    closed spec fn wants(&self, i: int) -> bool {
        self.filter().accepts(self.rows@[i]@)
    }

    closed spec fn before(&self, i: int, j: int) -> bool {
        ||| text::text_less(self.rows@[i].id@, self.rows@[j].id@)
        ||| self.rows@[i].id@ == self.rows@[j].id@ && i < j
    }

    proof fn order(&self, i: int, j: int, k: int) {
        let (a, b, c) = (self.rows@[i].id@, self.rows@[j].id@, self.rows@[k].id@);
        text::text_less_irreflexive(a);
        if text::text_less(a, b) && text::text_less(b, c) {
            text::text_less_transitive(a, b, c);
        }
        if a != b {
            text::text_less_total(a, b);
        }
    }

    fn row_count(&self) -> (r: usize) {
        self.rows.len()
    }

    fn is_wanted(&self, i: usize) -> (r: bool) {
        let row = &self.rows[i];
        match self.model {
            Some(m) => {
                if !same_text(row.model.as_str(), m.as_str()) {
                    return false;
                }
            },
            None => {},
        }
        match self.status {
            Some(s) => {
                if !same_text(row.status.as_str(), s.as_str()) {
                    return false;
                }
            },
            None => {},
        }
        match self.cursor {
            Some(c) => is_text_less(c.as_str(), row.id.as_str()),
            None => true,
        }
    }

    fn is_before(&self, i: usize, j: usize) -> (r: bool) {
        let (a, b) = (self.rows[i].id.as_str(), self.rows[j].id.as_str());
        is_text_less(a, b) || (i < j && same_text(a, b))
    }
}

/// The records of the fleet.
pub struct DeviceStore {
    manifest: Vec<ManifestRow>,
    serials: Vec<SerialRow>,
    devices: Vec<DeviceRecord>,
}

impl View for DeviceStore {
    type V = FleetView;

    closed spec fn view(&self) -> FleetView {
        FleetView {
            manifest: keyed::by_key::<ManifestRow>(keyed::views(self.manifest@)),
            serials: keyed::by_key::<SerialRow>(keyed::views(self.serials@)),
            devices: keyed::by_key::<DeviceRecord>(keyed::views(self.devices@)),
        }
    }
}

/// No two devices have the same serial.
pub open spec fn serials_unique(devices: Seq<DeviceView>) -> bool {
    forall|i: int, j: int|
        0 <= i < devices.len() && 0 <= j < devices.len() && i != j
            ==> (#[trigger] devices[i]).serial != (#[trigger] devices[j]).serial
}

/// A device as it is first recorded.
pub open spec fn fresh_device(d: NewDevice, id: Seq<char>, now: i64) -> DeviceView {
    DeviceView {
        id,
        serial: d.serial@,
        model: d.model@,
        firmware: d.firmware@,
        status: "active"@,
        operational_cert_pem: d.operational_cert_pem@,
        enrolled_at: now,
        last_seen_at: now,
    }
}

impl DeviceStore {
    /// The keys of each table are unique, and so are the serials of the devices.
    pub closed spec fn wf(&self) -> bool {
        &&& keyed::keys_unique::<ManifestRow>(keyed::views(self.manifest@))
        &&& keyed::keys_unique::<SerialRow>(keyed::views(self.serials@))
        &&& keyed::keys_unique::<DeviceRecord>(keyed::views(self.devices@))
        &&& serials_unique(keyed::views(self.devices@))
    }

    /// What well-formed tables say is well-formed.
    pub proof fn lemma_wf(&self)
        requires
            self.wf(),
        ensures
            self@.wf(),
    {
        let m = keyed::views(self.manifest@);
        let s = keyed::views(self.serials@);
        let d = keyed::views(self.devices@);
        keyed::lemma_count::<DeviceRecord>(d);
        assert forall|k: Seq<char>| #[trigger]
            self@.manifest.contains_key(k) implies self@.manifest[k].serial == k by {
            let i = keyed::lemma_held::<ManifestRow>(m, k);
        }
        assert forall|k: Seq<char>| #[trigger]
            self@.serials.contains_key(k) implies self@.serials[k].serial == k by {
            let i = keyed::lemma_held::<SerialRow>(s, k);
        }
        assert forall|k: Seq<char>| #[trigger]
            self@.devices.contains_key(k) implies self@.devices[k].id == k by {
            let i = keyed::lemma_held::<DeviceRecord>(d, k);
        }
        assert forall|a: Seq<char>, b: Seq<char>|
            #![trigger self@.devices.contains_key(a), self@.devices.contains_key(b)]
            self@.devices.contains_key(a) && self@.devices.contains_key(b) && a
                != b implies self@.devices[a].serial != self@.devices[b].serial by {
            let i = keyed::lemma_held::<DeviceRecord>(d, a);
            let j = keyed::lemma_held::<DeviceRecord>(d, b);
            assert(d[i].serial != d[j].serial);
        }
    }

    /// The device in row `i` is enrolled.
    proof fn lemma_row_enrolled(&self, i: int)
        requires
            self.wf(),
            0 <= i < self.devices@.len(),
        ensures
            self@.is_device(self.devices@[i].id@, self.devices@[i].serial@),
            self@.devices[self.devices@[i].id@] == self.devices@[i]@,
    {
        assert(keyed::views(self.devices@)[i] == self.devices@[i]@);
        keyed::lemma_found::<DeviceRecord>(keyed::views(self.devices@), i);
    }

    /// Records without any.
    pub fn new() -> (r: DeviceStore)
        ensures
            r.wf(),
            r@ == (FleetView {
                manifest: Map::empty(),
                serials: Map::empty(),
                devices: Map::empty(),
            }),
    {
        let r = DeviceStore { manifest: Vec::new(), serials: Vec::new(), devices: Vec::new() };
        assert(r@.manifest =~= Map::empty());
        assert(r@.serials =~= Map::empty());
        assert(r@.devices =~= Map::empty());
        r
    }

    /// The records in three tables; none, where a key stands twice in its table or two
    /// devices have the same serial.
    pub fn load(
        manifest: Vec<ManifestRow>,
        serials: Vec<SerialRow>,
        devices: Vec<DeviceRecord>,
    ) -> (r: Option<DeviceStore>)
        ensures
            match r {
                Some(store) => {
                    &&& store.wf()
                    &&& store@.manifest == keyed::by_key::<ManifestRow>(keyed::views(manifest@))
                    &&& store@.serials == keyed::by_key::<SerialRow>(keyed::views(serials@))
                    &&& store@.devices == keyed::by_key::<DeviceRecord>(keyed::views(devices@))
                },
                None => {
                    ||| !keyed::keys_unique::<ManifestRow>(keyed::views(manifest@))
                    ||| !keyed::keys_unique::<SerialRow>(keyed::views(serials@))
                    ||| !keyed::keys_unique::<DeviceRecord>(keyed::views(devices@))
                    ||| !serials_unique(keyed::views(devices@))
                },
            },
    {
        if !are_keys_unique(&manifest) || !are_keys_unique(&serials) || !are_keys_unique(
            &devices,
        ) {
            return None;
        }
        let ghost said = keyed::views(devices@);
        let mut i: usize = 0;
        while i < devices.len()
            invariant
                i <= devices.len(),
                said == keyed::views(devices@),
                forall|a: int, b: int|
                    0 <= a < b < i ==> (#[trigger] said[a]).serial != (#[trigger] said[b]).serial,
            decreases devices.len() - i,
        {
            let mut j: usize = 0;
            while j < i
                invariant
                    j <= i < devices.len(),
                    said == keyed::views(devices@),
                    forall|a: int|
                        0 <= a < j ==> (#[trigger] said[a]).serial != said[i as int].serial,
                decreases i - j,
            {
                if same_text(devices[j].serial.as_str(), devices[i].serial.as_str()) {
                    assert(said[j as int].serial == said[i as int].serial);
                    return None;
                }
                j = j + 1;
            }
            i = i + 1;
        }
        Some(DeviceStore { manifest, serials, devices })
    }

    /// The factory manifest.
    pub fn manifest_rows(&self) -> (r: &Vec<ManifestRow>)
        ensures
            keyed::by_key::<ManifestRow>(keyed::views(r@)) == self@.manifest,
    {
        &self.manifest
    }

    /// The registered serials.
    pub fn serial_rows(&self) -> (r: &Vec<SerialRow>)
        ensures
            keyed::by_key::<SerialRow>(keyed::views(r@)) == self@.serials,
    {
        &self.serials
    }

    /// The enrolled devices.
    pub fn device_rows(&self) -> (r: &Vec<DeviceRecord>)
        ensures
            keyed::by_key::<DeviceRecord>(keyed::views(r@)) == self@.devices,
    {
        &self.devices
    }

    /// Where the device with a serial stands.
    fn find_serial(&self, serial: &str) -> (r: Option<usize>)
        requires
            self.wf(),
        ensures
            match r {
                Some(i) => i < self.devices@.len() && self.devices@[i as int].serial@ == serial@
                    && self@.enrolled(serial@),
                None => !self@.enrolled(serial@),
            },
    {
        let mut i: usize = 0;
        while i < self.devices.len()
            invariant
                i <= self.devices.len(),
                self.wf(),
                forall|j: int| 0 <= j < i ==> (#[trigger] self.devices@[j]).serial@ != serial@,
            decreases self.devices.len() - i,
        {
            if same_text(self.devices[i].serial.as_str(), serial) {
                proof {
                    self.lemma_row_enrolled(i as int);
                }
                return Some(i);
            }
            i = i + 1;
        }
        proof {
            if self@.enrolled(serial@) {
                let id = choose|id: Seq<char>| self@.is_device(id, serial@);
                let j = keyed::lemma_held::<DeviceRecord>(keyed::views(self.devices@), id);
                assert(self.devices@[j].serial@ == serial@);
            }
        }
        None
    }

    /// Records a device under the identifier `id` at the time `now`.
    pub fn create_device_as(&mut self, d: NewDevice, id: String, now: i64) -> (r: Result<
        DeviceRecord,
        Error,
    >)
        requires
            old(self).wf(),
        ensures
            final(self).wf(),
            match r {
                Ok(record) => {
                    &&& !old(self)@.enrolled(d.serial@)
                    &&& !old(self)@.devices.contains_key(id@)
                    &&& record@ == fresh_device(d, id@, now)
                    &&& record.id@ == id@
                    &&& record.serial@ == d.serial@
                    &&& record.model@ == d.model@
                    &&& record.firmware@ == d.firmware@
                    &&& record.status@ == "active"@
                    &&& record.operational_cert_pem@ == d.operational_cert_pem@
                    &&& record.enrolled_at == now
                    &&& record.last_seen_at == now
                    &&& final(self)@ == old(self)@.with_device(record@)
                },
                Err(e) => {
                    &&& old(self)@.enrolled(d.serial@) || old(self)@.devices.contains_key(id@)
                    &&& e@ == ErrorView::AlreadyEnrolled(d.serial@)
                    &&& final(self)@ == old(self)@
                },
            },
    {
        match self.find_serial(d.serial.as_str()) {
            Some(_) => return Err(Error::AlreadyEnrolled(d.serial)),
            None => {},
        }
        match find(&self.devices, id.as_str()) {
            Some(i) => {
                proof {
                    self.lemma_row_enrolled(i as int);
                }
                return Err(Error::AlreadyEnrolled(d.serial));
            },
            None => {},
        }
        let record = DeviceRecord {
            id,
            serial: d.serial,
            model: d.model,
            firmware: d.firmware,
            status: "active".to_owned(),
            operational_cert_pem: d.operational_cert_pem,
            enrolled_at: now,
            last_seen_at: now,
        };
        let ghost rows = keyed::views(self.devices@);
        proof {
            assert forall|i: int| 0 <= i < rows.len() implies (#[trigger] rows[i]).serial
                != record.serial@ by {
                self.lemma_row_enrolled(i);
            }
            keyed::lemma_push::<DeviceRecord>(rows, record@);
        }
        self.devices.push(record.clone());
        assert(keyed::views(self.devices@) =~= rows.push(record@));
        Ok(record)
    }

    /// Records a device as active from now on, under a fresh identifier.
    pub fn create_device(&mut self, d: NewDevice) -> (r: Result<DeviceRecord, Error>)
        requires
            old(self).wf(),
        ensures
            final(self).wf(),
            old(self)@.enrolled(d.serial@) ==> r is Err,
            match r {
                Ok(record) => {
                    &&& sources::is_uuid_text(record.id@)
                    &&& !old(self)@.devices.contains_key(record.id@)
                    &&& sources::is_reading(record.enrolled_at as int)
                    &&& record@ == fresh_device(d, record.id@, record.enrolled_at)
                    &&& final(self)@ == old(self)@.with_device(record@)
                },
                Err(e) => {
                    &&& old(self)@.enrolled(d.serial@) || exists|id: Seq<char>|
                        sources::is_uuid_text(id) && #[trigger] old(self)@.devices.contains_key(id)
                    &&& e@ == ErrorView::AlreadyEnrolled(d.serial@)
                    &&& final(self)@ == old(self)@
                },
            },
    {
        let id: String = new_uuid();
        let now: i64 = unix_now();
        self.create_device_as(d, id, now)
    }

    /// The device `id`.
    pub fn get_device(&self, id: &str) -> (r: Result<DeviceRecord, Error>)
        requires
            self.wf(),
        ensures
            match r {
                Ok(record) => self@.device_outcome(id@) == Ok::<DeviceView, ErrorView>(record@),
                Err(e) => self@.device_outcome(id@) == Err::<DeviceView, ErrorView>(e@),
            },
            r matches Ok(record) ==> record.id@ == id@,
    {
        match find(&self.devices, id) {
            Some(i) => {
                proof {
                    self.lemma_row_enrolled(i as int);
                }
                Ok(self.devices[i].clone())
            },
            None => Err(Error::NotFound(id.to_owned())),
        }
    }

    /// The device with a serial.
    pub fn get_by_serial(&self, serial: &str) -> (r: Result<DeviceRecord, Error>)
        requires
            self.wf(),
        ensures
            match r {
                Ok(record) => self@.is_device(record.id@, serial@)
                    && self@.devices[record.id@] == record@ && record.serial@ == serial@,
                Err(e) => !self@.enrolled(serial@) && e@ == ErrorView::NotFound(serial@),
            },
    {
        match self.find_serial(serial) {
            Some(i) => {
                proof {
                    self.lemma_row_enrolled(i as int);
                }
                Ok(self.devices[i].clone())
            },
            None => Err(Error::NotFound(serial.to_owned())),
        }
    }

    /// Replaces the device in row `i` by one with the same identifier and serial.
    fn replace_device(&mut self, i: usize, record: DeviceRecord)
        requires
            old(self).wf(),
            i < old(self).devices@.len(),
            record.id@ == old(self).devices@[i as int].id@,
            record.serial@ == old(self).devices@[i as int].serial@,
        ensures
            final(self).wf(),
            final(self)@ == old(self)@.with_device(record@),
    {
        let ghost rows = keyed::views(self.devices@);
        proof {
            assert(rows[i as int] == self.devices@[i as int]@);
            keyed::lemma_update::<DeviceRecord>(rows, i as int, record@);
        }
        self.devices.set(i, record);
        proof {
            let now = keyed::views(self.devices@);
            assert(now =~= rows.update(i as int, record@));
            assert forall|a: int, b: int|
                0 <= a < now.len() && 0 <= b < now.len() && a != b implies (
            #[trigger] now[a]).serial != (#[trigger] now[b]).serial by {
                assert(now[a].serial == rows[a].serial);
                assert(now[b].serial == rows[b].serial);
            }
        }
    }

    /// Sets the status of a device. The reason is for the caller's log.
    pub fn update_status(&mut self, id: &str, status: &str, _reason: &str) -> (r: Result<
        (),
        Error,
    >)
        requires
            old(self).wf(),
        ensures
            final(self).wf(),
            final(self)@ == old(self)@.after_status(id@, status@),
            match r {
                Ok(_) => old(self)@.devices.contains_key(id@),
                Err(e) => !old(self)@.devices.contains_key(id@) && e@ == ErrorView::NotFound(id@),
            },
    {
        match find(&self.devices, id) {
            Some(i) => {
                proof {
                    self.lemma_row_enrolled(i as int);
                }
                let mut record: DeviceRecord = self.devices[i].clone();
                record.status = status.to_owned();
                self.replace_device(i, record);
                Ok(())
            },
            None => Err(Error::NotFound(id.to_owned())),
        }
    }

    /// Notes that a device was seen at the time `now`.
    pub fn touch_last_seen_at(&mut self, id: &str, now: i64) -> (r: Result<(), Error>)
        requires
            old(self).wf(),
        ensures
            final(self).wf(),
            final(self)@ == old(self)@.after_touch(id@, now),
            match r {
                Ok(_) => old(self)@.devices.contains_key(id@),
                Err(e) => !old(self)@.devices.contains_key(id@) && e@ == ErrorView::NotFound(id@),
            },
    {
        match find(&self.devices, id) {
            Some(i) => {
                proof {
                    self.lemma_row_enrolled(i as int);
                }
                let mut record: DeviceRecord = self.devices[i].clone();
                record.last_seen_at = now;
                self.replace_device(i, record);
                Ok(())
            },
            None => Err(Error::NotFound(id.to_owned())),
        }
    }

    /// Notes that a device is seen now.
    pub fn touch_last_seen(&mut self, id: &str) -> (r: Result<(), Error>)
        requires
            old(self).wf(),
        ensures
            final(self).wf(),
            match r {
                Ok(_) => old(self)@.devices.contains_key(id@) && exists|now: i64|
                    sources::is_reading(now as int) && final(self)@ == #[trigger] old(
                        self,
                    )@.after_touch(id@, now),
                Err(e) => !old(self)@.devices.contains_key(id@) && e@ == ErrorView::NotFound(id@)
                    && final(self)@ == old(self)@,
            },
    {
        let now: i64 = unix_now();
        self.touch_last_seen_at(id, now)
    }

    /// Adds a serial, or replaces the one in its row.
    fn put_serial(&mut self, at: Option<usize>, row: SerialRow)
        requires
            old(self).wf(),
            match at {
                Some(i) => keyed::holds_at::<SerialRow>(
                    keyed::views(old(self).serials@),
                    row.serial@,
                    i as int,
                ),
                None => !old(self)@.serials.contains_key(row.serial@),
            },
        ensures
            final(self).wf(),
            final(self)@ == old(self)@.with_serial(row@),
    {
        let ghost rows = keyed::views(self.serials@);
        let ghost said = row@;
        match at {
            Some(i) => {
                proof {
                    keyed::lemma_update::<SerialRow>(rows, i as int, said);
                }
                self.serials.set(i, row);
                assert(keyed::views(self.serials@) =~= rows.update(i as int, said));
            },
            None => {
                proof {
                    keyed::lemma_push::<SerialRow>(rows, said);
                }
                self.serials.push(row);
                assert(keyed::views(self.serials@) =~= rows.push(said));
            },
        }
    }

    /// The serial in row `i`.
    proof fn lemma_serial_row(&self, i: int)
        requires
            self.wf(),
            0 <= i < self.serials@.len(),
        ensures
            self@.serials.contains_key(self.serials@[i].serial@),
            self@.serials[self.serials@[i].serial@] == self.serials@[i]@,
    {
        assert(keyed::views(self.serials@)[i] == self.serials@[i]@);
        keyed::lemma_found::<SerialRow>(keyed::views(self.serials@), i);
    }

    /// The manifest entry in row `i`.
    proof fn lemma_manifest_row(&self, i: int)
        requires
            self.wf(),
            0 <= i < self.manifest@.len(),
        ensures
            self@.manifest.contains_key(self.manifest@[i].serial@),
            self@.manifest[self.manifest@[i].serial@] == self.manifest@[i]@,
    {
        assert(keyed::views(self.manifest@)[i] == self.manifest@[i]@);
        keyed::lemma_found::<ManifestRow>(keyed::views(self.manifest@), i);
    }

    /// Registers a serial, or gives back a claim on it that never led to an enrolment.
    pub fn register_serial(&mut self, serial: &str, model: &str)
        requires
            old(self).wf(),
        ensures
            final(self).wf(),
            final(self)@ == old(self)@.after_register(serial@, model@),
    {
        match find(&self.serials, serial) {
            None => {
                let row = SerialRow {
                    serial: serial.to_owned(),
                    model: model.to_owned(),
                    claimed: false,
                };
                self.put_serial(None, row);
            },
            Some(i) => {
                proof {
                    self.lemma_serial_row(i as int);
                }
                match self.find_serial(serial) {
                    Some(_) => {},
                    None => {
                        let row = SerialRow {
                            serial: self.serials[i].serial.clone(),
                            model: self.serials[i].model.clone(),
                            claimed: false,
                        };
                        self.put_serial(Some(i), row);
                    },
                }
            },
        }
    }

    /// Claims a serial. A serial can be claimed once.
    pub fn lookup_and_claim(&mut self, serial: &str) -> (r: Result<PreEnrollmentRecord, Error>)
        requires
            old(self).wf(),
        ensures
            final(self).wf(),
            final(self)@ == old(self)@.after_claim(serial@),
            match r {
                Ok(record) => old(self)@.claim_outcome(serial@) == Ok::<
                    PreEnrollmentView,
                    ErrorView,
                >(record@),
                Err(e) => old(self)@.claim_outcome(serial@) == Err::<PreEnrollmentView, ErrorView>(
                    e@,
                ),
            },
    {
        match find(&self.serials, serial) {
            None => Err(Error::NotPreEnrolled(serial.to_owned())),
            Some(i) => {
                proof {
                    self.lemma_serial_row(i as int);
                }
                if self.serials[i].claimed {
                    return Err(Error::SerialAlreadyClaimed(serial.to_owned()));
                }
                let model: String = self.serials[i].model.clone();
                let row = SerialRow {
                    serial: serial.to_owned(),
                    model: model.clone(),
                    claimed: true,
                };
                self.put_serial(Some(i), row);
                Ok(PreEnrollmentRecord { serial: serial.to_owned(), model })
            },
        }
    }

    /// How many devices are enrolled.
    pub fn count_devices(&self) -> (r: u64)
        requires
            self.wf(),
        ensures
            self@.devices.dom().finite(),
            r == self@.devices.dom().len(),
    {
        proof {
            keyed::lemma_count::<DeviceRecord>(keyed::views(self.devices@));
        }
        self.devices.len() as u64
    }

    /// Puts an entry into the factory manifest, unless the serial has one.
    pub fn seed_manifest(&mut self, serial: &str, model: &str, token: &str)
        requires
            old(self).wf(),
        ensures
            final(self).wf(),
            final(self)@ == old(self)@.after_seed(serial@, model@, token@),
    {
        match find(&self.manifest, serial) {
            Some(i) => {
                proof {
                    self.lemma_manifest_row(i as int);
                }
            },
            None => {
                let row = ManifestRow {
                    serial: serial.to_owned(),
                    model: model.to_owned(),
                    token: token.to_owned(),
                    provisioned_at: None,
                };
                let ghost rows = keyed::views(self.manifest@);
                let ghost said = row@;
                proof {
                    keyed::lemma_push::<ManifestRow>(rows, said);
                }
                self.manifest.push(row);
                assert(keyed::views(self.manifest@) =~= rows.push(said));
            },
        }
    }

    /// Uses up the one-time token of a serial at the time `now`, registers the serial for
    /// enrolment, and answers with its model.
    pub fn claim_manifest_entry_at(&mut self, serial: &str, token: &str, now: i64) -> (r: Result<
        String,
        Error,
    >)
        requires
            old(self).wf(),
        ensures
            final(self).wf(),
            final(self)@ == old(self)@.after_token(serial@, token@, now),
            match r {
                Ok(model) => old(self)@.token_outcome(serial@, token@) == Ok::<
                    Seq<char>,
                    ErrorView,
                >(model@),
                Err(e) => old(self)@.token_outcome(serial@, token@) == Err::<Seq<char>, ErrorView>(
                    e@,
                ),
            },
    {
        let i: usize = match find(&self.manifest, serial) {
            None => return Err(Error::NotInManifest(serial.to_owned())),
            Some(i) => i,
        };
        proof {
            self.lemma_manifest_row(i as int);
        }
        if !same_text(self.manifest[i].token.as_str(), token) {
            return Err(Error::InvalidProvisionToken(serial.to_owned()));
        }
        if self.manifest[i].provisioned_at.is_some() {
            return Err(Error::AlreadyProvisioned(serial.to_owned()));
        }
        let model: String = self.manifest[i].model.clone();
        let row = ManifestRow {
            serial: serial.to_owned(),
            model: model.clone(),
            token: token.to_owned(),
            provisioned_at: Some(now),
        };
        let ghost rows = keyed::views(self.manifest@);
        let ghost said = row@;
        proof {
            keyed::lemma_update::<ManifestRow>(rows, i as int, said);
        }
        self.manifest.set(i, row);
        assert(keyed::views(self.manifest@) =~= rows.update(i as int, said));
        match find(&self.serials, serial) {
            Some(j) => {
                proof {
                    self.lemma_serial_row(j as int);
                }
            },
            None => {
                let fresh = SerialRow {
                    serial: serial.to_owned(),
                    model: model.clone(),
                    claimed: false,
                };
                self.put_serial(None, fresh);
            },
        }
        Ok(model)
    }

    /// Uses up the one-time token of a serial now.
    pub fn claim_manifest_entry(&mut self, serial: &str, token: &str) -> (r: Result<
        String,
        Error,
    >)
        requires
            old(self).wf(),
        ensures
            final(self).wf(),
            match r {
                Ok(model) => old(self)@.token_outcome(serial@, token@) == Ok::<
                    Seq<char>,
                    ErrorView,
                >(model@) && exists|now: i64|
                    sources::is_reading(now as int) && final(self)@ == #[trigger] old(
                        self,
                    )@.after_token(serial@, token@, now),
                Err(e) => old(self)@.token_outcome(serial@, token@) == Err::<Seq<char>, ErrorView>(
                    e@,
                ) && final(self)@ == old(self)@,
            },
    {
        let now: i64 = unix_now();
        self.claim_manifest_entry_at(serial, token, now)
    }

    /// A page of the devices of a model, with a status, after the device that `cursor`
    /// names, and where the next page starts.
    pub fn list_devices(
        &self,
        model: Option<String>,
        status: Option<String>,
        limit: i64,
        cursor: Option<String>,
    ) -> (r: (Vec<DeviceRecord>, Option<String>))
        requires
            self.wf(),
            limit < i64::MAX,
        ensures
            ({
                let filter = DeviceFilter {
                    model: text_view(model),
                    status: text_view(status),
                    after: text_view(cursor),
                };
                &&& is_listing(self@, filter, listing(self@, filter))
                &&& (keyed::views(r.0@), text_view(r.1)) == page(listing(self@, filter), limit)
            }),
            forall|k: int| #![trigger r.0@[k]]
                0 <= k < r.0@.len() ==> {
                    &&& self@.devices.contains_key(r.0@[k].id@)
                    &&& self@.devices[r.0@[k].id@] == r.0@[k]@
                    &&& model matches Some(m) ==> r.0@[k].model@ == m@
                    &&& status matches Some(s) ==> r.0@[k].status@ == s@
                    &&& cursor matches Some(c) ==> text::text_less(c@, r.0@[k].id@)
                },
            forall|a: int, b: int| #![trigger r.0@[a], r.0@[b]]
                0 <= a < b < r.0@.len() ==> text::text_less(r.0@[a].id@, r.0@[b].id@),
            limit > 0 && r.1 is None ==> forall|id: Seq<char>| #[trigger]
                self@.devices.contains_key(id) && (model matches Some(m)
                    ==> self@.devices[id].model == m@) && (status matches Some(s)
                    ==> self@.devices[id].status == s@) && (cursor matches Some(c)
                    ==> text::text_less(c@, id)) ==> exists|k: int|
                    0 <= k < r.0@.len() && (#[trigger] r.0@[k]).id@ == id,
            limit > 0 ==> r.0@.len() <= limit,
            r.1 matches Some(next) ==> r.0@.len() > 0 && next@ == r.0@[r.0@.len() - 1].id@,
    {
        let query = DeviceQuery {
            rows: &self.devices,
            model: &model,
            status: &status,
            cursor: &cursor,
        };
        let chosen: Vec<usize> = select(&query);
        let ghost filter = query.filter();
        let ghost ints = selection::as_ints(chosen@);
        let ghost all = Seq::new(chosen@.len(), |a: int| self.devices@[chosen@[a] as int]@);
        proof {
            self.lemma_wf();
            assert forall|a: int| 0 <= a < all.len() implies 0 <= #[trigger] ints[a]
                < self.devices@.len() by {}
            assert forall|i: int| #![trigger all[i]] 0 <= i < all.len() implies {
                &&& self@.devices.contains_key(all[i].id)
                &&& self@.devices[all[i].id] == all[i]
                &&& filter.accepts(all[i])
            } by {
                assert(query.wants(ints[i]));
                self.lemma_row_enrolled(ints[i]);
            }
            assert forall|a: int, b: int| 0 <= a < b < all.len() implies text::text_less(
                (#[trigger] all[a]).id,
                (#[trigger] all[b]).id,
            ) by {
                assert(query.before(ints[a], ints[b]));
                if ints[a] != ints[b] {
                    let rows = keyed::views(self.devices@);
                    assert(rows[ints[a]].id != rows[ints[b]].id);
                } else {
                    query.order(ints[a], ints[b], ints[a]);
                }
            }
            assert forall|id: Seq<char>| #[trigger]
                self@.devices.contains_key(id) && filter.accepts(
                    self@.devices[id],
                ) implies all.contains(self@.devices[id]) by {
                let i = keyed::lemma_held::<DeviceRecord>(keyed::views(self.devices@), id);
                assert(query.wants(i));
                assert(ints.contains(i));
                let a = choose|a: int| 0 <= a < ints.len() && ints[a] == i;
                assert(all[a] == self@.devices[id]);
            }
            assert(is_listing(self@, filter, all));
            lemma_listing(self@, filter, all);
            assert forall|a: int| 0 <= a < chosen@.len() implies #[trigger] chosen@[a]
                < self.devices@.len() by {
                assert(ints[a] < self.devices@.len());
            }
        }
        let take: usize = bounded(chosen.len(), limit + 1);
        let more: bool = limit < 0 || take as u64 > limit as u64;
        let shown: usize = if more && take > 0 {
            take - 1
        } else {
            take
        };
        let mut records: Vec<DeviceRecord> = Vec::new();
        let mut i: usize = 0;
        while i < shown
            invariant
                i <= shown <= chosen@.len(),
                forall|a: int|
                    0 <= a < chosen@.len() ==> #[trigger] chosen@[a] < self.devices@.len(),
                all.len() == chosen@.len(),
                forall|a: int|
                    0 <= a < all.len() ==> #[trigger] all[a]
                        == self.devices@[chosen@[a] as int]@,
                keyed::views(records@) =~= all.take(i as int),
            decreases shown - i,
        {
            let ghost before = keyed::views(records@);
            records.push(self.devices[chosen[i]].clone());
            assert(keyed::views(records@) =~= before.push(all[i as int]));
            i = i + 1;
        }
        let next: Option<String> = if more && shown > 0 {
            Some(records[shown - 1].id.clone())
        } else {
            None
        };
        proof {
            let read = selection::at_most(all, limit + 1);
            assert(read =~= all.take(take as int));
            assert(keyed::views(records@) =~= all.take(shown as int));
            if more && take > 0 {
                assert(read.drop_last() =~= all.take(shown as int));
            }
            assert(keyed::views(records@) =~= page(all, limit).0);
            if more && shown > 0 {
                assert(keyed::views(records@).last() == records@[shown - 1]@);
            }
            assert forall|k: int| #![trigger records@[k]] 0 <= k < records@.len() implies {
                &&& self@.devices.contains_key(records@[k].id@)
                &&& self@.devices[records@[k].id@] == records@[k]@
                &&& model matches Some(m) ==> records@[k].model@ == m@
                &&& status matches Some(s) ==> records@[k].status@ == s@
                &&& cursor matches Some(c) ==> text::text_less(c@, records@[k].id@)
            } by {
                assert(keyed::views(records@)[k] == records@[k]@);
                assert(all[k] == records@[k]@);
                assert(filter.accepts(all[k]));
            }
            assert forall|a: int, b: int| #![trigger records@[a], records@[b]]
                0 <= a < b < records@.len() implies text::text_less(
                records@[a].id@,
                records@[b].id@,
            ) by {
                assert(keyed::views(records@)[a] == records@[a]@);
                assert(keyed::views(records@)[b] == records@[b]@);
                assert(all[a] == records@[a]@ && all[b] == records@[b]@);
                assert(text::text_less(all[a].id, all[b].id));
            }
            if limit > 0 && next is None {
                assert forall|id: Seq<char>| #[trigger]
                    self@.devices.contains_key(id) && (model matches Some(m)
                        ==> self@.devices[id].model == m@) && (status matches Some(s)
                        ==> self@.devices[id].status == s@) && (cursor matches Some(c)
                        ==> text::text_less(c@, id)) implies exists|k: int|
                    0 <= k < records@.len() && (#[trigger] records@[k]).id@ == id by {
                    assert(filter.accepts(self@.devices[id]));
                    assert(all.contains(self@.devices[id]));
                    let k = choose|k: int| 0 <= k < all.len() && all[k] == self@.devices[id];
                    assert(shown == all.len());
                    assert(keyed::views(records@)[k] == records@[k]@);
                    assert(records@[k].id@ == id);
                }
            }
        }
        (records, next)
    }
}

/// A record says what it holds, each thing under its own name.
pub proof fn records_say_what_they_hold(
    device: DeviceRecord,
    serial: SerialRow,
    entry: ManifestRow,
    pre: PreEnrollmentRecord,
)
    ensures
        device@.id == device.id@,
        device@.serial == device.serial@,
        device@.model == device.model@,
        device@.firmware == device.firmware@,
        device@.status == device.status@,
        device@.operational_cert_pem == device.operational_cert_pem@,
        device@.enrolled_at == device.enrolled_at,
        device@.last_seen_at == device.last_seen_at,
        serial@.serial == serial.serial@,
        serial@.model == serial.model@,
        serial@.claimed == serial.claimed,
        entry@.serial == entry.serial@,
        entry@.model == entry.model@,
        entry@.token == entry.token@,
        entry@.provisioned_at == entry.provisioned_at,
        pre@.serial == pre.serial@,
        pre@.model == pre.model@,
{
}

/// A device is recorded as it was given, active, and as enrolled and seen at the same time.
pub proof fn devices_are_recorded_as_given(d: NewDevice, id: Seq<char>, now: i64)
    ensures
        ({
            let device = fresh_device(d, id, now);
            &&& device.id == id
            &&& device.serial == d.serial@
            &&& device.model == d.model@
            &&& device.firmware == d.firmware@
            &&& device.status == "active"@
            &&& device.operational_cert_pem == d.operational_cert_pem@
            &&& device.enrolled_at == now
            &&& device.last_seen_at == now
        }),
{
}

} // verus!
