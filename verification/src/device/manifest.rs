//! The factory manifest as text: `serial:token:model,serial:token:model,...`, where the
//! model may be left out.

use vstd::prelude::*;

use crate::device::store::DeviceStore;
use crate::device::store::FleetView;
use crate::scan;
use crate::scan::{split, trim};

verus! {

/// What a manifest entry says of one device.
#[derive(Debug)]
pub struct ManifestEntry {
    pub serial: String,
    pub token: String,
    pub model: String,
}

/// What a [`ManifestEntry`] says.
#[verifier::ext_equal]
pub struct EntryView {
    pub serial: Seq<char>,
    pub token: Seq<char>,
    pub model: Seq<char>,
}

impl View for ManifestEntry {
    type V = EntryView;

    open spec fn view(&self) -> EntryView {
        EntryView { serial: self.serial@, token: self.token@, model: self.model@ }
    }
}

/// The entry between two commas, once trimmed. The model is what follows the second colon,
/// whatever it holds; where there is one colon only, it is the usual one. Without a colon
/// there is no entry.
pub open spec fn entry_of(trimmed: Seq<char>) -> Option<EntryView> {
    let parts = scan::pieces(trimmed, ':', Some(3));
    if parts.len() == 3 {
        Some(EntryView { serial: parts[0], token: parts[1], model: parts[2] })
    } else if parts.len() == 2 {
        Some(EntryView { serial: parts[0], token: parts[1], model: "Alpha Wheeled"@ })
    } else {
        None
    }
}

/// The entries among the first `n` of `parts`, in order. What is blank is passed over, and
/// so is what is no entry.
pub open spec fn entries_among(parts: Seq<Seq<char>>, n: int) -> Seq<EntryView>
    decreases n,
{
    if n <= 0 {
        Seq::empty()
    } else {
        let earlier = entries_among(parts, n - 1);
        let part = scan::trimmed(parts[n - 1]);
        if part.len() == 0 {
            earlier
        } else {
            match entry_of(part) {
                Some(entry) => earlier.push(entry),
                None => earlier,
            }
        }
    }
}

/// What among the first `n` of `parts` is neither blank nor an entry, in order.
pub open spec fn faults_among(parts: Seq<Seq<char>>, n: int) -> Seq<Seq<char>>
    decreases n,
{
    if n <= 0 {
        Seq::empty()
    } else {
        let earlier = faults_among(parts, n - 1);
        let part = scan::trimmed(parts[n - 1]);
        if part.len() > 0 && entry_of(part) is None {
            earlier.push(part)
        } else {
            earlier
        }
    }
}

/// The entries of a manifest.
pub open spec fn entries_of(manifest: Seq<char>) -> Seq<EntryView> {
    let parts = scan::pieces(manifest, ',', None);
    entries_among(parts, parts.len() as int)
}

/// What in a manifest is neither blank nor an entry.
pub open spec fn faults_of(manifest: Seq<char>) -> Seq<Seq<char>> {
    let parts = scan::pieces(manifest, ',', None);
    faults_among(parts, parts.len() as int)
}

/// A manifest taken apart: its entries, and what in it is no entry.
#[derive(Debug)]
pub struct Manifest {
    pub entries: Vec<ManifestEntry>,
    pub faults: Vec<String>,
}

/// The entry in a trimmed part of a manifest.
fn parse_entry(part: &str) -> (r: Option<ManifestEntry>)
    ensures
        match r {
            Some(entry) => entry_of(part@) == Some(entry@),
            None => entry_of(part@) is None,
        },
{
    let parts: Vec<String> = split(part, ':', Some(3));
    let ghost said = scan::text_views(parts@);
    if parts.len() == 3 {
        assert(said[0] == parts@[0]@ && said[1] == parts@[1]@ && said[2] == parts@[2]@);
        Some(
            ManifestEntry {
                serial: parts[0].clone(),
                token: parts[1].clone(),
                model: parts[2].clone(),
            },
        )
    } else if parts.len() == 2 {
        assert(said[0] == parts@[0]@ && said[1] == parts@[1]@);
        Some(
            ManifestEntry {
                serial: parts[0].clone(),
                token: parts[1].clone(),
                model: "Alpha Wheeled".to_owned(),
            },
        )
    } else {
        None
    }
}

/// Takes a manifest apart.
pub fn parse_manifest(manifest: &str) -> (r: Manifest)
    ensures
        r.entries@.map_values(|e: ManifestEntry| e@) == entries_of(manifest@),
        scan::text_views(r.faults@) == faults_of(manifest@),
{
    let parts: Vec<String> = split(manifest, ',', None);
    let ghost said = scan::text_views(parts@);
    let mut entries: Vec<ManifestEntry> = Vec::new();
    let mut faults: Vec<String> = Vec::new();
    let mut i: usize = 0;
    while i < parts.len()
        invariant
            i <= parts@.len(),
            said == scan::text_views(parts@),
            entries@.map_values(|e: ManifestEntry| e@) =~= entries_among(said, i as int),
            scan::text_views(faults@) =~= faults_among(said, i as int),
        decreases parts.len() - i,
    {
        let ghost entries_before = entries@.map_values(|e: ManifestEntry| e@);
        let ghost faults_before = scan::text_views(faults@);
        assert(said[i as int] == parts@[i as int]@);
        let part: String = trim(parts[i].as_str());
        if !part.as_str().is_empty() {
            match parse_entry(part.as_str()) {
                Some(entry) => {
                    let ghost view = entry@;
                    entries.push(entry);
                    assert(entries@.map_values(|e: ManifestEntry| e@) =~= entries_before.push(
                        view,
                    ));
                },
                None => {
                    let ghost view = part@;
                    faults.push(part);
                    assert(scan::text_views(faults@) =~= faults_before.push(view));
                },
            }
        }
        i = i + 1;
    }
    Manifest { entries, faults }
}

/// The records after the first `n` entries were seeded, one after the other.
pub open spec fn seeded(fleet: FleetView, entries: Seq<EntryView>, n: int) -> FleetView
    decreases n,
{
    if n <= 0 {
        fleet
    } else {
        let e = entries[n - 1];
        seeded(fleet, entries, n - 1).after_seed(e.serial, e.model, e.token)
    }
}

/// Seeds the records with every entry of a manifest, and answers with how many there were.
pub fn seed_factory_manifest(store: &mut DeviceStore, manifest: &str) -> (count: usize)
    requires
        old(store).wf(),
    ensures
        final(store).wf(),
        count == entries_of(manifest@).len(),
        final(store)@ == seeded(
            old(store)@,
            entries_of(manifest@),
            entries_of(manifest@).len() as int,
        ),
{
    let parsed: Manifest = parse_manifest(manifest);
    let ghost entries = entries_of(manifest@);
    let ghost fleet = store@;
    let mut i: usize = 0;
    while i < parsed.entries.len()
        invariant
            i <= parsed.entries@.len(),
            entries == parsed.entries@.map_values(|e: ManifestEntry| e@),
            store.wf(),
            store@ == seeded(fleet, entries, i as int),
        decreases parsed.entries.len() - i,
    {
        let entry = &parsed.entries[i];
        assert(entries[i as int] == entry@);
        store.seed_manifest(entry.serial.as_str(), entry.model.as_str(), entry.token.as_str());
        i = i + 1;
    }
    parsed.entries.len()
}

/// The first entry for a serial is the one that counts; seeding never changes an entry that
/// the records hold already.
pub proof fn first_entry_counts(fleet: FleetView, entries: Seq<EntryView>, n: int, serial: Seq<
    char,
>)
    requires
        0 <= n <= entries.len(),
    ensures
        fleet.manifest.contains_key(serial) ==> {
            &&& seeded(fleet, entries, n).manifest.contains_key(serial)
            &&& seeded(fleet, entries, n).manifest[serial] == fleet.manifest[serial]
        },
        forall|i: int|
            #![trigger entries[i]]
            0 <= i < n && entries[i].serial == serial && !fleet.manifest.contains_key(serial)
                && (forall|j: int| 0 <= j < i ==> (#[trigger] entries[j]).serial != serial) ==> {
                let m = seeded(fleet, entries, n).manifest;
                &&& m.contains_key(serial)
                &&& m[serial].token == entries[i].token
                &&& m[serial].model == entries[i].model
                &&& m[serial].provisioned_at is None
            },
        !fleet.manifest.contains_key(serial) && (forall|j: int|
            0 <= j < n ==> (#[trigger] entries[j]).serial != serial) ==> !seeded(
            fleet,
            entries,
            n,
        ).manifest.contains_key(serial),
    decreases n,
{
    if n > 0 {
        first_entry_counts(fleet, entries, n - 1, serial);
    }
}

/// An entry is a serial, a token and a model with colons between them; the model may hold
/// colons of its own, and where it is left out together with its colon it is the usual one.
/// Without a colon there is no entry.
pub proof fn entries_are_serial_token_and_model(
    serial: Seq<char>,
    token: Seq<char>,
    model: Seq<char>,
)
    requires
        forall|i: int| 0 <= i < serial.len() ==> #[trigger] serial[i] != ':',
        forall|i: int| 0 <= i < token.len() ==> #[trigger] token[i] != ':',
    ensures
        entry_of(serial) is None,
        entry_of(serial.push(':') + token) matches Some(entry) && {
            &&& entry.serial == serial
            &&& entry.token == token
            &&& entry.model == "Alpha Wheeled"@
        },
        entry_of(serial.push(':') + (token.push(':') + model)) matches Some(entry) && {
            &&& entry.serial == serial
            &&& entry.token == token
            &&& entry.model == model
        },
{
    let rest = token.push(':') + model;
    scan::separators_part_pieces(serial, ':', token, Some(3));
    scan::separators_part_pieces(serial, ':', rest, Some(3));
    scan::separators_part_pieces(token, ':', model, Some(2));
    scan::pieces_are_what_stands_between(model, ':', Some(1));
    let last = scan::pieces(model, ':', Some(1));
    assert(last.len() == 1);
    assert(last =~= seq![model]);
    let parts = scan::pieces(serial.push(':') + rest, ':', Some(3));
    assert(parts =~= seq![serial] + (seq![token] + last));
    assert(parts =~= seq![serial, token, model]);
    let two = scan::pieces(serial.push(':') + token, ':', Some(3));
    assert(two =~= seq![serial, token]);
}

/// A manifest is read from comma to comma: what stands before the first one gives its entry,
/// where it is one once it is trimmed, is passed over where it is blank, and is a fault
/// otherwise; then comes what the rest gives. So it is with a manifest without commas, which
/// has no rest.
pub proof fn manifests_are_read_from_comma_to_comma(part: Seq<char>, rest: Seq<char>)
    requires
        forall|i: int| 0 <= i < part.len() ==> #[trigger] part[i] != ',',
    ensures
        ({
            let inner = scan::trimmed(part);
            let (entries, faults) = if inner.len() == 0 {
                (Seq::<EntryView>::empty(), Seq::<Seq<char>>::empty())
            } else {
                match entry_of(inner) {
                    Some(entry) => (seq![entry], Seq::<Seq<char>>::empty()),
                    None => (Seq::<EntryView>::empty(), seq![inner]),
                }
            };
            &&& entries_of(part) == entries
            &&& faults_of(part) == faults
            &&& entries_of(part.push(',') + rest) == entries + entries_of(rest)
            &&& faults_of(part.push(',') + rest) == faults + faults_of(rest)
        }),
{
    scan::separators_part_pieces(part, ',', rest, None);
    let more = scan::pieces(rest, ',', None);
    lemma_parts_one_by_one(part, more, more.len() as int);
    lemma_parts_one_by_one(part, Seq::empty(), 0);
    assert(seq![part] + Seq::<Seq<char>>::empty() =~= seq![part]);
    let inner = scan::trimmed(part);
    assert(entries_among(seq![part], 0) =~= Seq::<EntryView>::empty());
    assert(faults_among(seq![part], 0) =~= Seq::<Seq<char>>::empty());
    assert(entries_of(part) =~= if inner.len() == 0 {
        Seq::<EntryView>::empty()
    } else {
        match entry_of(inner) {
            Some(entry) => seq![entry],
            None => Seq::<EntryView>::empty(),
        }
    });
    assert(faults_of(part) =~= if inner.len() > 0 && entry_of(inner) is None {
        seq![inner]
    } else {
        Seq::<Seq<char>>::empty()
    });
}

/// A part ahead of others gives what it gives alone, and then come the others.
proof fn lemma_parts_one_by_one(part: Seq<char>, more: Seq<Seq<char>>, n: int)
    requires
        0 <= n <= more.len(),
    ensures
        entries_among(seq![part] + more, n + 1) == entries_among(seq![part], 1) + entries_among(
            more,
            n,
        ),
        faults_among(seq![part] + more, n + 1) == faults_among(seq![part], 1) + faults_among(
            more,
            n,
        ),
    decreases n,
{
    let all = seq![part] + more;
    if n == 0 {
        assert(entries_among(all, 0) =~= entries_among(seq![part], 0));
        assert(faults_among(all, 0) =~= faults_among(seq![part], 0));
        assert(all[0] == part);
        assert(entries_among(seq![part], 1) + entries_among(more, 0) =~= entries_among(
            seq![part],
            1,
        ));
        assert(faults_among(seq![part], 1) + faults_among(more, 0) =~= faults_among(
            seq![part],
            1,
        ));
    } else {
        lemma_parts_one_by_one(part, more, n - 1);
        assert(all[n] == more[n - 1]);
        assert(entries_among(all, n + 1) =~= entries_among(seq![part], 1) + entries_among(
            more,
            n,
        ));
        assert(faults_among(all, n + 1) =~= faults_among(seq![part], 1) + faults_among(more, n));
    }
}

/// An entry says what it holds, each thing under its own name.
pub proof fn entries_say_what_they_hold(entry: ManifestEntry)
    ensures
        entry@.serial == entry.serial@,
        entry@.token == entry.token@,
        entry@.model == entry.model@,
{
}

/// The entries of a manifest are seeded one by one, each with its own token and its own model.
pub proof fn entries_are_seeded_one_by_one(fleet: FleetView, entries: Seq<EntryView>, n: int)
    requires
        0 < n <= entries.len(),
    ensures
        seeded(fleet, entries, 0) == fleet,
        ({
            let e = entries[n - 1];
            let (before, after) = (seeded(fleet, entries, n - 1), seeded(fleet, entries, n));
            &&& after.devices == before.devices && after.serials == before.serials
            &&& after.manifest.contains_key(e.serial)
            &&& !before.manifest.contains_key(e.serial) ==> after.manifest[e.serial].token == e.token
                && after.manifest[e.serial].model == e.model
            &&& before.manifest.contains_key(e.serial) ==> after == before
        }),
{
}

} // verus!
