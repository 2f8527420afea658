//! The register of published artifacts.

use vstd::prelude::*;

use crate::artifact::error::Error;
use crate::artifact::error::ErrorView;
use crate::keyed;
use crate::keyed::{are_keys_unique, find, Row};
use crate::selection;
use crate::selection::{bounded, select, Query};
use crate::sources;
use crate::sources::{new_uuid, unix_now};
use crate::text::{join4, same_text};

verus! {

/// An artifact that asks to be registered.
pub struct NewArtifact {
    pub model: String,
    pub version: String,
    pub sha256: String,
    pub size_bytes: i64,
    pub channel: String,
    pub object_key: String,
    pub download_url: String,
}

/// A registered artifact; `created_at` is in seconds since 1970.
#[derive(Debug)]
pub struct ArtifactRecord {
    pub id: String,
    pub model: String,
    pub version: String,
    pub sha256: String,
    pub size_bytes: i64,
    pub channel: String,
    pub object_key: String,
    pub download_url: String,
    pub created_at: i64,
}

/// What an [`ArtifactRecord`] says.
#[verifier::ext_equal]
pub struct ArtifactView {
    pub id: Seq<char>,
    pub model: Seq<char>,
    pub version: Seq<char>,
    pub sha256: Seq<char>,
    pub size_bytes: i64,
    pub channel: Seq<char>,
    pub object_key: Seq<char>,
    pub download_url: Seq<char>,
    pub created_at: i64,
}

impl View for ArtifactRecord {
    type V = ArtifactView;

    open spec fn view(&self) -> ArtifactView {
        ArtifactView {
            id: self.id@,
            model: self.model@,
            version: self.version@,
            sha256: self.sha256@,
            size_bytes: self.size_bytes,
            channel: self.channel@,
            object_key: self.object_key@,
            download_url: self.download_url@,
            created_at: self.created_at,
        }
    }
}

impl Clone for ArtifactRecord {
    fn clone(&self) -> (r: ArtifactRecord)
        ensures
            r == *self,
    {
        ArtifactRecord {
            id: self.id.clone(),
            model: self.model.clone(),
            version: self.version.clone(),
            sha256: self.sha256.clone(),
            size_bytes: self.size_bytes,
            channel: self.channel.clone(),
            object_key: self.object_key.clone(),
            download_url: self.download_url.clone(),
            created_at: self.created_at,
        }
    }
}

impl Row for ArtifactRecord {
    open spec fn key(row: ArtifactView) -> Seq<char> {
        row.id
    }

    fn key_text(&self) -> (r: &str) {
        self.id.as_str()
    }
}

/// An artifact as it is registered under the identifier `id` at the time `now`.
pub open spec fn fresh_artifact(a: NewArtifact, id: Seq<char>, now: i64) -> ArtifactView {
    ArtifactView {
        id,
        model: a.model@,
        version: a.version@,
        sha256: a.sha256@,
        size_bytes: a.size_bytes,
        channel: a.channel@,
        object_key: a.object_key@,
        download_url: a.download_url@,
        created_at: now,
    }
}

/// The artifact in row `i` is the version `version` of the model `model`.
pub open spec fn is_version(
    rows: Seq<ArtifactView>,
    model: Seq<char>,
    version: Seq<char>,
    i: int,
) -> bool {
    0 <= i < rows.len() && rows[i].model == model && rows[i].version == version
}

/// The version `version` of the model `model` is registered.
pub open spec fn has_version(rows: Seq<ArtifactView>, model: Seq<char>, version: Seq<char>) -> bool {
    exists|i: int| is_version(rows, model, version, i)
}

/// No version of a model is registered twice.
pub open spec fn versions_unique(rows: Seq<ArtifactView>) -> bool {
    forall|i: int, j: int|
        0 <= i < rows.len() && 0 <= j < rows.len() && i != j ==> (#[trigger] rows[i]).model != (
        #[trigger] rows[j]).model || rows[i].version != rows[j].version
}

/// The artifact with the identifier `id` is registered.
pub open spec fn has_id(rows: Seq<ArtifactView>, id: Seq<char>) -> bool {
    keyed::by_key::<ArtifactRecord>(rows).contains_key(id)
}

/// What [`Registry::get`] answers.
pub open spec fn get_outcome(rows: Seq<ArtifactView>, id: Seq<char>) -> Result<
    ArtifactView,
    ErrorView,
> {
    if has_id(rows, id) {
        Ok(keyed::by_key::<ArtifactRecord>(rows)[id])
    } else {
        Err(ErrorView::NotFound(id))
    }
}

/// The artifact `a` is of the model `model` and on the channel `channel`.
pub open spec fn is_on(a: ArtifactView, model: Seq<char>, channel: Seq<char>) -> bool {
    a.model == model && a.channel == channel
}

/// Row `i` is newer than row `j`, or as new and registered earlier.
pub open spec fn comes_before(rows: Seq<ArtifactView>, i: int, j: int) -> bool {
    rows[i].created_at > rows[j].created_at || (rows[i].created_at == rows[j].created_at && i < j)
}

/// `chosen` are the rows of a model and a channel, each once, the newest first.
pub open spec fn is_newest_first(
    rows: Seq<ArtifactView>,
    model: Seq<char>,
    channel: Seq<char>,
    chosen: Seq<int>,
) -> bool {
    &&& selection::in_order(chosen, |i: int, j: int| comes_before(rows, i, j))
    &&& forall|a: int| #![trigger chosen[a]]
        0 <= a < chosen.len() ==> 0 <= chosen[a] < rows.len() && is_on(
            rows[chosen[a]],
            model,
            channel,
        )
    &&& forall|i: int|
        0 <= i < rows.len() && is_on(#[trigger] rows[i], model, channel) ==> chosen.contains(i)
}

/// The artifacts of a model and a channel, the newest first.
pub open spec fn newest_first(
    rows: Seq<ArtifactView>,
    model: Seq<char>,
    channel: Seq<char>,
) -> Seq<ArtifactView> {
    let chosen = choose|chosen: Seq<int>| is_newest_first(rows, model, channel, chosen);
    chosen.map_values(|i: int| rows[i])
}

/// There is only one way to put the artifacts of a model and a channel in order.
pub proof fn lemma_newest_first(
    rows: Seq<ArtifactView>,
    model: Seq<char>,
    channel: Seq<char>,
    chosen: Seq<int>,
)
    requires
        is_newest_first(rows, model, channel, chosen),
    ensures
        newest_first(rows, model, channel) == chosen.map_values(|i: int| rows[i]),
{
    let other = choose|other: Seq<int>| is_newest_first(rows, model, channel, other);
    let before = |i: int, j: int| comes_before(rows, i, j);
    assert forall|x: int| chosen.contains(x) <==> other.contains(x) by {
        if chosen.contains(x) {
            let a = choose|a: int| 0 <= a < chosen.len() && chosen[a] == x;
            assert(is_on(rows[chosen[a]], model, channel));
        }
        if other.contains(x) {
            let a = choose|a: int| 0 <= a < other.len() && other[a] == x;
            assert(is_on(rows[other[a]], model, channel));
        }
    }
    selection::lemma_order_unique(other, chosen, before);
}

/// The artifacts of a model and a channel can be put in order.
proof fn lemma_ranking_exists(
    rows: Seq<ArtifactView>,
    model: Seq<char>,
    channel: Seq<char>,
) -> (chosen: Seq<int>)
    ensures
        is_newest_first(rows, model, channel, chosen),
{
    let wanted = Set::new(|i: int| 0 <= i < rows.len() && is_on(rows[i], model, channel));
    vstd::set_lib::lemma_int_range(0, rows.len() as int);
    vstd::set_lib::lemma_set_subset_finite(
        vstd::set_lib::set_int_range(0, rows.len() as int),
        wanted,
    );
    let chosen = selection::lemma_order_exists(wanted, |i: int, j: int| comes_before(rows, i, j));
    assert forall|a: int| #![trigger chosen[a]] 0 <= a < chosen.len() implies 0 <= chosen[a]
        < rows.len() && is_on(rows[chosen[a]], model, channel) by {
        assert(chosen.contains(chosen[a]));
    }
    assert forall|i: int|
        0 <= i < rows.len() && is_on(#[trigger] rows[i], model, channel) implies chosen.contains(
        i,
    ) by {
        assert(wanted.contains(i));
    }
    chosen
}

/// What [`Registry::get_latest`] answers.
pub open spec fn latest_outcome(
    rows: Seq<ArtifactView>,
    model: Seq<char>,
    channel: Seq<char>,
) -> Result<ArtifactView, ErrorView> {
    let all = newest_first(rows, model, channel);
    if all.len() > 0 {
        Ok(all[0])
    } else {
        Err(ErrorView::NotFound(model + "@latest ("@ + channel + ")"@))
    }
}

/// The rows of a table that belong to a model and a channel.
struct ArtifactQuery<'a> {
    rows: &'a Vec<ArtifactRecord>,
    model: &'a str,
    channel: &'a str,
}

impl<'a> Query for ArtifactQuery<'a> {
    closed spec fn size(&self) -> nat {
        self.rows@.len()
    }

    closed spec fn wants(&self, i: int) -> bool {
        is_on(self.rows@[i]@, self.model@, self.channel@)
    }

    closed spec fn before(&self, i: int, j: int) -> bool {
        comes_before(keyed::views(self.rows@), i, j)
    }

    proof fn order(&self, i: int, j: int, k: int) {
    }

    fn row_count(&self) -> (r: usize) {
        self.rows.len()
    }

    fn is_wanted(&self, i: usize) -> (r: bool) {
        let row = &self.rows[i];
        same_text(row.model.as_str(), self.model) && same_text(row.channel.as_str(), self.channel)
    }

    fn is_before(&self, i: usize, j: usize) -> (r: bool) {
        let (a, b) = (self.rows[i].created_at, self.rows[j].created_at);
        a > b || (a == b && i < j)
    }
}

/// The register of published artifacts, in the order in which they came.
pub struct Registry {
    rows: Vec<ArtifactRecord>,
}

impl View for Registry {
    type V = Seq<ArtifactView>;

    closed spec fn view(&self) -> Seq<ArtifactView> {
        keyed::views(self.rows@)
    }
}

/// Identifiers are unique, and no version of a model is there twice.
pub open spec fn rows_wf(rows: Seq<ArtifactView>) -> bool {
    keyed::keys_unique::<ArtifactRecord>(rows) && versions_unique(rows)
}

impl Registry {
    /// The register is as [`rows_wf`] says.
    pub open spec fn wf(&self) -> bool {
        rows_wf(self@)
    }

    /// A register without artifacts.
    pub fn new() -> (r: Registry)
        ensures
            r.wf(),
            r@ == Seq::<ArtifactView>::empty(),
    {
        let r = Registry { rows: Vec::new() };
        assert(r@ =~= Seq::<ArtifactView>::empty());
        r
    }

    /// The register with the given artifacts; none, where an identifier or a version of a
    /// model stands twice.
    pub fn load(rows: Vec<ArtifactRecord>) -> (r: Option<Registry>)
        ensures
            match r {
                Some(registry) => registry.wf() && registry@ == keyed::views(rows@),
                None => !rows_wf(keyed::views(rows@)),
            },
    {
        if !are_keys_unique(&rows) {
            return None;
        }
        let ghost said = keyed::views(rows@);
        let mut i: usize = 0;
        while i < rows.len()
            invariant
                i <= rows.len(),
                said == keyed::views(rows@),
                forall|a: int, b: int|
                    0 <= a < b < i ==> (#[trigger] said[a]).model != (#[trigger] said[b]).model
                        || said[a].version != said[b].version,
            decreases rows.len() - i,
        {
            let mut j: usize = 0;
            while j < i
                invariant
                    j <= i < rows.len(),
                    said == keyed::views(rows@),
                    forall|a: int|
                        0 <= a < j ==> (#[trigger] said[a]).model != said[i as int].model
                            || said[a].version != said[i as int].version,
                decreases i - j,
            {
                if same_text(rows[j].model.as_str(), rows[i].model.as_str()) && same_text(
                    rows[j].version.as_str(),
                    rows[i].version.as_str(),
                ) {
                    assert(said[j as int].model == said[i as int].model);
                    return None;
                }
                j = j + 1;
            }
            i = i + 1;
        }
        Some(Registry { rows })
    }

    /// The artifacts in the order in which they came.
    pub fn rows(&self) -> (r: &Vec<ArtifactRecord>)
        ensures
            keyed::views(r@) == self@,
    {
        &self.rows
    }

    /// Whether the version `version` of the model `model` is registered.
    fn knows_version(&self, model: &str, version: &str) -> (r: bool)
        ensures
            r == has_version(self@, model@, version@),
    {
        let mut i: usize = 0;
        while i < self.rows.len()
            invariant
                i <= self.rows.len(),
                forall|j: int| 0 <= j < i ==> !#[trigger] is_version(self@, model@, version@, j),
            decreases self.rows.len() - i,
        {
            if same_text(self.rows[i].model.as_str(), model) && same_text(
                self.rows[i].version.as_str(),
                version,
            ) {
                assert(is_version(self@, model@, version@, i as int));
                return true;
            }
            i = i + 1;
        }
        false
    }

    /// Registers an artifact under the identifier `id` at the time `now`. A version of a
    /// model is registered once.
    pub fn create_as(&mut self, a: NewArtifact, id: String, now: i64) -> (r: Result<
        ArtifactRecord,
        Error,
    >)
        requires
            old(self).wf(),
        ensures
            final(self).wf(),
            match r {
                Ok(record) => {
                    &&& !has_version(old(self)@, a.model@, a.version@)
                    &&& !has_id(old(self)@, id@)
                    &&& record@ == fresh_artifact(a, id@, now)
                    &&& record.id@ == id@
                    &&& record.model@ == a.model@
                    &&& record.version@ == a.version@
                    &&& record.sha256@ == a.sha256@
                    &&& record.size_bytes == a.size_bytes
                    &&& record.channel@ == a.channel@
                    &&& record.object_key@ == a.object_key@
                    &&& record.download_url@ == a.download_url@
                    &&& record.created_at == now
                    &&& final(self)@ == old(self)@.push(record@)
                },
                Err(e) => {
                    &&& has_version(old(self)@, a.model@, a.version@) || has_id(old(self)@, id@)
                    &&& e@ == (ErrorView::VersionConflict {
                        model: a.model@,
                        version: a.version@,
                    })
                    &&& final(self)@ == old(self)@
                },
            },
    {
        if self.knows_version(a.model.as_str(), a.version.as_str()) {
            return Err(Error::VersionConflict { model: a.model, version: a.version });
        }
        match find(&self.rows, id.as_str()) {
            Some(i) => {
                proof {
                    keyed::lemma_found::<ArtifactRecord>(self@, i as int);
                }
                return Err(Error::VersionConflict { model: a.model, version: a.version });
            },
            None => {},
        }
        let record = ArtifactRecord {
            id,
            model: a.model,
            version: a.version,
            sha256: a.sha256,
            size_bytes: a.size_bytes,
            channel: a.channel,
            object_key: a.object_key,
            download_url: a.download_url,
            created_at: now,
        };
        proof {
            keyed::lemma_push::<ArtifactRecord>(self@, record@);
            assert forall|i: int| 0 <= i < self@.len() implies (#[trigger] self@[i]).model
                != record.model@ || self@[i].version != record.version@ by {
                assert(!is_version(self@, record.model@, record.version@, i));
            }
        }
        self.rows.push(record.clone());
        assert(self@ =~= old(self)@.push(record@));
        Ok(record)
    }

    /// Registers an artifact now, under a fresh identifier.
    pub fn create(&mut self, a: NewArtifact) -> (r: Result<ArtifactRecord, Error>)
        requires
            old(self).wf(),
        ensures
            final(self).wf(),
            has_version(old(self)@, a.model@, a.version@) ==> r is Err,
            match r {
                Ok(record) => {
                    &&& sources::is_uuid_text(record.id@)
                    &&& !has_id(old(self)@, record.id@)
                    &&& sources::is_reading(record.created_at as int)
                    &&& record@ == fresh_artifact(a, record.id@, record.created_at)
                    &&& final(self)@ == old(self)@.push(record@)
                },
                Err(e) => {
                    &&& has_version(old(self)@, a.model@, a.version@) || exists|id: Seq<char>|
                        sources::is_uuid_text(id) && #[trigger] has_id(old(self)@, id)
                    &&& e@ == (ErrorView::VersionConflict {
                        model: a.model@,
                        version: a.version@,
                    })
                    &&& final(self)@ == old(self)@
                },
            },
    {
        let id: String = new_uuid();
        let now: i64 = unix_now();
        self.create_as(a, id, now)
    }

    /// The artifact with an identifier.
    pub fn get(&self, id: &str) -> (r: Result<ArtifactRecord, Error>)
        requires
            self.wf(),
        ensures
            match r {
                Ok(record) => get_outcome(self@, id@) == Ok::<ArtifactView, ErrorView>(record@),
                Err(e) => get_outcome(self@, id@) == Err::<ArtifactView, ErrorView>(e@),
            },
            r matches Ok(record) ==> record.id@ == id@ && self@.contains(record@),
    {
        match find(&self.rows, id) {
            Some(i) => {
                proof {
                    keyed::lemma_found::<ArtifactRecord>(self@, i as int);
                }
                assert(self@[i as int] == self.rows@[i as int]@);
                Ok(self.rows[i].clone())
            },
            None => Err(Error::NotFound(id.to_owned())),
        }
    }

    /// The rows of a model and a channel, the newest first.
    fn ranked(&self, model: &str, channel: &str) -> (r: Vec<usize>)
        ensures
            forall|a: int| 0 <= a < r@.len() ==> #[trigger] r@[a] < self.rows@.len(),
            is_newest_first(self@, model@, channel@, selection::as_ints(r@)),
            newest_first(self@, model@, channel@).len() == r@.len(),
            forall|a: int| #![trigger r@[a]]
                0 <= a < r@.len() ==> newest_first(self@, model@, channel@)[a]
                    == self.rows@[r@[a] as int]@,
    {
        let query = ArtifactQuery { rows: &self.rows, model, channel };
        let chosen: Vec<usize> = select(&query);
        proof {
            let ints = selection::as_ints(chosen@);
            assert forall|a: int| 0 <= a < chosen@.len() implies #[trigger] chosen@[a]
                < self.rows@.len() by {
                assert(ints[a] < query.size());
            }
            assert forall|i: int|
                0 <= i < self@.len() && is_on(
                    #[trigger] self@[i],
                    model@,
                    channel@,
                ) implies ints.contains(i) by {
                assert(query.wants(i));
            }
            assert forall|a: int| #![trigger ints[a]] 0 <= a < ints.len() implies is_on(
                self@[ints[a]],
                model@,
                channel@,
            ) by {
                assert(query.wants(ints[a]));
            }
            assert forall|a: int, b: int| 0 <= a < b < ints.len() implies comes_before(
                self@,
                #[trigger] ints[a],
                #[trigger] ints[b],
            ) by {
                assert(query.before(ints[a], ints[b]));
            }
            assert(is_newest_first(self@, model@, channel@, ints));
            lemma_newest_first(self@, model@, channel@, ints);
        }
        chosen
    }

    /// The newest artifact of a model and a channel. Of those of the same second it is the
    /// one that was registered first.
    pub fn get_latest(&self, model: &str, channel: &str) -> (r: Result<ArtifactRecord, Error>)
        ensures
            match r {
                Ok(record) => latest_outcome(self@, model@, channel@) == Ok::<
                    ArtifactView,
                    ErrorView,
                >(record@),
                Err(e) => latest_outcome(self@, model@, channel@) == Err::<ArtifactView, ErrorView>(
                    e@,
                ),
            },
            r matches Ok(record) ==> {
                &&& self@.contains(record@)
                &&& record.model@ == model@
                &&& record.channel@ == channel@
                &&& forall|i: int|
                    0 <= i < self@.len() && (#[trigger] self@[i]).model == model@
                        && self@[i].channel == channel@ ==> self@[i].created_at
                        <= record.created_at
            },
            r is Err ==> forall|i: int|
                0 <= i < self@.len() ==> (#[trigger] self@[i]).model != model@ || self@[i].channel
                    != channel@,
    {
        let chosen: Vec<usize> = self.ranked(model, channel);
        proof {
            list_is_newest_first(self@, model@, channel@);
            assert forall|i: int|
                0 <= i < self@.len() && (#[trigger] self@[i]).model == model@ && self@[i].channel
                    == channel@ implies newest_first(self@, model@, channel@).contains(self@[i])
                && (latest_outcome(self@, model@, channel@) matches Ok(latest)
                && self@[i].created_at <= latest.created_at) by {
                assert(self@.contains(self@[i]));
                latest_is_newest(self@, model@, channel@, i);
            }
            if chosen@.len() > 0 {
                let first = newest_first(self@, model@, channel@)[0];
                assert(newest_first(self@, model@, channel@).contains(first));
            }
        }
        if chosen.len() > 0 {
            Ok(self.rows[chosen[0]].clone())
        } else {
            Err(Error::NotFound(join4(model, "@latest (", channel, ")")))
        }
    }

    /// The artifacts of a model and a channel, the newest first, at most `limit` of them;
    /// all of them where `limit` is negative.
    pub fn list(&self, model: &str, channel: &str, limit: i64) -> (r: Vec<ArtifactRecord>)
        ensures
            keyed::views(r@) == selection::at_most(
                newest_first(self@, model@, channel@),
                limit as int,
            ),
    {
        let chosen: Vec<usize> = self.ranked(model, channel);
        let ghost all = newest_first(self@, model@, channel@);
        let shown: usize = bounded(chosen.len(), limit);
        let mut records: Vec<ArtifactRecord> = Vec::new();
        let mut i: usize = 0;
        while i < shown
            invariant
                i <= shown <= chosen@.len(),
                all.len() == chosen@.len(),
                forall|a: int| 0 <= a < chosen@.len() ==> #[trigger] chosen@[a] < self.rows@.len(),
                forall|a: int| #![trigger chosen@[a]]
                    0 <= a < chosen@.len() ==> all[a] == self.rows@[chosen@[a] as int]@,
                keyed::views(records@) =~= all.take(i as int),
            decreases shown - i,
        {
            let ghost before = keyed::views(records@);
            records.push(self.rows[chosen[i]].clone());
            assert(keyed::views(records@) =~= before.push(all[i as int]));
            i = i + 1;
        }
        assert(all.take(shown as int) =~= selection::at_most(all, limit as int));
        records
    }
}

/// An artifact that was registered is found by its identifier, unchanged, and so is every
/// other.
pub proof fn registered_artifact_is_found(rows: Seq<ArtifactView>, a: ArtifactView, id: Seq<char>)
    requires
        rows_wf(rows),
        !has_version(rows, a.model, a.version),
        !has_id(rows, a.id),
    ensures
        get_outcome(rows.push(a), a.id) == Ok::<ArtifactView, ErrorView>(a),
        id != a.id ==> get_outcome(rows.push(a), id) == get_outcome(rows, id),
{
    keyed::lemma_push::<ArtifactRecord>(rows, a);
}

/// Once a version of a model is registered, it is refused, and stays so while more artifacts
/// come.
pub proof fn version_is_registered_once(
    rows: Seq<ArtifactView>,
    more: Seq<ArtifactView>,
    model: Seq<char>,
    version: Seq<char>,
)
    requires
        has_version(rows, model, version),
    ensures
        has_version(rows + more, model, version),
{
    let i = choose|i: int| is_version(rows, model, version, i);
    assert(is_version(rows + more, model, version, i));
}

/// The latest artifact is of the model and on the channel that were asked for, both; no other
/// such artifact is newer, and there is a latest one as soon as there is any.
pub proof fn latest_is_newest(
    rows: Seq<ArtifactView>,
    model: Seq<char>,
    channel: Seq<char>,
    i: int,
)
    requires
        0 <= i < rows.len(),
        rows[i].model == model,
        rows[i].channel == channel,
    ensures
        latest_outcome(rows, model, channel) matches Ok(latest) && {
            &&& rows.contains(latest)
            &&& latest.model == model
            &&& latest.channel == channel
            &&& latest.created_at >= rows[i].created_at
            &&& is_on(latest, model, channel)
        },
{
    let chosen = lemma_ranking_exists(rows, model, channel);
    lemma_newest_first(rows, model, channel, chosen);
    assert(chosen.contains(i));
    let a = choose|a: int| 0 <= a < chosen.len() && chosen[a] == i;
    if a > 0 {
        assert(comes_before(rows, chosen[0], chosen[a]));
    }
    assert(is_on(rows[chosen[0]], model, channel));
}

/// The list holds the artifacts that are of the model and on the channel that were asked for,
/// all of them and no others, and none is followed by a newer one.
pub proof fn list_is_newest_first(
    rows: Seq<ArtifactView>,
    model: Seq<char>,
    channel: Seq<char>,
)
    ensures
        forall|a: ArtifactView| #[trigger]
            newest_first(rows, model, channel).contains(a) <==> rows.contains(a) && a.model == model
                && a.channel == channel,
        forall|a: ArtifactView| #[trigger]
            newest_first(rows, model, channel).contains(a) <==> rows.contains(a) && is_on(
                a,
                model,
                channel,
            ),
        keyed::keys_unique::<ArtifactRecord>(rows) ==> newest_first(
            rows,
            model,
            channel,
        ).no_duplicates(),
        forall|i: int, j: int|
            0 <= i < j < newest_first(rows, model, channel).len() ==> (
            #[trigger] newest_first(rows, model, channel)[i]).created_at >= (
            #[trigger] newest_first(rows, model, channel)[j]).created_at,
{
    let chosen = lemma_ranking_exists(rows, model, channel);
    lemma_newest_first(rows, model, channel, chosen);
    let all = newest_first(rows, model, channel);
    assert forall|a: ArtifactView| #[trigger] all.contains(a) <==> rows.contains(a) && is_on(
        a,
        model,
        channel,
    ) by {
        if all.contains(a) {
            let k = choose|k: int| 0 <= k < all.len() && all[k] == a;
            assert(is_on(rows[chosen[k]], model, channel));
        }
        if rows.contains(a) && is_on(a, model, channel) {
            let i = choose|i: int| 0 <= i < rows.len() && rows[i] == a;
            assert(chosen.contains(i));
            let k = choose|k: int| 0 <= k < chosen.len() && chosen[k] == i;
            assert(all[k] == a);
        }
    }
    assert forall|i: int, j: int| 0 <= i < j < all.len() implies (
    #[trigger] all[i]).created_at >= (#[trigger] all[j]).created_at by {
        assert(comes_before(rows, chosen[i], chosen[j]));
    }
    if keyed::keys_unique::<ArtifactRecord>(rows) {
        assert forall|a: int, b: int|
            0 <= a < all.len() && 0 <= b < all.len() && a != b implies all[a] != all[b] by {
            let (lower, upper) = if a < b {
                (a, b)
            } else {
                (b, a)
            };
            assert(comes_before(rows, chosen[lower], chosen[upper]));
            assert(rows[chosen[a]].id != rows[chosen[b]].id);
        }
    }
}

/// The latest artifact is the one that the list starts with.
pub proof fn list_starts_with_latest(
    rows: Seq<ArtifactView>,
    model: Seq<char>,
    channel: Seq<char>,
    limit: int,
)
    requires
        limit != 0,
    ensures
        match latest_outcome(rows, model, channel) {
            Ok(latest) => {
                let list = selection::at_most(newest_first(rows, model, channel), limit);
                list.len() > 0 && list[0] == latest
            },
            Err(_) => newest_first(rows, model, channel).len() == 0,
        },
{
}

/// A record says what it holds, each thing under its own name.
pub proof fn records_say_what_they_hold(record: ArtifactRecord)
    ensures
        record@.id == record.id@,
        record@.model == record.model@,
        record@.version == record.version@,
        record@.sha256 == record.sha256@,
        record@.size_bytes == record.size_bytes,
        record@.channel == record.channel@,
        record@.object_key == record.object_key@,
        record@.download_url == record.download_url@,
        record@.created_at == record.created_at,
{
}

/// What is registered is what was given, under the identifier and at the time given.
pub proof fn artifacts_are_registered_as_given(a: NewArtifact, id: Seq<char>, now: i64)
    ensures
        ({
            let row = fresh_artifact(a, id, now);
            &&& row.id == id
            &&& row.model == a.model@
            &&& row.version == a.version@
            &&& row.sha256 == a.sha256@
            &&& row.size_bytes == a.size_bytes
            &&& row.channel == a.channel@
            &&& row.object_key == a.object_key@
            &&& row.download_url == a.download_url@
            &&& row.created_at == now
        }),
{
}

/// An artifact is found exactly where a row has its identifier, and what is found has it; a
/// version of a model is there exactly where a row is of that model and that version.
pub proof fn artifacts_are_found_by_identifier(
    rows: Seq<ArtifactView>,
    id: Seq<char>,
    model: Seq<char>,
    version: Seq<char>,
)
    ensures
        has_id(rows, id) <==> exists|i: int| 0 <= i < rows.len() && (#[trigger] rows[i]).id == id,
        get_outcome(rows, id) is Ok <==> exists|i: int|
            0 <= i < rows.len() && (#[trigger] rows[i]).id == id,
        get_outcome(rows, id) matches Ok(a) ==> rows.contains(a) && a.id == id,
        get_outcome(rows, id) matches Err(e) ==> e == ErrorView::NotFound(id),
        has_version(rows, model, version) <==> exists|i: int|
            0 <= i < rows.len() && (#[trigger] rows[i]).model == model && rows[i].version
                == version,
{
    if has_id(rows, id) {
        let i = keyed::lemma_held::<ArtifactRecord>(rows, id);
        assert(rows[i].id == id);
    }
    if exists|i: int| 0 <= i < rows.len() && (#[trigger] rows[i]).id == id {
        let i = choose|i: int| 0 <= i < rows.len() && (#[trigger] rows[i]).id == id;
        assert(keyed::holds_at::<ArtifactRecord>(rows, id, i));
    }
    if has_version(rows, model, version) {
        let i = choose|i: int| is_version(rows, model, version, i);
        assert(rows[i].model == model);
    }
    if exists|i: int|
        0 <= i < rows.len() && (#[trigger] rows[i]).model == model && rows[i].version == version {
        let i = choose|i: int|
            0 <= i < rows.len() && (#[trigger] rows[i]).model == model && rows[i].version
                == version;
        assert(is_version(rows, model, version, i));
    }
}

/// Of artifacts of the same second, the one that was registered first is listed first.
pub proof fn equals_keep_their_order(
    rows: Seq<ArtifactView>,
    model: Seq<char>,
    channel: Seq<char>,
    a: int,
    b: int,
)
    requires
        0 <= a < b < newest_first(rows, model, channel).len(),
        newest_first(rows, model, channel)[a].created_at == newest_first(
            rows,
            model,
            channel,
        )[b].created_at,
    ensures
        exists|i: int, j: int|
            0 <= i < j < rows.len() && #[trigger] rows[i] == newest_first(rows, model, channel)[a]
                && #[trigger] rows[j] == newest_first(rows, model, channel)[b],
{
    let chosen = lemma_ranking_exists(rows, model, channel);
    lemma_newest_first(rows, model, channel, chosen);
    let all = newest_first(rows, model, channel);
    assert(comes_before(rows, chosen[a], chosen[b]));
    assert(rows[chosen[a]] == all[a] && rows[chosen[b]] == all[b]);
}

/// Where no artifact is of the model and on the channel, there is no latest one, and the
/// refusal names both.
pub proof fn no_latest_without_any(rows: Seq<ArtifactView>, model: Seq<char>, channel: Seq<char>)
    requires
        forall|i: int|
            0 <= i < rows.len() ==> (#[trigger] rows[i]).model != model || rows[i].channel
                != channel,
    ensures
        newest_first(rows, model, channel).len() == 0,
        latest_outcome(rows, model, channel) == Err::<ArtifactView, ErrorView>(
            ErrorView::NotFound(model + "@latest ("@ + channel + ")"@),
        ),
{
    list_is_newest_first(rows, model, channel);
    let all = newest_first(rows, model, channel);
    if all.len() > 0 {
        assert(all.contains(all[0]));
        let i = choose|i: int| 0 <= i < rows.len() && rows[i] == all[0];
        assert(rows[i].model == model);
    }
}

/// A register is in order exactly where no two rows have the same identifier, nor the same
/// model together with the same version.
pub proof fn rows_are_told_apart(rows: Seq<ArtifactView>)
    ensures
        rows_wf(rows) <==> forall|i: int, j: int|
            0 <= i < j < rows.len() ==> (#[trigger] rows[i]).id != (#[trigger] rows[j]).id && !(
            rows[i].model == rows[j].model && rows[i].version == rows[j].version),
{
    if forall|i: int, j: int|
        0 <= i < j < rows.len() ==> (#[trigger] rows[i]).id != (#[trigger] rows[j]).id && !(
        rows[i].model == rows[j].model && rows[i].version == rows[j].version) {
        assert forall|i: int, j: int|
            0 <= i < rows.len() && 0 <= j < rows.len() && i
                != j implies <ArtifactRecord as keyed::Row>::key(#[trigger] rows[i])
            != <ArtifactRecord as keyed::Row>::key(#[trigger] rows[j]) by {
            if i < j {
                assert(rows[i].id != rows[j].id);
            } else {
                assert(rows[j].id != rows[i].id);
            }
        }
    }
}

} // verus!
