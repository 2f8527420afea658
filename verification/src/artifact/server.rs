//! The artifact service: requests in, answers out.

use std::sync::Arc;

use vstd::prelude::*;

use crate::artifact::error::Error;
use crate::artifact::error::ErrorView;
use crate::artifact::registry;
use crate::artifact::registry::ArtifactView;
use crate::artifact::registry::{ArtifactRecord, NewArtifact, Registry};
use crate::keyed;
use crate::selection;
use crate::sources;
use crate::status::StatusView;
use crate::status::{Code, Status, Timestamp};
use crate::text::join4;

verus! {

/// How many artifacts a list holds when the request does not say.
pub const DEFAULT_LIST: i64 = 50;

/// For how many seconds an upload address is valid.
pub const UPLOAD_SECONDS: u64 = 3600;

/// An artifact as the service describes it.
#[derive(Debug)]
pub struct ArtifactMeta {
    pub artifact_id: String,
    pub model: String,
    pub version: String,
    pub download_url: String,
    pub sha256: String,
    pub size_bytes: u64,
    pub channel: String,
    pub created_at: Timestamp,
}

/// What an [`ArtifactMeta`] says.
#[verifier::ext_equal]
pub struct MetaView {
    pub artifact_id: Seq<char>,
    pub model: Seq<char>,
    pub version: Seq<char>,
    pub download_url: Seq<char>,
    pub sha256: Seq<char>,
    pub size_bytes: u64,
    pub channel: Seq<char>,
    pub created_at: Timestamp,
}

impl View for ArtifactMeta {
    type V = MetaView;

    open spec fn view(&self) -> MetaView {
        MetaView {
            artifact_id: self.artifact_id@,
            model: self.model@,
            version: self.version@,
            download_url: self.download_url@,
            sha256: self.sha256@,
            size_bytes: self.size_bytes,
            channel: self.channel@,
            created_at: self.created_at,
        }
    }
}

pub struct PublishRequest {
    pub model: String,
    pub version: String,
    pub sha256: String,
    pub size_bytes: u64,
    pub channel: String,
    pub object_key: String,
}

pub struct ListArtifactsRequest {
    pub model: String,
    pub channel: String,
    pub limit: i32,
}

pub struct UploadUrlRequest {
    pub model: String,
    pub version: String,
}

#[derive(Debug)]
pub struct UploadUrlResponse {
    pub upload_url: String,
    pub object_key: String,
}

/// An artifact as the service describes it: its record without the object key, the size as
/// an unsigned number of the same bits, the time to the second.
pub open spec fn meta_of(a: ArtifactView) -> MetaView {
    MetaView {
        artifact_id: a.id,
        model: a.model,
        version: a.version,
        download_url: a.download_url,
        sha256: a.sha256,
        size_bytes: a.size_bytes as u64,
        channel: a.channel,
        created_at: Timestamp::second(a.created_at),
    }
}

/// Artifacts as the service describes them.
pub open spec fn metas_of(list: Seq<ArtifactView>) -> Seq<MetaView> {
    list.map_values(|a: ArtifactView| meta_of(a))
}

/// An artifact as the service describes it.
pub fn record_to_proto(r: ArtifactRecord) -> (meta: ArtifactMeta)
    ensures
        meta@ == meta_of(r@),
        meta.artifact_id@ == r.id@,
        meta.model@ == r.model@,
        meta.version@ == r.version@,
        meta.download_url@ == r.download_url@,
        meta.sha256@ == r.sha256@,
        meta.size_bytes == r.size_bytes as u64,
        meta.channel@ == r.channel@,
        meta.created_at.seconds == r.created_at,
        meta.created_at.nanos == 0,
{
    ArtifactMeta {
        artifact_id: r.id,
        model: r.model,
        version: r.version,
        download_url: r.download_url,
        sha256: r.sha256,
        size_bytes: #[verifier::truncate] (r.size_bytes as u64),
        channel: r.channel,
        created_at: Timestamp::at_second(r.created_at),
    }
}

/// How a failure is answered.
pub open spec fn refusal(e: ErrorView) -> StatusView {
    match e {
        ErrorView::NotFound(m) => StatusView { code: Code::NotFound, message: m },
        ErrorView::VersionConflict { .. } => StatusView {
            code: Code::AlreadyExists,
            message: e.message(),
        },
        _ => StatusView { code: Code::Internal, message: e.message() },
    }
}

/// How a failure is answered.
pub fn map_err(e: Error) -> (r: Status)
    ensures
        r@ == refusal(e@),
{
    match e {
        Error::NotFound(m) => Status::new(Code::NotFound, m),
        other => {
            let message: String = other.message();
            match other {
                Error::VersionConflict { .. } => Status::new(Code::AlreadyExists, message),
                _ => Status::new(Code::Internal, message),
            }
        },
    }
}

/// How many artifacts a list holds: as many as the request says, where it says a positive
/// number.
pub open spec fn list_size(limit: i32) -> i64 {
    if limit > 0 {
        limit as i64
    } else {
        DEFAULT_LIST
    }
}

/// A published artifact as it is described under the identifier `id` at the time `now`. It
/// has no download address yet.
pub open spec fn published_meta(req: PublishRequest, id: Seq<char>, now: i64) -> MetaView {
    MetaView {
        artifact_id: id,
        model: req.model@,
        version: req.version@,
        download_url: Seq::empty(),
        sha256: req.sha256@,
        size_bytes: req.size_bytes,
        channel: req.channel@,
        created_at: Timestamp::second(now),
    }
}

/// What a publication puts into the register.
pub open spec fn published_row(req: PublishRequest, id: Seq<char>, now: i64) -> ArtifactView {
    ArtifactView {
        id,
        model: req.model@,
        version: req.version@,
        sha256: req.sha256@,
        size_bytes: req.size_bytes as i64,
        channel: req.channel@,
        object_key: req.object_key@,
        download_url: Seq::empty(),
        created_at: now,
    }
}

/// The artifact service, with the register and the storage that it works on.
pub struct ArtifactServer<R, S> {
    registry: Arc<R>,
    storage: Arc<S>,
}

impl<R, S> Clone for ArtifactServer<R, S> {
    fn clone(&self) -> (r: Self)
        ensures
            r == *self,
    {
        ArtifactServer { registry: self.registry.clone(), storage: self.storage.clone() }
    }
}

impl<R, S> ArtifactServer<R, S> {
    /// The register that the service works on.
    pub closed spec fn spec_registry(&self) -> Arc<R> {
        self.registry
    }

    /// The storage that the service works on.
    pub closed spec fn spec_storage(&self) -> Arc<S> {
        self.storage
    }

    /// The service on a register and a storage.
    pub fn new(registry: Arc<R>, storage: Arc<S>) -> (r: Self)
        ensures
            r.spec_registry() == registry,
            r.spec_storage() == storage,
    {
        Self { registry, storage }
    }

    /// The register that the service works on.
    pub fn registry(&self) -> (r: &Arc<R>)
        ensures
            *r == self.spec_registry(),
    {
        &self.registry
    }

    /// The storage that the service works on.
    pub fn storage(&self) -> (r: &Arc<S>)
        ensures
            *r == self.spec_storage(),
    {
        &self.storage
    }

    /// Registers what is published, under the identifier `id` at the time `now`. Without a
    /// checksum nothing is published.
    pub fn publish_artifact_as(
        &self,
        table: &mut Registry,
        req: PublishRequest,
        id: String,
        now: i64,
    ) -> (r: Result<ArtifactMeta, Status>)
        requires
            old(table).wf(),
        ensures
            final(table).wf(),
            if req.sha256@.len() == 0 {
                &&& r matches Err(s) && s@ == (StatusView {
                    code: Code::InvalidArgument,
                    message: "sha256 cannot be empty"@,
                })
                &&& final(table)@ == old(table)@
            } else if registry::has_version(old(table)@, req.model@, req.version@)
                || registry::has_id(old(table)@, id@) {
                &&& r matches Err(s) && s@ == refusal(
                    ErrorView::VersionConflict { model: req.model@, version: req.version@ },
                )
                &&& final(table)@ == old(table)@
            } else {
                &&& r matches Ok(meta) && meta@ == published_meta(req, id@, now)
                &&& r matches Ok(meta) && {
                    &&& meta.artifact_id@ == id@
                    &&& meta.model@ == req.model@
                    &&& meta.version@ == req.version@
                    &&& meta.download_url@.len() == 0
                    &&& meta.sha256@ == req.sha256@
                    &&& meta.size_bytes == req.size_bytes
                    &&& meta.channel@ == req.channel@
                    &&& meta.created_at.seconds == now
                }
                &&& final(table)@ == old(table)@.push(published_row(req, id@, now))
            },
    {
        if req.sha256.as_str().is_empty() {
            return Err(Status::new(Code::InvalidArgument, "sha256 cannot be empty".to_owned()));
        }
        let size: u64 = req.size_bytes;
        proof {
            assert((size as i64) as u64 == size) by (bit_vector);
        }
        let a = NewArtifact {
            model: req.model,
            version: req.version,
            sha256: req.sha256,
            size_bytes: #[verifier::truncate] (size as i64),
            channel: req.channel,
            object_key: req.object_key,
            download_url: String::new(),
        };
        assert(a.download_url@ =~= Seq::<char>::empty());
        match table.create_as(a, id, now) {
            Ok(record) => Ok(record_to_proto(record)),
            Err(e) => Err(map_err(e)),
        }
    }

    /// Registers what is published now, under a fresh identifier.
    pub fn publish_artifact(&self, table: &mut Registry, req: PublishRequest) -> (r: Result<
        ArtifactMeta,
        Status,
    >)
        requires
            old(table).wf(),
        ensures
            final(table).wf(),
            req.sha256@.len() == 0 ==> {
                &&& r matches Err(s) && s@ == (StatusView {
                    code: Code::InvalidArgument,
                    message: "sha256 cannot be empty"@,
                })
                &&& final(table)@ == old(table)@
            },
            req.sha256@.len() > 0 && registry::has_version(old(table)@, req.model@, req.version@)
                ==> r is Err,
            req.sha256@.len() > 0 ==> match r {
                Ok(meta) => exists|now: i64|
                    {
                        &&& sources::is_reading(now as int)
                        &&& meta@ == published_meta(req, meta.artifact_id@, now)
                        &&& final(table)@ == old(table)@.push(
                            #[trigger] published_row(req, meta.artifact_id@, now),
                        )
                    } && sources::is_uuid_text(meta.artifact_id@) && !registry::has_id(
                    old(table)@,
                    meta.artifact_id@,
                ),
                Err(s) => {
                    &&& s@ == refusal(
                        ErrorView::VersionConflict { model: req.model@, version: req.version@ },
                    )
                    &&& registry::has_version(old(table)@, req.model@, req.version@)
                        || exists|id: Seq<char>|
                        sources::is_uuid_text(id) && #[trigger] registry::has_id(old(table)@, id)
                    &&& final(table)@ == old(table)@
                },
            },
            r matches Ok(meta) ==> {
                &&& req.sha256@.len() > 0
                &&& final(table)@.len() == old(table)@.len() + 1
                &&& final(table)@.last().id == meta.artifact_id@
                &&& meta.model@ == req.model@ && meta.version@ == req.version@
                &&& meta.channel@ == req.channel@ && meta.sha256@ == req.sha256@
                &&& meta.size_bytes == req.size_bytes
            },
    {
        let id: String = sources::new_uuid();
        let now: i64 = sources::unix_now();
        let ghost entry = published_row(req, id@, now);
        let r = self.publish_artifact_as(table, req, id, now);
        proof {
            if let Ok(meta) = &r {
                assert(entry == published_row(req, meta.artifact_id@, now));
            }
        }
        r
    }

    /// Describes an artifact.
    pub fn get_artifact(&self, table: &Registry, artifact_id: &str) -> (r: Result<
        ArtifactMeta,
        Status,
    >)
        requires
            table.wf(),
        ensures
            match registry::get_outcome(table@, artifact_id@) {
                Ok(a) => r matches Ok(meta) && meta@ == meta_of(a),
                Err(e) => r matches Err(s) && s@ == refusal(e),
            },
            r matches Ok(meta) ==> meta.artifact_id@ == artifact_id@,
    {
        match table.get(artifact_id) {
            Ok(record) => Ok(record_to_proto(record)),
            Err(e) => Err(map_err(e)),
        }
    }

    /// Describes the artifacts of a model and a channel, the newest first.
    pub fn list_artifacts(&self, table: &Registry, req: &ListArtifactsRequest) -> (r: Vec<
        ArtifactMeta,
    >)
        ensures
            keyed::views(r@) == metas_of(
                selection::at_most(
                    registry::newest_first(table@, req.model@, req.channel@),
                    list_size(req.limit) as int,
                ),
            ),
    {
        let limit: i64 = if req.limit > 0 {
            req.limit as i64
        } else {
            DEFAULT_LIST
        };
        let records: Vec<ArtifactRecord> = table.list(
            req.model.as_str(),
            req.channel.as_str(),
            limit,
        );
        let ghost shown = keyed::views(records@);
        let mut metas: Vec<ArtifactMeta> = Vec::new();
        let mut i: usize = 0;
        while i < records.len()
            invariant
                i <= records@.len(),
                shown == keyed::views(records@),
                keyed::views(metas@) =~= metas_of(shown.take(i as int)),
            decreases records.len() - i,
        {
            let ghost before = keyed::views(metas@);
            let meta: ArtifactMeta = record_to_proto(records[i].clone());
            let ghost said = meta@;
            metas.push(meta);
            assert(keyed::views(metas@) =~= before.push(said));
            assert(shown.take(i + 1) =~= shown.take(i as int).push(shown[i as int]));
            i = i + 1;
        }
        assert(shown.take(i as int) =~= shown);
        metas
    }

    /// Describes the newest artifact of a model and a channel.
    pub fn get_latest(&self, table: &Registry, model: &str, channel: &str) -> (r: Result<
        ArtifactMeta,
        Status,
    >)
        ensures
            match registry::latest_outcome(table@, model@, channel@) {
                Ok(a) => r matches Ok(meta) && meta@ == meta_of(a),
                Err(e) => r matches Err(s) && s@ == refusal(e),
            },
            r matches Ok(meta) ==> meta.model@ == model@ && meta.channel@ == channel@,
            r is Ok <==> exists|i: int|
                0 <= i < table@.len() && (#[trigger] table@[i]).model == model@ && table@[i].channel
                    == channel@,
    {
        match table.get_latest(model, channel) {
            Ok(record) => {
                proof {
                    let i = choose|i: int| 0 <= i < table@.len() && table@[i] == record@;
                    assert(table@[i].model == model@ && table@[i].channel == channel@);
                }
                Ok(record_to_proto(record))
            },
            Err(e) => Err(map_err(e)),
        }
    }

    /// The key under which the firmware of a version is stored.
    pub open spec fn firmware_key(model: Seq<char>, version: Seq<char>) -> Seq<char> {
        model + "/"@ + version + "/firmware.bin"@
    }

    /// What the storage is asked when an upload address is wanted: the key of the object,
    /// and for how many seconds the address is to be valid.
    pub fn upload_key(&self, req: &UploadUrlRequest) -> (r: (String, u64))
        ensures
            r.0@ == Self::firmware_key(req.model@, req.version@),
            r.0@ == req.model@ + "/"@ + req.version@ + "/firmware.bin"@,
            r.1 == UPLOAD_SECONDS,
            r.1 == 3600,
    {
        (join4(req.model.as_str(), "/", req.version.as_str(), "/firmware.bin"), UPLOAD_SECONDS)
    }

    /// Answers with the address that the storage gave for `key`, or says why there is none.
    pub fn generate_upload_url(&self, key: String, presigned: Result<String, Error>) -> (r: Result<
        UploadUrlResponse,
        Status,
    >)
        ensures
            match presigned {
                Ok(url) => r matches Ok(response) && response.upload_url@ == url@
                    && response.object_key@ == key@,
                Err(e) => r matches Err(s) && s@ == refusal(e@),
            },
    {
        match presigned {
            Ok(upload_url) => Ok(UploadUrlResponse { upload_url, object_key: key }),
            Err(e) => Err(map_err(e)),
        }
    }
}

/// What is published is described, when it is asked for, as it was described when it was
/// published, whatever its size.
pub proof fn published_artifact_is_described_alike(
    rows: Seq<ArtifactView>,
    req: PublishRequest,
    id: Seq<char>,
    now: i64,
)
    requires
        registry::rows_wf(rows),
        !registry::has_version(rows, req.model@, req.version@),
        !registry::has_id(rows, id),
    ensures
        ({
            let found = registry::get_outcome(rows.push(published_row(req, id, now)), id);
            found matches Ok(a) && meta_of(a) == published_meta(req, id, now)
        }),
{
    let size: u64 = req.size_bytes;
    assert((size as i64) as u64 == size) by (bit_vector);
    registry::registered_artifact_is_found(rows, published_row(req, id, now), id);
}

/// An artifact is described by what its record says, each thing under its own name; the size
/// comes back whatever it is.
pub proof fn descriptions_say_what_the_record_says(a: ArtifactView)
    ensures
        meta_of(a).artifact_id == a.id,
        meta_of(a).model == a.model,
        meta_of(a).version == a.version,
        meta_of(a).download_url == a.download_url,
        meta_of(a).sha256 == a.sha256,
        meta_of(a).size_bytes as i64 == a.size_bytes,
        0 <= a.size_bytes ==> meta_of(a).size_bytes == a.size_bytes,
        meta_of(a).channel == a.channel,
        meta_of(a).created_at.seconds == a.created_at,
        meta_of(a).created_at.nanos == 0,
{
    let size: i64 = a.size_bytes;
    assert((size as u64) as i64 == size) by (bit_vector);
}

/// A list describes the artifacts one by one, in their order.
pub proof fn lists_describe_one_by_one(list: Seq<ArtifactView>, i: int)
    requires
        0 <= i < list.len(),
    ensures
        metas_of(list).len() == list.len(),
        metas_of(list)[i].artifact_id == list[i].id,
        metas_of(list)[i] == meta_of(list[i]),
{
}

/// What is published is registered as it was published, under the identifier and at the time
/// given, without a download address, and is described in the same way.
pub proof fn publications_are_registered_as_published(
    req: PublishRequest,
    id: Seq<char>,
    now: i64,
)
    ensures
        ({
            let row = published_row(req, id, now);
            &&& row.id == id
            &&& row.model == req.model@
            &&& row.version == req.version@
            &&& row.sha256 == req.sha256@
            &&& row.size_bytes as u64 == req.size_bytes
            &&& row.channel == req.channel@
            &&& row.object_key == req.object_key@
            &&& row.download_url.len() == 0
            &&& row.created_at == now
            &&& published_meta(req, id, now) == meta_of(row)
        }),
{
    let size: u64 = req.size_bytes;
    assert((size as i64) as u64 == size) by (bit_vector);
}

/// A list is as long as was asked for, and fifty long where nothing positive was asked for.
pub proof fn lists_are_as_long_as_asked(limit: i32)
    ensures
        limit > 0 ==> list_size(limit) == limit,
        limit <= 0 ==> list_size(limit) == 50,
{
}

/// Each failure has its own kind of refusal: what is not there is not found, a second copy of
/// a version already exists, and all else is internal.
pub proof fn failures_are_told_by_kind(m: Seq<char>, other: Seq<char>)
    ensures
        refusal(ErrorView::NotFound(m)).code == Code::NotFound,
        refusal(ErrorView::NotFound(m)).message == m,
        refusal(ErrorView::VersionConflict { model: m, version: other }).code
            == Code::AlreadyExists,
        refusal(ErrorView::VersionConflict { model: m, version: other }).message
            == "version already exists: "@ + m + "@"@ + other,
        refusal(ErrorView::Db(m)).code == Code::Internal,
        refusal(ErrorView::Db(m)).message == "database error: "@ + m,
        refusal(ErrorView::Storage(m)).code == Code::Internal,
        refusal(ErrorView::Storage(m)).message == "storage error: "@ + m,
        refusal(ErrorView::ChecksumMismatch { expected: m, actual: other }).code
            == Code::Internal,
        refusal(ErrorView::ChecksumMismatch { expected: m, actual: other }).message
            == "checksum mismatch: expected "@ + m + ", got "@ + other,
{
}

} // verus!
