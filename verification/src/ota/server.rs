//! The update service: requests in, answers out.

use vstd::prelude::*;

use crate::keyed;
use crate::ota::dispatcher::CommandView;
use crate::ota::dispatcher::{Dispatcher, UpdateCommand};
use crate::ota::error::Error;
use crate::ota::error::ErrorView;
use crate::ota::store;
use crate::ota::store::{JobRecord, JobStatus, JobStore, NewJob};
use crate::ota::store::{JobView, RowView};
use crate::sources;
use crate::status::StatusView;
use crate::status::{Code, Status, Timestamp};
use crate::text::join3;

verus! {

/// How many jobs a page holds when the request does not say.
pub const DEFAULT_PAGE: i64 = 20;

/// A job as the service describes it.
#[derive(Debug)]
pub struct UpdateJob {
    pub update_job_id: String,
    pub device_id: String,
    pub target_version: String,
    pub artifact_url: String,
    pub status: String,
    pub error_message: String,
    pub created_at: Option<Timestamp>,
    pub completed_at: Option<Timestamp>,
}

/// What an [`UpdateJob`] says.
#[verifier::ext_equal]
pub struct UpdateJobView {
    pub update_job_id: Seq<char>,
    pub device_id: Seq<char>,
    pub target_version: Seq<char>,
    pub artifact_url: Seq<char>,
    pub status: Seq<char>,
    pub error_message: Seq<char>,
    pub created_at: Option<Timestamp>,
    pub completed_at: Option<Timestamp>,
}

impl View for UpdateJob {
    type V = UpdateJobView;

    open spec fn view(&self) -> UpdateJobView {
        UpdateJobView {
            update_job_id: self.update_job_id@,
            device_id: self.device_id@,
            target_version: self.target_version@,
            artifact_url: self.artifact_url@,
            status: self.status@,
            error_message: self.error_message@,
            created_at: self.created_at,
            completed_at: self.completed_at,
        }
    }
}

/// Whether there is an update for a device, and which.
#[derive(Debug)]
pub struct CheckUpdateResponse {
    pub update_available: bool,
    pub target_version: String,
    pub artifact_url: String,
    pub sha256: String,
    pub size_bytes: u64,
    pub update_job_id: String,
}

/// What a [`CheckUpdateResponse`] says.
#[verifier::ext_equal]
pub struct CheckView {
    pub update_available: bool,
    pub target_version: Seq<char>,
    pub artifact_url: Seq<char>,
    pub sha256: Seq<char>,
    pub size_bytes: u64,
    pub update_job_id: Seq<char>,
}

impl View for CheckUpdateResponse {
    type V = CheckView;

    open spec fn view(&self) -> CheckView {
        CheckView {
            update_available: self.update_available,
            target_version: self.target_version@,
            artifact_url: self.artifact_url@,
            sha256: self.sha256@,
            size_bytes: self.size_bytes,
            update_job_id: self.update_job_id@,
        }
    }
}

/// What a device says when it is done with an update.
pub struct AckUpdateRequest {
    pub update_job_id: String,
    pub device_id: String,
    pub success: bool,
    pub error_message: String,
    pub version: String,
}

#[derive(Debug)]
pub struct AckUpdateResponse {
    pub accepted: bool,
}

pub struct DispatchUpdateRequest {
    pub device_id: String,
    pub target_version: String,
    pub apply_by: Option<Timestamp>,
}

pub struct ListUpdateJobsRequest {
    pub device_id: String,
    pub limit: i32,
    pub cursor: String,
}

#[derive(Debug)]
pub struct ListUpdateJobsResponse {
    pub jobs: Vec<UpdateJob>,
    pub next_cursor: String,
}

/// How a failure is answered.
pub open spec fn refusal(e: ErrorView) -> StatusView {
    match e {
        ErrorView::NotFound(m) => StatusView { code: Code::NotFound, message: m },
        ErrorView::AlreadyPending => StatusView {
            code: Code::AlreadyExists,
            message: "device already has an active job"@,
        },
        ErrorView::NoActiveSubscribers(id) => StatusView {
            code: Code::Unavailable,
            message: "device "@ + id + " is not connected"@,
        },
        ErrorView::Db(m) => StatusView { code: Code::Internal, message: m },
        _ => StatusView { code: Code::Internal, message: "internal error"@ },
    }
}

/// How a failure is answered.
pub fn to_status(e: Error) -> (r: Status)
    ensures
        r@ == refusal(e@),
{
    match e {
        Error::NotFound(m) => Status::new(Code::NotFound, m),
        Error::AlreadyPending => Status::new(
            Code::AlreadyExists,
            "device already has an active job".to_owned(),
        ),
        Error::NoActiveSubscribers(id) => Status::new(
            Code::Unavailable,
            join3("device ", id.as_str(), " is not connected"),
        ),
        Error::Db(m) => Status::new(Code::Internal, m),
        _ => Status::new(Code::Internal, "internal error".to_owned()),
    }
}

/// A text, or the empty one where there is none.
pub open spec fn or_empty(text: Option<Seq<char>>) -> Seq<char> {
    match text {
        Some(t) => t,
        None => Seq::empty(),
    }
}

/// A job as the service describes it. The times are left out.
pub open spec fn described(job: JobView) -> UpdateJobView {
    UpdateJobView {
        update_job_id: job.id,
        device_id: job.device_id,
        target_version: job.target_version,
        artifact_url: job.artifact_url,
        status: job.status.text(),
        error_message: or_empty(job.error_message),
        created_at: None,
        completed_at: None,
    }
}

/// Jobs as the service describes them.
pub open spec fn all_described(jobs: Seq<JobView>) -> Seq<UpdateJobView> {
    jobs.map_values(|job: JobView| described(job))
}

/// A job as the service describes it.
pub fn record_to_proto(r: &JobRecord) -> (job: UpdateJob)
    ensures
        job@ == described(r@),
        job.update_job_id@ == r.id@,
        job.device_id@ == r.device_id@,
        job.target_version@ == r.target_version@,
        job.artifact_url@ == r.artifact_url@,
        job.status@ == r.status.text(),
        match r.error_message {
            Some(m) => job.error_message@ == m@,
            None => job.error_message@.len() == 0,
        },
        job.created_at is None,
        job.completed_at is None,
{
    let error_message: String = match &r.error_message {
        Some(m) => m.clone(),
        None => String::new(),
    };
    assert(error_message@ =~= or_empty(r@.error_message));
    UpdateJob {
        update_job_id: r.id.clone(),
        device_id: r.device_id.clone(),
        target_version: r.target_version.clone(),
        artifact_url: r.artifact_url.clone(),
        status: r.status.as_str().to_owned(),
        error_message,
        created_at: None,
        completed_at: None,
    }
}

/// The answer to a device for which there is no update.
pub open spec fn nothing_to_do() -> CheckView {
    CheckView {
        update_available: false,
        target_version: Seq::empty(),
        artifact_url: Seq::empty(),
        sha256: Seq::empty(),
        size_bytes: 0,
        update_job_id: Seq::empty(),
    }
}

/// The answer to a device that has a job.
pub open spec fn update_for(job: JobView) -> CheckView {
    CheckView {
        update_available: true,
        target_version: job.target_version,
        artifact_url: job.artifact_url,
        sha256: job.sha256,
        size_bytes: job.size_bytes,
        update_job_id: job.id,
    }
}

/// Where a job stands when the device is done with it.
pub open spec fn acked_status(success: bool) -> JobStatus {
    if success {
        JobStatus::Completed
    } else {
        JobStatus::Failed
    }
}

/// A message that stands for none when it is empty.
pub open spec fn unless_empty(text: Seq<char>) -> Option<Seq<char>> {
    if text.len() == 0 {
        None
    } else {
        Some(text)
    }
}

/// How many jobs a page holds: as many as the request says, where it says a positive number.
pub open spec fn page_size(limit: i32) -> i64 {
    if limit <= 0 {
        DEFAULT_PAGE
    } else {
        limit as i64
    }
}

/// The job that a dispatch request asks for. Where the artifact is, and what is in it, is not
/// known yet.
pub open spec fn requested_job(
    req: DispatchUpdateRequest,
    id: Seq<char>,
    created_at: Seq<char>,
) -> JobView {
    JobView {
        id,
        device_id: req.device_id@,
        target_version: req.target_version@,
        artifact_url: Seq::empty(),
        sha256: Seq::empty(),
        size_bytes: 0,
        status: JobStatus::Pending,
        error_message: None,
        created_at,
    }
}

/// The row that a dispatch request puts into the table.
pub open spec fn requested_row(
    req: DispatchUpdateRequest,
    id: Seq<char>,
    created_at: Seq<char>,
) -> RowView {
    RowView {
        id,
        device_id: req.device_id@,
        target_version: req.target_version@,
        artifact_url: Seq::empty(),
        sha256: Seq::empty(),
        size_bytes: 0,
        status: "pending"@,
        error_message: None,
        created_at,
    }
}

/// The command that a job and a deadline make.
pub open spec fn command_for(job: JobView, apply_by: Option<Timestamp>) -> CommandView {
    CommandView {
        update_job_id: job.id,
        target_version: job.target_version,
        artifact_url: job.artifact_url,
        sha256: job.sha256,
        size_bytes: job.size_bytes,
        apply_by,
    }
}

/// The command that a job and a deadline make.
pub fn make_command(job: &JobRecord, apply_by: Option<Timestamp>) -> (r: UpdateCommand)
    ensures
        r@ == command_for(job@, apply_by),
        r.update_job_id@ == job.id@,
        r.target_version@ == job.target_version@,
        r.artifact_url@ == job.artifact_url@,
        r.sha256@ == job.sha256@,
        r.size_bytes == job.size_bytes,
        r.apply_by == apply_by,
{
    UpdateCommand {
        update_job_id: job.id.clone(),
        target_version: job.target_version.clone(),
        artifact_url: job.artifact_url.clone(),
        sha256: job.sha256.clone(),
        size_bytes: job.size_bytes,
        apply_by,
    }
}

/// Answers a dispatch: with the job, where the command went out.
pub fn answer_dispatched(job: &JobRecord, sent: Result<usize, Error>) -> (r: Result<
    UpdateJob,
    Status,
>)
    ensures
        match sent {
            Ok(_) => r matches Ok(answer) && answer@ == described(job@),
            Err(e) => r matches Err(s) && s@ == refusal(e@),
        },
{
    match sent {
        Ok(_) => Ok(record_to_proto(job)),
        Err(e) => Err(to_status(e)),
    }
}

/// The update service.
pub struct OtaServer;

impl OtaServer {
    /// A receiver for the commands to a device.
    pub fn watch_updates(&self, dispatcher: &mut Dispatcher, device_id: &str) -> (r:
        tokio::sync::broadcast::Receiver<UpdateCommand>)
        requires
            old(dispatcher).wf(),
        ensures
            final(dispatcher).wf(),
            final(dispatcher)@.contains_key(device_id@),
            crate::ota::dispatcher::listens_on(r) == final(dispatcher)@[device_id@].channel,
            crate::ota::dispatcher::listens_from(r)
                == final(dispatcher)@[device_id@].delivered.len(),
            if old(dispatcher)@.contains_key(device_id@) {
                final(dispatcher)@ == old(dispatcher)@
            } else {
                &&& final(dispatcher)@ == old(dispatcher)@.insert(
                    device_id@,
                    final(dispatcher)@[device_id@],
                )
                &&& final(dispatcher)@[device_id@].delivered == Seq::<CommandView>::empty()
                &&& final(dispatcher)@[device_id@].refused == Seq::<CommandView>::empty()
                &&& final(dispatcher)@[device_id@].capacity
                    == crate::ota::dispatcher::CHANNEL_CAPACITY
            },
    {
        dispatcher.subscribe(device_id)
    }

    /// Tells a device whether there is an update for it: the oldest job that is not over.
    pub fn check_update(&self, jobs: &JobStore, device_id: &str) -> (r: CheckUpdateResponse)
        ensures
            if store::has_active(jobs@, device_id@) {
                exists|i: int|
                    {
                        &&& #[trigger] store::is_due(jobs@, device_id@, i)
                        &&& r@ == update_for(jobs@[i].job())
                        &&& 0 <= i < jobs@.len()
                        &&& jobs@[i].device_id == device_id@
                        &&& r.update_available
                        &&& r.update_job_id@ == jobs@[i].id
                        &&& r.target_version@ == jobs@[i].target_version
                        &&& r.artifact_url@ == jobs@[i].artifact_url
                        &&& r.sha256@ == jobs@[i].sha256
                        &&& r.size_bytes == jobs@[i].size_bytes as u64
                    }
            } else {
                r@ == nothing_to_do()
            },
            r.update_available <==> exists|i: int|
                0 <= i < jobs@.len() && (#[trigger] jobs@[i]).device_id == device_id@ && (
                jobs@[i].status == "pending"@ || jobs@[i].status == "in_progress"@),
            !r.update_available ==> r.update_job_id@.len() == 0 && r.target_version@.len() == 0
                && r.artifact_url@.len() == 0 && r.sha256@.len() == 0 && r.size_bytes == 0,
    {
        match jobs.get_pending_for_device(device_id) {
            None => {
                let r = CheckUpdateResponse {
                    update_available: false,
                    target_version: String::new(),
                    artifact_url: String::new(),
                    sha256: String::new(),
                    size_bytes: 0,
                    update_job_id: String::new(),
                };
                assert(r@ =~= nothing_to_do());
                assert forall|i: int|
                    0 <= i < jobs@.len() && (#[trigger] jobs@[i]).device_id == device_id@ && (
                    jobs@[i].status == "pending"@ || jobs@[i].status
                        == "in_progress"@) implies false by {
                    assert(store::active_at(jobs@, device_id@, i));
                }
                r
            },
            Some(j) => {
                let ghost i = choose|i: int|
                    #[trigger] store::is_due(jobs@, device_id@, i) && j@ == jobs@[i].job();
                assert(store::is_due(jobs@, device_id@, i));
                assert(store::active_at(jobs@, device_id@, i));
                assert(jobs@[i].device_id == device_id@);
                CheckUpdateResponse {
                    update_available: true,
                    target_version: j.target_version,
                    artifact_url: j.artifact_url,
                    sha256: j.sha256,
                    size_bytes: j.size_bytes,
                    update_job_id: j.id,
                }
            },
        }
    }

    /// Notes that a device is done with a job, for better or worse.
    pub fn ack_update(&self, jobs: &mut JobStore, req: &AckUpdateRequest) -> (r: Result<
        AckUpdateResponse,
        Status,
    >)
        requires
            old(jobs).wf(),
        ensures
            final(jobs).wf(),
            final(jobs)@ == store::after_status(
                old(jobs)@,
                req.update_job_id@,
                acked_status(req.success),
                unless_empty(req.error_message@),
            ),
            match r {
                Ok(response) => store::has_id(old(jobs)@, req.update_job_id@) && response.accepted,
                Err(s) => !store::has_id(old(jobs)@, req.update_job_id@) && s@ == refusal(
                    ErrorView::NotFound(req.update_job_id@),
                ),
            },
            r is Ok <==> exists|i: int|
                0 <= i < old(jobs)@.len() && (#[trigger] old(jobs)@[i]).id == req.update_job_id@,
            final(jobs)@.len() == old(jobs)@.len(),
            forall|i: int| #![trigger final(jobs)@[i]]
                0 <= i < old(jobs)@.len() && old(jobs)@[i].id == req.update_job_id@ ==> {
                    &&& final(jobs)@[i].status == (if req.success {
                        "completed"@
                    } else {
                        "failed"@
                    })
                    &&& final(jobs)@[i].error_message == (if req.error_message@.len() == 0 {
                        None
                    } else {
                        Some(req.error_message@)
                    })
                },
    {
        let status: JobStatus = if req.success {
            JobStatus::Completed
        } else {
            JobStatus::Failed
        };
        let error: Option<&str> = if req.error_message.as_str().is_empty() {
            None
        } else {
            Some(req.error_message.as_str())
        };
        proof {
            store::jobs_are_found_by_identifier(jobs@, req.update_job_id@);
        }
        match jobs.update_status(req.update_job_id.as_str(), status, error) {
            Ok(_) => Ok(AckUpdateResponse { accepted: true }),
            Err(e) => Err(to_status(e)),
        }
    }

    /// Records a job at the time `created_at` and tells the device about it. Where the device
    /// is not connected the request fails, but the job stays and waits for it.
    pub fn dispatch_update(
        &self,
        jobs: &mut JobStore,
        dispatcher: &mut Dispatcher,
        req: &DispatchUpdateRequest,
        created_at: String,
    ) -> (r: Result<UpdateJob, Status>)
        requires
            old(jobs).wf(),
            old(dispatcher).wf(),
        ensures
            final(jobs).wf(),
            final(dispatcher).wf(),
            if store::has_active(old(jobs)@, req.device_id@) {
                &&& r matches Err(s) && s@ == refusal(ErrorView::AlreadyPending)
                &&& final(jobs)@ == old(jobs)@
                &&& final(dispatcher)@ == old(dispatcher)@
            } else {
                match r {
                    Ok(answer) => {
                        let id = answer.update_job_id@;
                        let job = requested_job(*req, id, created_at@);
                        let channel = old(dispatcher)@[req.device_id@];
                        let command = command_for(job, req.apply_by);
                        &&& answer@ == described(job)
                        &&& answer.device_id@ == req.device_id@
                        &&& answer.target_version@ == req.target_version@
                        &&& answer.artifact_url@.len() == 0
                        &&& answer.error_message@.len() == 0
                        &&& answer.status@ == "pending"@
                        &&& sources::is_uuid_text(id)
                        &&& !store::has_id(old(jobs)@, id)
                        &&& final(jobs)@ == old(jobs)@.push(requested_row(*req, id, created_at@))
                        &&& old(dispatcher)@.contains_key(req.device_id@)
                        &&& exists|n: nat|
                            n > 0 && #[trigger] old(dispatcher).may_hear(req.device_id@, n)
                        &&& {
                            ||| final(dispatcher)@ == old(dispatcher)@.insert(
                                req.device_id@,
                                channel.after_delivery(command),
                            )
                            ||| final(dispatcher)@ == old(dispatcher)@.insert(
                                req.device_id@,
                                channel.after_refusal(command),
                            ) && old(dispatcher).may_hear(req.device_id@, 0)
                        }
                    },
                    Err(s) => {
                        &&& final(dispatcher)@ == old(dispatcher)@
                        &&& {
                            ||| s@ == refusal(ErrorView::NoActiveSubscribers(req.device_id@)) && (
                            old(dispatcher)@.contains_key(req.device_id@) ==> old(
                                dispatcher,
                            ).may_hear(req.device_id@, 0)) && exists|id: Seq<char>|
                                sources::is_uuid_text(id) && !store::has_id(old(jobs)@, id)
                                    && final(jobs)@ == old(jobs)@.push(
                                    #[trigger] requested_row(*req, id, created_at@),
                                )
                            ||| s@.code == Code::Internal && final(jobs)@ == old(jobs)@
                                && exists|id: Seq<char>|
                                sources::is_uuid_text(id) && #[trigger] store::has_id(
                                    old(jobs)@,
                                    id,
                                )
                        }
                    },
                }
            },
            !store::has_active(old(jobs)@, req.device_id@) && !old(dispatcher)@.contains_key(
                req.device_id@,
            ) ==> r is Err,
    {
        let job = NewJob {
            device_id: req.device_id.clone(),
            target_version: req.target_version.clone(),
            artifact_url: String::new(),
            sha256: String::new(),
            size_bytes: 0,
        };
        assert(job.artifact_url@ =~= Seq::<char>::empty());
        assert(job.sha256@ =~= Seq::<char>::empty());
        let ghost asked = job;
        let ghost time = created_at@;
        let record: JobRecord = match jobs.create_job(job, created_at) {
            Ok(record) => record,
            Err(e) => return Err(to_status(e)),
        };
        proof {
            assert(0u64 as i64 == 0i64) by (bit_vector);
            assert(store::fresh_row(asked, record.id@, time) == requested_row(
                *req,
                record.id@,
                time,
            ));
            assert(record@ == requested_job(*req, record.id@, time));
        }
        let cmd: UpdateCommand = make_command(&record, req.apply_by);
        let sent: Result<usize, Error> = dispatcher.dispatch(req.device_id.as_str(), cmd);
        answer_dispatched(&record, sent)
    }

    /// Describes a page of the jobs of a device, the newest first. The cursor is empty where no
    /// page follows.
    pub fn list_update_jobs(&self, jobs: &JobStore, req: &ListUpdateJobsRequest) -> (r:
        ListUpdateJobsResponse)
        ensures
            ({
                let all = store::history(jobs@, req.device_id@, unless_empty(req.cursor@));
                let (shown, next) = store::page(all, page_size(req.limit));
                &&& keyed::views(r.jobs@) == all_described(store::jobs_of(shown))
                &&& r.next_cursor@ == or_empty(next)
            }),
    {
        let limit: i64 = if req.limit <= 0 {
            DEFAULT_PAGE
        } else {
            req.limit as i64
        };
        let cursor: Option<&str> = if req.cursor.as_str().is_empty() {
            None
        } else {
            Some(req.cursor.as_str())
        };
        let (records, next) = jobs.list_for_device(req.device_id.as_str(), limit, cursor);
        let ghost shown = keyed::views(records@);
        let mut out: Vec<UpdateJob> = Vec::new();
        let mut i: usize = 0;
        while i < records.len()
            invariant
                i <= records@.len(),
                shown == keyed::views(records@),
                keyed::views(out@) =~= all_described(shown.take(i as int)),
            decreases records.len() - i,
        {
            let ghost before = keyed::views(out@);
            let job: UpdateJob = record_to_proto(&records[i]);
            let ghost said = job@;
            out.push(job);
            assert(keyed::views(out@) =~= before.push(said));
            assert(shown.take(i + 1) =~= shown.take(i as int).push(shown[i as int]));
            i = i + 1;
        }
        assert(shown.take(i as int) =~= shown);
        let next_cursor: String = match next {
            Some(time) => time,
            None => String::new(),
        };
        assert(next is None ==> next_cursor@ =~= Seq::<char>::empty());
        ListUpdateJobsResponse { jobs: out, next_cursor }
    }
}

/// A job that a device acknowledged, whether it succeeded or not, no longer stands in the way
/// of the next one.
pub proof fn acknowledged_job_frees_device(
    rows: Seq<RowView>,
    device: Seq<char>,
    i: int,
    success: bool,
    message: Seq<char>,
)
    requires
        crate::ota::laws::one_active_each(rows),
        store::active_at(rows, device, i),
    ensures
        !store::has_active(
            store::after_status(rows, rows[i].id, acked_status(success), unless_empty(message)),
            device,
        ),
{
    crate::ota::laws::ended_job_frees_device(
        rows,
        device,
        i,
        acked_status(success),
        unless_empty(message),
    );
}

/// A job that was recorded for a device without one is what the device is told about when it
/// asks: that version at that address, with that checksum and that size, under the identifier
/// of the job.
pub proof fn recorded_job_is_what_the_device_is_told(
    rows: Seq<RowView>,
    job: NewJob,
    id: Seq<char>,
    created_at: Seq<char>,
)
    requires
        !store::has_active(rows, job.device_id@),
    ensures
        ({
            let after = rows.push(store::fresh_row(job, id, created_at));
            let answer = update_for(after[rows.len() as int].job());
            &&& store::is_due(after, job.device_id@, rows.len() as int)
            &&& forall|i: int| #[trigger]
                store::is_due(after, job.device_id@, i) ==> i == rows.len()
            &&& answer.update_available
            &&& answer.update_job_id == id
            &&& answer.target_version == job.target_version@
            &&& answer.artifact_url == job.artifact_url@
            &&& answer.sha256 == job.sha256@
            &&& answer.size_bytes == job.size_bytes
        }),
{
    crate::ota::laws::recorded_job_is_due(rows, job, id, created_at);
    store::jobs_are_recorded_as_asked(job, id, created_at);
    let after = rows.push(store::fresh_row(job, id, created_at));
    assert forall|i: int| #[trigger] store::is_due(after, job.device_id@, i) implies i
        == rows.len() by {
        if i != rows.len() {
            assert(store::active_at(rows, job.device_id@, i));
        }
    }
}

/// A device is told of a job what the job's row says, each thing under its own name, and so is
/// whoever lists the jobs, and whoever listens for commands.
pub proof fn answers_say_what_the_row_says(row: RowView, apply_by: Option<Timestamp>)
    ensures
        ({
            let answer = update_for(row.job());
            &&& answer.update_available
            &&& answer.update_job_id == row.id
            &&& answer.target_version == row.target_version
            &&& answer.artifact_url == row.artifact_url
            &&& answer.sha256 == row.sha256
            &&& answer.size_bytes as i64 == row.size_bytes
        }),
        ({
            let listed = described(row.job());
            &&& listed.update_job_id == row.id
            &&& listed.device_id == row.device_id
            &&& listed.target_version == row.target_version
            &&& listed.artifact_url == row.artifact_url
            &&& store::JobStatus::parsed(row.status) is Some ==> listed.status == row.status
            &&& store::JobStatus::parsed(row.status) is None ==> listed.status == "pending"@
            &&& row.error_message matches Some(m) ==> listed.error_message == m
            &&& row.error_message is None ==> listed.error_message.len() == 0
            &&& listed.created_at is None && listed.completed_at is None
        }),
        ({
            let command = command_for(row.job(), apply_by);
            &&& command.update_job_id == row.id
            &&& command.target_version == row.target_version
            &&& command.artifact_url == row.artifact_url
            &&& command.sha256 == row.sha256
            &&& command.size_bytes as i64 == row.size_bytes
            &&& command.apply_by == apply_by
        }),
        !nothing_to_do().update_available,
{
    store::jobs_are_what_their_rows_say(row);
    store::statuses_are_words(JobStatus::Pending);
}

/// A list describes the jobs of a page one by one, in their order.
pub proof fn lists_describe_one_by_one(rows: Seq<RowView>, i: int)
    requires
        0 <= i < rows.len(),
    ensures
        all_described(store::jobs_of(rows)).len() == rows.len(),
        all_described(store::jobs_of(rows))[i].update_job_id == rows[i].id,
        all_described(store::jobs_of(rows))[i] == described(rows[i].job()),
{
}

/// What a dispatch asks for is recorded as a pending job of the device, for the version asked
/// for; address, checksum and size are not known yet. The command that goes out is that job's,
/// with the deadline of the request, and the answer describes that job.
pub proof fn dispatches_ask_for_a_version(
    req: DispatchUpdateRequest,
    id: Seq<char>,
    created_at: Seq<char>,
)
    ensures
        ({
            let row = requested_row(req, id, created_at);
            let job = requested_job(req, id, created_at);
            let command = command_for(job, req.apply_by);
            let answer = described(job);
            &&& row.id == id && row.created_at == created_at
            &&& row.device_id == req.device_id@
            &&& row.target_version == req.target_version@
            &&& row.artifact_url.len() == 0 && row.sha256.len() == 0 && row.size_bytes == 0
            &&& row.status == "pending"@ && row.error_message is None
            &&& row.job() == job
            &&& command.update_job_id == id
            &&& command.target_version == req.target_version@
            &&& command.artifact_url.len() == 0 && command.sha256.len() == 0
            &&& command.size_bytes == 0
            &&& command.apply_by == req.apply_by
            &&& answer.update_job_id == id
            &&& answer.device_id == req.device_id@
            &&& answer.target_version == req.target_version@
            &&& answer.status == "pending"@
        }),
{
    store::jobs_are_what_their_rows_say(requested_row(req, id, created_at));
    store::statuses_are_words(JobStatus::Pending);
}

/// What a device reports is what its job says from then on: completed where it succeeded and
/// failed where it did not, with the message where there is one; the other jobs stay as they
/// are.
pub proof fn reports_are_noted(
    rows: Seq<RowView>,
    id: Seq<char>,
    success: bool,
    message: Seq<char>,
    i: int,
)
    requires
        0 <= i < rows.len(),
    ensures
        ({
            let after = store::after_status(
                rows,
                id,
                acked_status(success),
                unless_empty(message),
            );
            &&& rows[i].id == id && success ==> after[i].status == "completed"@
            &&& rows[i].id == id && !success ==> after[i].status == "failed"@
            &&& rows[i].id == id && message.len() > 0 ==> after[i].error_message == Some(message)
            &&& rows[i].id == id && message.len() == 0 ==> after[i].error_message is None
            &&& rows[i].id != id ==> after[i] == rows[i]
        }),
{
    store::statuses_are_words(JobStatus::Pending);
    store::only_status_and_message_change(
        rows,
        id,
        acked_status(success),
        unless_empty(message),
        i,
    );
}

/// A list of jobs is as long as was asked for, and twenty long where nothing positive was asked
/// for. An empty cursor is none, and none is an empty one.
pub proof fn lists_are_as_long_as_asked(limit: i32, cursor: Seq<char>)
    ensures
        limit > 0 ==> page_size(limit) == limit,
        limit <= 0 ==> page_size(limit) == 20,
        or_empty(unless_empty(cursor)) == cursor,
        unless_empty(cursor) is None <==> cursor.len() == 0,
        or_empty(Some(cursor)) == cursor,
        or_empty(None).len() == 0,
{
    if cursor.len() == 0 {
        assert(cursor =~= Seq::empty());
    }
}

/// Each failure has its own kind of refusal: what is not there is not found, a second job
/// already exists, a device that does not listen is unavailable, and all else is internal.
pub proof fn failures_are_told_by_kind(m: Seq<char>)
    ensures
        refusal(ErrorView::NotFound(m)).code == Code::NotFound,
        refusal(ErrorView::NotFound(m)).message == m,
        refusal(ErrorView::AlreadyPending).code == Code::AlreadyExists,
        refusal(ErrorView::AlreadyPending).message == "device already has an active job"@,
        refusal(ErrorView::NoActiveSubscribers(m)).code == Code::Unavailable,
        refusal(ErrorView::NoActiveSubscribers(m)).message == "device "@ + m
            + " is not connected"@,
        refusal(ErrorView::Db(m)).code == Code::Internal,
        refusal(ErrorView::Db(m)).message == m,
        refusal(ErrorView::Grpc(m)).code == Code::Internal,
        refusal(ErrorView::Grpc(m)).message == "internal error"@,
        refusal(ErrorView::Transport(m)).code == Code::Internal,
        refusal(ErrorView::Transport(m)).message == "internal error"@,
{
}

} // verus!
