//! The update jobs. A device has at most one that is not over.

use vstd::prelude::*;

use crate::keyed;
use crate::keyed::{are_keys_unique, find, Row};
use crate::ota::error::Error;
use crate::ota::error::ErrorView;
use crate::selection;
use crate::selection::{bounded, select, Query};
use crate::sources;
use crate::sources::new_uuid;
use crate::text;
use crate::text::{is_text_less, same_text};

verus! {

/// Where a job stands.
#[derive(Debug, Clone, Copy, PartialEq, Eq, Structural)]
pub enum JobStatus {
    Pending,
    InProgress,
    Completed,
    Failed,
}

impl JobStatus {
    /// The status as it is stored and sent.
    pub open spec fn text(self) -> Seq<char> {
        match self {
            JobStatus::Pending => "pending"@,
            JobStatus::InProgress => "in_progress"@,
            JobStatus::Completed => "completed"@,
            JobStatus::Failed => "failed"@,
        }
    }

    /// The job is not over.
    pub open spec fn is_active(self) -> bool {
        self is Pending || self is InProgress
    }

    /// The status as it is stored and sent.
    pub fn as_str(&self) -> (r: &'static str)
        ensures
            r@ == self.text(),
    {
        match self {
            JobStatus::Pending => "pending",
            JobStatus::InProgress => "in_progress",
            JobStatus::Completed => "completed",
            JobStatus::Failed => "failed",
        }
    }

    /// The status that a text stands for.
    pub open spec fn parsed(s: Seq<char>) -> Option<JobStatus> {
        if s == "pending"@ {
            Some(JobStatus::Pending)
        } else if s == "in_progress"@ {
            Some(JobStatus::InProgress)
        } else if s == "completed"@ {
            Some(JobStatus::Completed)
        } else if s == "failed"@ {
            Some(JobStatus::Failed)
        } else {
            None
        }
    }

    /// The status that a text stands for.
    pub fn from_str(s: &str) -> (r: Option<JobStatus>)
        ensures
            r == JobStatus::parsed(s@),
    {
        if same_text(s, "pending") {
            Some(JobStatus::Pending)
        } else if same_text(s, "in_progress") {
            Some(JobStatus::InProgress)
        } else if same_text(s, "completed") {
            Some(JobStatus::Completed)
        } else if same_text(s, "failed") {
            Some(JobStatus::Failed)
        } else {
            None
        }
    }
}

/// The text of a status stands for that status, and for no other.
pub proof fn status_text_round_trip(status: JobStatus, other: JobStatus)
    ensures
        JobStatus::parsed(status.text()) == Some(status),
        status.text() == other.text() ==> status == other,
{
    reveal_strlit("pending");
    reveal_strlit("in_progress");
    reveal_strlit("completed");
    reveal_strlit("failed");
    assert("pending"@.len() == 7 && "in_progress"@.len() == 11);
    assert("completed"@.len() == 9 && "failed"@.len() == 6);
}

/// A job that asks to be recorded.
#[derive(Debug)]
pub struct NewJob {
    pub device_id: String,
    pub target_version: String,
    pub artifact_url: String,
    pub sha256: String,
    pub size_bytes: u64,
}

/// A recorded job; `created_at` is the date and the time as text that sorts by time.
#[derive(Debug)]
pub struct JobRecord {
    pub id: String,
    pub device_id: String,
    pub target_version: String,
    pub artifact_url: String,
    pub sha256: String,
    pub size_bytes: u64,
    pub status: JobStatus,
    pub error_message: Option<String>,
    pub created_at: String,
}

/// What a [`JobRecord`] says.
#[verifier::ext_equal]
pub struct JobView {
    pub id: Seq<char>,
    pub device_id: Seq<char>,
    pub target_version: Seq<char>,
    pub artifact_url: Seq<char>,
    pub sha256: Seq<char>,
    pub size_bytes: u64,
    pub status: JobStatus,
    pub error_message: Option<Seq<char>>,
    pub created_at: Seq<char>,
}

/// The characters of a text, where there is one.
pub open spec fn text_view(text: Option<String>) -> Option<Seq<char>> {
    match text {
        Some(t) => Some(t@),
        None => None,
    }
}

impl View for JobRecord {
    type V = JobView;

    open spec fn view(&self) -> JobView {
        JobView {
            id: self.id@,
            device_id: self.device_id@,
            target_version: self.target_version@,
            artifact_url: self.artifact_url@,
            sha256: self.sha256@,
            size_bytes: self.size_bytes,
            status: self.status,
            error_message: text_view(self.error_message),
            created_at: self.created_at@,
        }
    }
}

/// A copy of a text, where there is one.
fn copy_text(text: &Option<String>) -> (r: Option<String>)
    ensures
        r == *text,
{
    match text {
        Some(t) => Some(t.clone()),
        None => None,
    }
}

/// A job as it is stored: the size with a sign, the status as text.
#[derive(Debug)]
pub struct JobRow {
    pub id: String,
    pub device_id: String,
    pub target_version: String,
    pub artifact_url: String,
    pub sha256: String,
    pub size_bytes: i64,
    pub status: String,
    pub error_message: Option<String>,
    pub created_at: String,
}

/// What a [`JobRow`] says.
#[verifier::ext_equal]
pub struct RowView {
    pub id: Seq<char>,
    pub device_id: Seq<char>,
    pub target_version: Seq<char>,
    pub artifact_url: Seq<char>,
    pub sha256: Seq<char>,
    pub size_bytes: i64,
    pub status: Seq<char>,
    pub error_message: Option<Seq<char>>,
    pub created_at: Seq<char>,
}

impl View for JobRow {
    type V = RowView;

    open spec fn view(&self) -> RowView {
        RowView {
            id: self.id@,
            device_id: self.device_id@,
            target_version: self.target_version@,
            artifact_url: self.artifact_url@,
            sha256: self.sha256@,
            size_bytes: self.size_bytes,
            status: self.status@,
            error_message: text_view(self.error_message),
            created_at: self.created_at@,
        }
    }
}

impl Row for JobRow {
    open spec fn key(row: RowView) -> Seq<char> {
        row.id
    }

    fn key_text(&self) -> (r: &str) {
        self.id.as_str()
    }
}

impl RowView {
    /// The job is of the device `device_id` and not over.
    pub open spec fn is_active_for(self, device_id: Seq<char>) -> bool {
        self.device_id == device_id && (self.status == "pending"@ || self.status
            == "in_progress"@)
    }

    /// The job that the row stands for. A status that is none counts as pending; the size has
    /// the same bits.
    pub open spec fn job(self) -> JobView {
        JobView {
            id: self.id,
            device_id: self.device_id,
            target_version: self.target_version,
            artifact_url: self.artifact_url,
            sha256: self.sha256,
            size_bytes: self.size_bytes as u64,
            status: match JobStatus::parsed(self.status) {
                Some(status) => status,
                None => JobStatus::Pending,
            },
            error_message: self.error_message,
            created_at: self.created_at,
        }
    }
}

/// The job that a row stands for.
fn row_to_record(row: &JobRow) -> (r: JobRecord)
    ensures
        r@ == row@.job(),
{
    let status: JobStatus = match JobStatus::from_str(row.status.as_str()) {
        Some(status) => status,
        None => JobStatus::Pending,
    };
    JobRecord {
        id: row.id.clone(),
        device_id: row.device_id.clone(),
        target_version: row.target_version.clone(),
        artifact_url: row.artifact_url.clone(),
        sha256: row.sha256.clone(),
        size_bytes: #[verifier::truncate] (row.size_bytes as u64),
        status,
        error_message: copy_text(&row.error_message),
        created_at: row.created_at.clone(),
    }
}

/// A job as it is stored under the identifier `id` at the time `created_at`.
pub open spec fn fresh_row(job: NewJob, id: Seq<char>, created_at: Seq<char>) -> RowView {
    RowView {
        id,
        device_id: job.device_id@,
        target_version: job.target_version@,
        artifact_url: job.artifact_url@,
        sha256: job.sha256@,
        size_bytes: job.size_bytes as i64,
        status: "pending"@,
        error_message: None,
        created_at,
    }
}

/// A job as it is answered when it is recorded.
pub open spec fn fresh_job(job: NewJob, id: Seq<char>, created_at: Seq<char>) -> JobView {
    JobView {
        id,
        device_id: job.device_id@,
        target_version: job.target_version@,
        artifact_url: job.artifact_url@,
        sha256: job.sha256@,
        size_bytes: job.size_bytes,
        status: JobStatus::Pending,
        error_message: None,
        created_at,
    }
}

/// The job in row `i` is of the device `device_id` and not over.
pub open spec fn active_at(rows: Seq<RowView>, device_id: Seq<char>, i: int) -> bool {
    0 <= i < rows.len() && rows[i].is_active_for(device_id)
}

/// The device has a job that is not over.
pub open spec fn has_active(rows: Seq<RowView>, device_id: Seq<char>) -> bool {
    exists|i: int| active_at(rows, device_id, i)
}

/// There is a job with the identifier `id`.
pub open spec fn has_id(rows: Seq<RowView>, id: Seq<char>) -> bool {
    keyed::by_key::<JobRow>(rows).contains_key(id)
}

/// Row `i` is older than row `j`, or as old and recorded earlier.
pub open spec fn is_older(rows: Seq<RowView>, i: int, j: int) -> bool {
    ||| text::text_less(rows[i].created_at, rows[j].created_at)
    ||| rows[i].created_at == rows[j].created_at && i < j
}

/// The job in row `i` is the oldest of the device that is not over.
pub open spec fn is_due(rows: Seq<RowView>, device_id: Seq<char>, i: int) -> bool {
    &&& active_at(rows, device_id, i)
    &&& forall|j: int| #[trigger] active_at(rows, device_id, j) && j != i ==> is_older(rows, i, j)
}

/// The rows after the job `id` got a status and a message, where there is such a job.
pub open spec fn after_status(
    rows: Seq<RowView>,
    id: Seq<char>,
    status: JobStatus,
    error: Option<Seq<char>>,
) -> Seq<RowView> {
    rows.map_values(
        |row: RowView|
            if row.id == id {
                RowView { status: status.text(), error_message: error, ..row }
            } else {
                row
            },
    )
}

/// The job is of the device and was created before the cursor, where there is one.
pub open spec fn is_listed(row: RowView, device_id: Seq<char>, cursor: Option<Seq<char>>) -> bool {
    &&& row.device_id == device_id
    &&& cursor matches Some(c) ==> text::text_less(row.created_at, c)
}

/// Row `i` is newer than row `j`, or as new and recorded earlier.
pub open spec fn is_newer(rows: Seq<RowView>, i: int, j: int) -> bool {
    ||| text::text_less(rows[j].created_at, rows[i].created_at)
    ||| rows[i].created_at == rows[j].created_at && i < j
}

/// `chosen` are the jobs of a device that were created before the cursor, each once, the
/// newest first.
pub open spec fn is_history(
    rows: Seq<RowView>,
    device_id: Seq<char>,
    cursor: Option<Seq<char>>,
    chosen: Seq<int>,
) -> bool {
    &&& selection::in_order(chosen, |i: int, j: int| is_newer(rows, i, j))
    &&& forall|a: int| #![trigger chosen[a]]
        0 <= a < chosen.len() ==> 0 <= chosen[a] < rows.len() && is_listed(
            rows[chosen[a]],
            device_id,
            cursor,
        )
    &&& forall|i: int|
        0 <= i < rows.len() && is_listed(#[trigger] rows[i], device_id, cursor)
            ==> chosen.contains(i)
}

/// The jobs of a device that were created before the cursor, the newest first.
pub open spec fn history(rows: Seq<RowView>, device_id: Seq<char>, cursor: Option<Seq<char>>) -> Seq<
    RowView,
> {
    let chosen = choose|chosen: Seq<int>| is_history(rows, device_id, cursor, chosen);
    chosen.map_values(|i: int| rows[i])
}

proof fn lemma_newer_order(rows: Seq<RowView>, i: int, j: int, k: int)
    ensures
        is_newer(rows, i, j) && is_newer(rows, j, k) ==> is_newer(rows, i, k),
        !is_newer(rows, i, i),
        i != j ==> is_newer(rows, i, j) || is_newer(rows, j, i),
        is_newer(rows, i, j) ==> !is_newer(rows, j, i),
{
    let (a, b, c) = (rows[i].created_at, rows[j].created_at, rows[k].created_at);
    text::text_less_irreflexive(a);
    if text::text_less(c, b) && text::text_less(b, a) {
        text::text_less_transitive(c, b, a);
    }
    if text::text_less(b, a) && text::text_less(a, b) {
        text::text_less_transitive(a, b, a);
    }
    if a != b {
        text::text_less_total(a, b);
    }
}

/// There is only one way to put the jobs of a device in order.
pub proof fn lemma_history(
    rows: Seq<RowView>,
    device_id: Seq<char>,
    cursor: Option<Seq<char>>,
    chosen: Seq<int>,
)
    requires
        is_history(rows, device_id, cursor, chosen),
    ensures
        history(rows, device_id, cursor) == chosen.map_values(|i: int| rows[i]),
{
    let other = choose|other: Seq<int>| is_history(rows, device_id, cursor, other);
    let before = |i: int, j: int| is_newer(rows, i, j);
    assert forall|x: int, y: int| #[trigger] before(x, y) implies !before(y, x) by {
        lemma_newer_order(rows, x, y, x);
    }
    assert forall|x: int| chosen.contains(x) <==> other.contains(x) by {
        if chosen.contains(x) {
            let a = choose|a: int| 0 <= a < chosen.len() && chosen[a] == x;
            assert(is_listed(rows[chosen[a]], device_id, cursor));
        }
        if other.contains(x) {
            let a = choose|a: int| 0 <= a < other.len() && other[a] == x;
            assert(is_listed(rows[other[a]], device_id, cursor));
        }
    }
    selection::lemma_order_unique(other, chosen, before);
}

/// The jobs of a device can be put in order.
pub proof fn lemma_history_exists(
    rows: Seq<RowView>,
    device_id: Seq<char>,
    cursor: Option<Seq<char>>,
) -> (chosen: Seq<int>)
    ensures
        is_history(rows, device_id, cursor, chosen),
{
    let wanted = Set::new(|i: int| 0 <= i < rows.len() && is_listed(rows[i], device_id, cursor));
    vstd::set_lib::lemma_int_range(0, rows.len() as int);
    vstd::set_lib::lemma_set_subset_finite(
        vstd::set_lib::set_int_range(0, rows.len() as int),
        wanted,
    );
    let before = |i: int, j: int| is_newer(rows, i, j);
    assert forall|x: int, y: int, z: int|
        #[trigger] before(x, y) && #[trigger] before(y, z) implies before(x, z) by {
        lemma_newer_order(rows, x, y, z);
    }
    assert forall|x: int, y: int| #![trigger wanted.contains(x), wanted.contains(y)]
        wanted.contains(x) && wanted.contains(y) && x != y implies before(x, y) || before(
        y,
        x,
    ) by {
        lemma_newer_order(rows, x, y, x);
    }
    let chosen = selection::lemma_order_exists(wanted, before);
    assert forall|a: int| #![trigger chosen[a]] 0 <= a < chosen.len() implies 0 <= chosen[a]
        < rows.len() && is_listed(rows[chosen[a]], device_id, cursor) by {
        assert(chosen.contains(chosen[a]));
    }
    assert forall|i: int|
        0 <= i < rows.len() && is_listed(
            #[trigger] rows[i],
            device_id,
            cursor,
        ) implies chosen.contains(i) by {
        assert(wanted.contains(i));
    }
    chosen
}

/// The page of `limit` jobs with which a history starts, and the time before which the next
/// page starts: that of the last job shown, where another one follows. A negative limit
/// stands for no limit, but for minus one, which stands for no job.
pub open spec fn page(all: Seq<RowView>, limit: i64) -> (Seq<RowView>, Option<Seq<char>>) {
    let read = selection::at_most(all, limit + 1);
    (
        selection::at_most(read, limit as int),
        if 0 < limit < read.len() {
            Some(read[limit - 1].created_at)
        } else {
            None
        },
    )
}

/// The jobs that rows stand for.
pub open spec fn jobs_of(rows: Seq<RowView>) -> Seq<JobView> {
    rows.map_values(|row: RowView| row.job())
}

/// What a page of a history holds.
proof fn lemma_page(
    rows: Seq<RowView>,
    device_id: Seq<char>,
    cursor: Option<Seq<char>>,
    limit: i64,
)
    requires
        limit < i64::MAX,
    ensures
        ({
            let all = history(rows, device_id, cursor);
            let (shown, next) = page(all, limit);
            &&& forall|k: int| #![trigger shown[k]]
                0 <= k < shown.len() ==> shown[k].device_id == device_id && (cursor matches Some(c)
                    ==> text::text_less(shown[k].created_at, c))
            &&& limit > 0 ==> shown.len() <= limit
            &&& next matches Some(time) ==> shown.len() == limit && time
                == shown[limit - 1].created_at
            &&& limit > 0 && next is None ==> forall|i: int| #![trigger rows[i]]
                0 <= i < rows.len() && rows[i].device_id == device_id && (cursor matches Some(c)
                    ==> text::text_less(rows[i].created_at, c)) ==> jobs_of(shown).contains(
                    rows[i].job(),
                )
        }),
{
    history_is_of_one_device(rows, device_id, cursor);
    let all = history(rows, device_id, cursor);
    let (shown, next) = page(all, limit);
    assert forall|k: int| #![trigger shown[k]]
        0 <= k < shown.len() implies shown[k].device_id == device_id && (cursor matches Some(c)
        ==> text::text_less(shown[k].created_at, c)) by {
        assert(all.contains(all[k]));
    }
    if limit > 0 {
        pages_are_the_start_of_a_history(all, limit);
    }
    if limit > 0 && next is None {
        assert forall|i: int| #![trigger rows[i]]
            0 <= i < rows.len() && rows[i].device_id == device_id && (cursor matches Some(c)
                ==> text::text_less(rows[i].created_at, c)) implies jobs_of(shown).contains(
            rows[i].job(),
        ) by {
            assert(rows.contains(rows[i]));
            assert(all.contains(rows[i]));
            let k = choose|k: int| 0 <= k < all.len() && all[k] == rows[i];
            assert(jobs_of(shown)[k] == rows[i].job());
        }
    }
}

/// The jobs of a table that are listed for a device.
struct JobQuery<'a> {
    rows: &'a Vec<JobRow>,
    device_id: &'a str,
    cursor: Option<&'a str>,
}

/// The characters of a text that is only looked at, where there is one.
pub open spec fn str_view(text: Option<&str>) -> Option<Seq<char>> {
    match text {
        Some(t) => Some(t@),
        None => None,
    }
}

impl<'a> Query for JobQuery<'a> {
    closed spec fn size(&self) -> nat {
        self.rows@.len()
    }

    closed spec fn wants(&self, i: int) -> bool {
        is_listed(self.rows@[i]@, self.device_id@, str_view(self.cursor))
    }

    closed spec fn before(&self, i: int, j: int) -> bool {
        is_newer(keyed::views(self.rows@), i, j)
    }

    proof fn order(&self, i: int, j: int, k: int) {
        lemma_newer_order(keyed::views(self.rows@), i, j, k);
    }

    fn row_count(&self) -> (r: usize) {
        self.rows.len()
    }

    fn is_wanted(&self, i: usize) -> (r: bool) {
        let row = &self.rows[i];
        if !same_text(row.device_id.as_str(), self.device_id) {
            return false;
        }
        match self.cursor {
            Some(c) => is_text_less(row.created_at.as_str(), c),
            None => true,
        }
    }

    fn is_before(&self, i: usize, j: usize) -> (r: bool) {
        let (a, b) = (self.rows[i].created_at.as_str(), self.rows[j].created_at.as_str());
        is_text_less(b, a) || (i < j && same_text(a, b))
    }
}

/// The update jobs, in the order in which they came.
pub struct JobStore {
    rows: Vec<JobRow>,
}

impl View for JobStore {
    type V = Seq<RowView>;

    closed spec fn view(&self) -> Seq<RowView> {
        keyed::views(self.rows@)
    }
}

impl JobStore {
    /// Identifiers are unique.
    pub open spec fn wf(&self) -> bool {
        keyed::keys_unique::<JobRow>(self@)
    }

    /// No jobs.
    pub fn new() -> (r: JobStore)
        ensures
            r.wf(),
            r@ == Seq::<RowView>::empty(),
    {
        let r = JobStore { rows: Vec::new() };
        assert(r@ =~= Seq::<RowView>::empty());
        r
    }

    /// The jobs in a table; none, where an identifier stands twice.
    pub fn load(rows: Vec<JobRow>) -> (r: Option<JobStore>)
        ensures
            match r {
                Some(store) => store.wf() && store@ == keyed::views(rows@),
                None => !keyed::keys_unique::<JobRow>(keyed::views(rows@)),
            },
    {
        if are_keys_unique(&rows) {
            Some(JobStore { rows })
        } else {
            None
        }
    }

    /// The jobs in the order in which they came.
    pub fn rows(&self) -> (r: &Vec<JobRow>)
        ensures
            keyed::views(r@) == self@,
    {
        &self.rows
    }

    /// Whether the job in row `i` is of the device and not over.
    fn is_active(&self, device_id: &str, i: usize) -> (r: bool)
        requires
            i < self@.len(),
        ensures
            r == active_at(self@, device_id@, i as int),
    {
        let row = &self.rows[i];
        same_text(row.device_id.as_str(), device_id) && (same_text(row.status.as_str(), "pending")
            || same_text(row.status.as_str(), "in_progress"))
    }

    /// The row of the oldest job of a device that is not over.
    fn due_row(&self, device_id: &str) -> (r: Option<usize>)
        ensures
            match r {
                Some(i) => is_due(self@, device_id@, i as int),
                None => !has_active(self@, device_id@),
            },
    {
        let mut best: Option<usize> = None;
        let mut i: usize = 0;
        while i < self.rows.len()
            invariant
                i <= self.rows@.len(),
                self@.len() == self.rows@.len(),
                match best {
                    Some(b) => b < i && active_at(self@, device_id@, b as int) && forall|j: int|
                        j < i && j != b && #[trigger] active_at(self@, device_id@, j) ==> is_older(
                            self@,
                            b as int,
                            j,
                        ),
                    None => forall|j: int|
                        j < i ==> !#[trigger] active_at(self@, device_id@, j),
                },
            decreases self.rows.len() - i,
        {
            if self.is_active(device_id, i) {
                match best {
                    None => {
                        best = Some(i);
                    },
                    Some(b) => {
                        let ghost said = self@;
                        if is_text_less(
                            self.rows[i].created_at.as_str(),
                            self.rows[b].created_at.as_str(),
                        ) {
                            assert forall|j: int|
                                j < i + 1 && j != i && #[trigger] active_at(
                                    said,
                                    device_id@,
                                    j,
                                ) implies is_older(said, i as int, j) by {
                                if j != b && text::text_less(
                                    said[b as int].created_at,
                                    said[j].created_at,
                                ) {
                                    text::text_less_transitive(
                                        said[i as int].created_at,
                                        said[b as int].created_at,
                                        said[j].created_at,
                                    );
                                }
                            }
                            best = Some(i);
                        } else {
                            proof {
                                if said[i as int].created_at != said[b as int].created_at {
                                    text::text_less_total(
                                        said[i as int].created_at,
                                        said[b as int].created_at,
                                    );
                                }
                            }
                        }
                    },
                }
            }
            i = i + 1;
        }
        best
    }

    /// Records a job under the identifier `id` at the time `created_at`, where the device has
    /// none that is not over.
    pub fn create_job_as(&mut self, job: NewJob, id: String, created_at: String) -> (r: Result<
        JobRecord,
        Error,
    >)
        requires
            old(self).wf(),
        ensures
            final(self).wf(),
            if has_active(old(self)@, job.device_id@) {
                &&& r matches Err(e) && e@ == ErrorView::AlreadyPending
                &&& final(self)@ == old(self)@
            } else if has_id(old(self)@, id@) {
                &&& r matches Err(e) && e@ == ErrorView::Db(
                    "UNIQUE constraint failed: update_jobs.id"@,
                )
                &&& final(self)@ == old(self)@
            } else {
                &&& r matches Ok(record) && record@ == fresh_job(job, id@, created_at@)
                &&& r matches Ok(record) && {
                    &&& record.id@ == id@
                    &&& record.device_id@ == job.device_id@
                    &&& record.target_version@ == job.target_version@
                    &&& record.artifact_url@ == job.artifact_url@
                    &&& record.sha256@ == job.sha256@
                    &&& record.size_bytes == job.size_bytes
                    &&& record.status == JobStatus::Pending
                    &&& record.error_message is None
                    &&& record.created_at@ == created_at@
                }
                &&& final(self)@ == old(self)@.push(fresh_row(job, id@, created_at@))
            },
    {
        match self.due_row(job.device_id.as_str()) {
            Some(i) => {
                assert(active_at(self@, job.device_id@, i as int));
                return Err(Error::AlreadyPending);
            },
            None => {},
        }
        match find(&self.rows, id.as_str()) {
            Some(i) => {
                proof {
                    keyed::lemma_found::<JobRow>(self@, i as int);
                }
                return Err(Error::Db("UNIQUE constraint failed: update_jobs.id".to_owned()));
            },
            None => {},
        }
        let size: u64 = job.size_bytes;
        proof {
            assert((size as i64) as u64 == size) by (bit_vector);
            status_text_round_trip(JobStatus::Pending, JobStatus::Pending);
        }
        let row = JobRow {
            id,
            device_id: job.device_id,
            target_version: job.target_version,
            artifact_url: job.artifact_url,
            sha256: job.sha256,
            size_bytes: #[verifier::truncate] (size as i64),
            status: "pending".to_owned(),
            error_message: None,
            created_at,
        };
        let record: JobRecord = row_to_record(&row);
        let ghost said = row@;
        proof {
            keyed::lemma_push::<JobRow>(self@, said);
        }
        self.rows.push(row);
        assert(self@ =~= old(self)@.push(said));
        Ok(record)
    }

    /// Records a job at the time `created_at`, under a fresh identifier.
    pub fn create_job(&mut self, job: NewJob, created_at: String) -> (r: Result<JobRecord, Error>)
        requires
            old(self).wf(),
        ensures
            final(self).wf(),
            if has_active(old(self)@, job.device_id@) {
                &&& r matches Err(e) && e@ == ErrorView::AlreadyPending
                &&& final(self)@ == old(self)@
            } else {
                match r {
                    Ok(record) => {
                        &&& sources::is_uuid_text(record.id@)
                        &&& !has_id(old(self)@, record.id@)
                        &&& record@ == fresh_job(job, record.id@, created_at@)
                        &&& final(self)@ == old(self)@.push(
                            fresh_row(job, record.id@, created_at@),
                        )
                    },
                    Err(e) => {
                        &&& e@ is Db
                        &&& exists|id: Seq<char>|
                            sources::is_uuid_text(id) && #[trigger] has_id(old(self)@, id)
                        &&& final(self)@ == old(self)@
                    },
                }
            },
    {
        let id: String = new_uuid();
        let ghost said = id@;
        let r = self.create_job_as(job, id, created_at);
        assert(r is Err && !has_active(old(self)@, job.device_id@) ==> has_id(old(self)@, said));
        r
    }

    /// The oldest job of a device that is not over.
    pub fn get_pending_for_device(&self, device_id: &str) -> (r: Option<JobRecord>)
        ensures
            match r {
                Some(record) => exists|i: int|
                    {
                        &&& #[trigger] is_due(self@, device_id@, i)
                        &&& record@ == self@[i].job()
                        &&& 0 <= i < self@.len()
                        &&& record.id@ == self@[i].id
                        &&& record.device_id@ == self@[i].device_id
                        &&& self@[i].device_id == device_id@
                        &&& record.target_version@ == self@[i].target_version
                        &&& record.artifact_url@ == self@[i].artifact_url
                        &&& record.sha256@ == self@[i].sha256
                        &&& record.size_bytes == self@[i].size_bytes as u64
                        &&& record.status == JobStatus::Pending || record.status
                            == JobStatus::InProgress
                        &&& record.created_at@ == self@[i].created_at
                    },
                None => !has_active(self@, device_id@),
            },
    {
        match self.due_row(device_id) {
            Some(i) => {
                let record: JobRecord = row_to_record(&self.rows[i]);
                proof {
                    statuses_are_words(JobStatus::Pending);
                    assert(active_at(self@, device_id@, i as int));
                }
                assert(is_due(self@, device_id@, i as int) && record@ == self@[i as int].job());
                Some(record)
            },
            None => None,
        }
    }

    /// Notes where a job stands, with a message or without.
    pub fn update_status(&mut self, id: &str, status: JobStatus, error: Option<&str>) -> (r: Result<
        (),
        Error,
    >)
        requires
            old(self).wf(),
        ensures
            final(self).wf(),
            final(self)@ == after_status(old(self)@, id@, status, str_view(error)),
            match r {
                Ok(_) => has_id(old(self)@, id@),
                Err(e) => {
                    &&& !has_id(old(self)@, id@)
                    &&& e@ == ErrorView::NotFound(id@)
                    &&& final(self)@ == old(self)@
                },
            },
    {
        let ghost before = self@;
        match find(&self.rows, id) {
            Some(i) => {
                let row = JobRow {
                    id: self.rows[i].id.clone(),
                    device_id: self.rows[i].device_id.clone(),
                    target_version: self.rows[i].target_version.clone(),
                    artifact_url: self.rows[i].artifact_url.clone(),
                    sha256: self.rows[i].sha256.clone(),
                    size_bytes: self.rows[i].size_bytes,
                    status: status.as_str().to_owned(),
                    error_message: match error {
                        Some(m) => Some(m.to_owned()),
                        None => None,
                    },
                    created_at: self.rows[i].created_at.clone(),
                };
                let ghost said = row@;
                proof {
                    keyed::lemma_found::<JobRow>(before, i as int);
                    keyed::lemma_update::<JobRow>(before, i as int, said);
                }
                self.rows.set(i, row);
                proof {
                    assert(self@ =~= before.update(i as int, said));
                    let after = after_status(before, id@, status, str_view(error));
                    assert forall|j: int| 0 <= j < before.len() implies #[trigger] self@[j]
                        == after[j] by {
                        if j != i {
                            assert(before[j].id != before[i as int].id);
                        }
                    }
                    assert(self@ =~= after);
                }
                Ok(())
            },
            None => {
                proof {
                    let after = after_status(before, id@, status, str_view(error));
                    assert forall|j: int| 0 <= j < before.len() implies #[trigger] before[j]
                        == after[j] by {
                        if before[j].id == id@ {
                            keyed::lemma_found::<JobRow>(before, j);
                        }
                    }
                    assert(before =~= after);
                }
                Err(Error::NotFound(id.to_owned()))
            },
        }
    }

    /// A page of the jobs of a device, the newest first, and where the next page starts. A
    /// page of no jobs of a device that has some is not asked for.
    pub fn list_for_device(&self, device_id: &str, limit: i64, cursor: Option<&str>) -> (r: (
        Vec<JobRecord>,
        Option<String>,
    ))
        requires
            limit < i64::MAX,
            limit == 0 ==> history(self@, device_id@, str_view(cursor)).len() == 0,
        ensures
            ({
                let (shown, next) = page(history(self@, device_id@, str_view(cursor)), limit);
                keyed::views(r.0@) == jobs_of(shown) && text_view(r.1) == next
            }),
            forall|k: int| #![trigger r.0@[k]]
                0 <= k < r.0@.len() ==> {
                    &&& r.0@[k].device_id@ == device_id@
                    &&& cursor matches Some(c) ==> text::text_less(r.0@[k].created_at@, c@)
                },
            limit > 0 ==> r.0@.len() <= limit,
            r.1 matches Some(time) ==> r.0@.len() == limit && time@ == r.0@[limit - 1].created_at@,
            limit > 0 && r.1 is None ==> forall|i: int| #![trigger self@[i]]
                0 <= i < self@.len() && self@[i].device_id == device_id@ && (cursor matches Some(c)
                    ==> text::text_less(self@[i].created_at, c@)) ==> keyed::views(r.0@).contains(
                    self@[i].job(),
                ),
    {
        let query = JobQuery { rows: &self.rows, device_id, cursor };
        let chosen: Vec<usize> = select(&query);
        let ghost ints = selection::as_ints(chosen@);
        let ghost all = history(self@, device_id@, str_view(cursor));
        proof {
            assert forall|a: int| 0 <= a < chosen@.len() implies #[trigger] chosen@[a]
                < self.rows@.len() by {
                assert(ints[a] < query.size());
            }
            assert forall|i: int|
                0 <= i < self@.len() && is_listed(
                    #[trigger] self@[i],
                    device_id@,
                    str_view(cursor),
                ) implies ints.contains(i) by {
                assert(query.wants(i));
            }
            assert forall|a: int| #![trigger ints[a]] 0 <= a < ints.len() implies is_listed(
                self@[ints[a]],
                device_id@,
                str_view(cursor),
            ) by {
                assert(query.wants(ints[a]));
            }
            assert forall|a: int, b: int| 0 <= a < b < ints.len() implies is_newer(
                self@,
                #[trigger] ints[a],
                #[trigger] ints[b],
            ) by {
                assert(query.before(ints[a], ints[b]));
            }
            assert(is_history(self@, device_id@, str_view(cursor), ints));
            lemma_history(self@, device_id@, str_view(cursor), ints);
        }
        let read: usize = bounded(chosen.len(), limit + 1);
        let shown: usize = bounded(read, limit);
        let mut records: Vec<JobRecord> = Vec::new();
        let mut i: usize = 0;
        while i < shown
            invariant
                i <= shown <= chosen@.len(),
                all.len() == chosen@.len(),
                self@.len() == self.rows@.len(),
                forall|a: int| 0 <= a < chosen@.len() ==> #[trigger] chosen@[a] < self.rows@.len(),
                forall|a: int| #![trigger chosen@[a]]
                    0 <= a < chosen@.len() ==> all[a] == self.rows@[chosen@[a] as int]@,
                keyed::views(records@) =~= jobs_of(all.take(i as int)),
            decreases shown - i,
        {
            let ghost before = keyed::views(records@);
            let record: JobRecord = row_to_record(&self.rows[chosen[i]]);
            let ghost said = record@;
            records.push(record);
            assert(keyed::views(records@) =~= before.push(said));
            assert(all.take(i + 1) =~= all.take(i as int).push(all[i as int]));
            i = i + 1;
        }
        let next: Option<String> = if limit > 0 && read as u64 > limit as u64 {
            Some(self.rows[chosen[limit as usize - 1]].created_at.clone())
        } else {
            None
        };
        proof {
            let seen = selection::at_most(all, limit + 1);
            assert(seen =~= all.take(read as int));
            assert(selection::at_most(seen, limit as int) =~= all.take(shown as int));
            let (listed, time) = page(all, limit);
            assert(keyed::views(records@) == jobs_of(listed) && text_view(next) == time);
            lemma_page(self@, device_id@, str_view(cursor), limit);
            assert forall|k: int| #![trigger records@[k]]
                0 <= k < records@.len() implies records@[k]@ == listed[k].job() by {
                assert(keyed::views(records@)[k] == records@[k]@);
            }
        }
        (records, next)
    }
}

/// The word for each status, which is what is stored and sent; no other text is a status.
pub proof fn statuses_are_words(status: JobStatus)
    ensures
        JobStatus::Pending.text() == "pending"@,
        JobStatus::InProgress.text() == "in_progress"@,
        JobStatus::Completed.text() == "completed"@,
        JobStatus::Failed.text() == "failed"@,
        JobStatus::parsed("pending"@) == Some(JobStatus::Pending),
        JobStatus::parsed("in_progress"@) == Some(JobStatus::InProgress),
        JobStatus::parsed("completed"@) == Some(JobStatus::Completed),
        JobStatus::parsed("failed"@) == Some(JobStatus::Failed),
        forall|s: Seq<char>| #[trigger]
            JobStatus::parsed(s) is Some ==> s == "pending"@ || s == "in_progress"@ || s
                == "completed"@ || s == "failed"@,
        status.is_active() <==> status == JobStatus::Pending || status == JobStatus::InProgress,
{
    status_text_round_trip(JobStatus::Pending, status);
    status_text_round_trip(JobStatus::InProgress, status);
    status_text_round_trip(JobStatus::Completed, status);
    status_text_round_trip(JobStatus::Failed, status);
}

/// A row says what is stored in it, each thing under its own name.
pub proof fn rows_say_what_they_hold(row: JobRow, record: JobRecord)
    ensures
        row@.id == row.id@,
        row@.device_id == row.device_id@,
        row@.target_version == row.target_version@,
        row@.artifact_url == row.artifact_url@,
        row@.sha256 == row.sha256@,
        row@.size_bytes == row.size_bytes,
        row@.status == row.status@,
        row.error_message matches Some(m) ==> row@.error_message == Some(m@),
        row.error_message is None ==> row@.error_message is None,
        row@.created_at == row.created_at@,
        record@.id == record.id@,
        record@.device_id == record.device_id@,
        record@.target_version == record.target_version@,
        record@.artifact_url == record.artifact_url@,
        record@.sha256 == record.sha256@,
        record@.size_bytes == record.size_bytes,
        record@.status == record.status,
        record.error_message matches Some(m) ==> record@.error_message == Some(m@),
        record.error_message is None ==> record@.error_message is None,
        record@.created_at == record.created_at@,
{
}

/// A job is what its row says; a row whose status is no status stands for a job that is
/// pending.
pub proof fn jobs_are_what_their_rows_say(row: RowView)
    ensures
        row.job().id == row.id,
        row.job().device_id == row.device_id,
        row.job().target_version == row.target_version,
        row.job().artifact_url == row.artifact_url,
        row.job().sha256 == row.sha256,
        0 <= row.size_bytes ==> row.job().size_bytes == row.size_bytes,
        row.job().size_bytes as i64 == row.size_bytes,
        row.job().error_message == row.error_message,
        row.job().created_at == row.created_at,
        row.status == "in_progress"@ ==> row.job().status == JobStatus::InProgress,
        row.status == "completed"@ ==> row.job().status == JobStatus::Completed,
        row.status == "failed"@ ==> row.job().status == JobStatus::Failed,
        row.status != "in_progress"@ && row.status != "completed"@ && row.status != "failed"@
            ==> row.job().status == JobStatus::Pending,
{
    statuses_are_words(JobStatus::Pending);
    let size: i64 = row.size_bytes;
    assert((size as u64) as i64 == size) by (bit_vector);
}

/// What is recorded is what was asked for, and it is pending; the size comes back whatever it
/// is.
pub proof fn jobs_are_recorded_as_asked(job: NewJob, id: Seq<char>, created_at: Seq<char>)
    ensures
        ({
            let row = fresh_row(job, id, created_at);
            &&& row.id == id
            &&& row.device_id == job.device_id@
            &&& row.target_version == job.target_version@
            &&& row.artifact_url == job.artifact_url@
            &&& row.sha256 == job.sha256@
            &&& row.size_bytes as u64 == job.size_bytes
            &&& row.status == "pending"@
            &&& row.error_message is None
            &&& row.created_at == created_at
            &&& fresh_job(job, id, created_at) == row.job()
        }),
{
    let size: u64 = job.size_bytes;
    assert((size as i64) as u64 == size) by (bit_vector);
    statuses_are_words(JobStatus::Pending);
}

/// A job is there where a row has its identifier.
pub proof fn jobs_are_found_by_identifier(rows: Seq<RowView>, id: Seq<char>)
    ensures
        has_id(rows, id) <==> exists|i: int| 0 <= i < rows.len() && (#[trigger] rows[i]).id == id,
{
    if has_id(rows, id) {
        let i = keyed::lemma_held::<JobRow>(rows, id);
        assert(rows[i].id == id);
    }
    if exists|i: int| 0 <= i < rows.len() && (#[trigger] rows[i]).id == id {
        let i = choose|i: int| 0 <= i < rows.len() && (#[trigger] rows[i]).id == id;
        assert(keyed::holds_at::<JobRow>(rows, id, i));
    }
}

/// Noting where a job stands changes the status and the message of the row with its
/// identifier, and nothing else anywhere.
pub proof fn only_status_and_message_change(
    rows: Seq<RowView>,
    id: Seq<char>,
    status: JobStatus,
    error: Option<Seq<char>>,
    i: int,
)
    requires
        0 <= i < rows.len(),
    ensures
        ({
            let (before, after) = (rows[i], after_status(rows, id, status, error)[i]);
            &&& after_status(rows, id, status, error).len() == rows.len()
            &&& before.id != id ==> after == before
            &&& after.id == before.id
            &&& after.device_id == before.device_id
            &&& after.target_version == before.target_version
            &&& after.artifact_url == before.artifact_url
            &&& after.sha256 == before.sha256
            &&& after.size_bytes == before.size_bytes
            &&& after.created_at == before.created_at
            &&& before.id == id ==> after.error_message == error && JobStatus::parsed(after.status)
                == Some(status)
        }),
{
    status_text_round_trip(status, status);
}

/// The job that a device is told about is a job of that device that is pending or in progress,
/// and no such job of the device is older.
pub proof fn due_job_is_the_oldest(rows: Seq<RowView>, device_id: Seq<char>, i: int)
    ensures
        is_due(rows, device_id, i) ==> {
            &&& 0 <= i < rows.len()
            &&& rows[i].device_id == device_id
            &&& rows[i].status == "pending"@ || rows[i].status == "in_progress"@
            &&& forall|j: int|
                0 <= j < rows.len() && (#[trigger] rows[j]).device_id == device_id && (
                rows[j].status == "pending"@ || rows[j].status == "in_progress"@)
                    ==> !text::text_less(rows[j].created_at, rows[i].created_at) && (
                rows[j].created_at == rows[i].created_at ==> i <= j)
        },
        has_active(rows, device_id) <==> exists|j: int|
            0 <= j < rows.len() && (#[trigger] rows[j]).device_id == device_id && (rows[j].status
                == "pending"@ || rows[j].status == "in_progress"@),
{
    if is_due(rows, device_id, i) {
        assert forall|j: int|
            0 <= j < rows.len() && (#[trigger] rows[j]).device_id == device_id && (rows[j].status
                == "pending"@ || rows[j].status == "in_progress"@) implies !text::text_less(
            rows[j].created_at,
            rows[i].created_at,
        ) && (rows[j].created_at == rows[i].created_at ==> i <= j) by {
            assert(active_at(rows, device_id, j));
            text::text_less_irreflexive(rows[i].created_at);
            if j != i && text::text_less(rows[j].created_at, rows[i].created_at) {
                assert(is_older(rows, i, j));
                text::text_less_transitive(
                    rows[i].created_at,
                    rows[j].created_at,
                    rows[i].created_at,
                );
            }
        }
    }
    if has_active(rows, device_id) {
        let j = choose|j: int| active_at(rows, device_id, j);
        assert(rows[j].device_id == device_id);
    }
    if exists|j: int|
        0 <= j < rows.len() && (#[trigger] rows[j]).device_id == device_id && (rows[j].status
            == "pending"@ || rows[j].status == "in_progress"@) {
        let j = choose|j: int|
            0 <= j < rows.len() && (#[trigger] rows[j]).device_id == device_id && (rows[j].status
                == "pending"@ || rows[j].status == "in_progress"@);
        assert(active_at(rows, device_id, j));
    }
}

/// A history holds every job of the device that was created before the cursor, where there is
/// one, and no others; none is followed by a newer one, and of those of the same time the one
/// that was recorded first comes first.
pub proof fn history_is_of_one_device(
    rows: Seq<RowView>,
    device_id: Seq<char>,
    cursor: Option<Seq<char>>,
)
    ensures
        forall|row: RowView| #[trigger]
            history(rows, device_id, cursor).contains(row) <==> {
                &&& rows.contains(row)
                &&& row.device_id == device_id
                &&& cursor matches Some(c) ==> text::text_less(row.created_at, c)
            },
        forall|a: int, b: int|
            0 <= a < b < history(rows, device_id, cursor).len() ==> !text::text_less(
                (#[trigger] history(rows, device_id, cursor)[a]).created_at,
                (#[trigger] history(rows, device_id, cursor)[b]).created_at,
            ),
        keyed::keys_unique::<JobRow>(rows) ==> history(rows, device_id, cursor).no_duplicates(),
        forall|a: int, b: int|
            0 <= a < b < history(rows, device_id, cursor).len() && (#[trigger] history(
                rows,
                device_id,
                cursor,
            )[a]).created_at == (#[trigger] history(rows, device_id, cursor)[b]).created_at
                ==> exists|i: int, j: int|
                0 <= i < j < rows.len() && #[trigger] rows[i] == history(rows, device_id, cursor)[a]
                    && #[trigger] rows[j] == history(rows, device_id, cursor)[b],
{
    let chosen = lemma_history_exists(rows, device_id, cursor);
    lemma_history(rows, device_id, cursor, chosen);
    let all = history(rows, device_id, cursor);
    assert forall|row: RowView| #[trigger] all.contains(row) <==> {
        &&& rows.contains(row)
        &&& row.device_id == device_id
        &&& cursor matches Some(c) ==> text::text_less(row.created_at, c)
    } by {
        if all.contains(row) {
            let k = choose|k: int| 0 <= k < all.len() && all[k] == row;
            assert(is_listed(rows[chosen[k]], device_id, cursor));
        }
        if rows.contains(row) && row.device_id == device_id && (cursor matches Some(c)
            ==> text::text_less(row.created_at, c)) {
            let i = choose|i: int| 0 <= i < rows.len() && rows[i] == row;
            assert(is_listed(rows[i], device_id, cursor));
            assert(chosen.contains(i));
            let k = choose|k: int| 0 <= k < chosen.len() && chosen[k] == i;
            assert(all[k] == row);
        }
    }
    assert forall|a: int, b: int| 0 <= a < b < all.len() implies !text::text_less(
        (#[trigger] all[a]).created_at,
        (#[trigger] all[b]).created_at,
    ) by {
        assert(is_newer(rows, chosen[a], chosen[b]));
        text::text_less_irreflexive(all[a].created_at);
        if text::text_less(all[a].created_at, all[b].created_at) {
            text::text_less_transitive(
                all[a].created_at,
                all[b].created_at,
                all[a].created_at,
            );
        }
    }
    assert forall|a: int, b: int|
        0 <= a < b < all.len() && (#[trigger] all[a]).created_at == (
        #[trigger] all[b]).created_at implies exists|i: int, j: int|
        0 <= i < j < rows.len() && #[trigger] rows[i] == all[a] && #[trigger] rows[j] == all[b] by {
        assert(is_newer(rows, chosen[a], chosen[b]));
        text::text_less_irreflexive(all[a].created_at);
        assert(rows[chosen[a]] == all[a] && rows[chosen[b]] == all[b]);
    }
    if keyed::keys_unique::<JobRow>(rows) {
        assert forall|a: int, b: int|
            0 <= a < all.len() && 0 <= b < all.len() && a != b implies all[a] != all[b] by {
            let (lower, upper) = if a < b {
                (a, b)
            } else {
                (b, a)
            };
            assert(is_newer(rows, chosen[lower], chosen[upper]));
            text::text_less_irreflexive(all[a].created_at);
            assert(chosen[a] != chosen[b]);
            assert(rows[chosen[a]].id != rows[chosen[b]].id);
        }
    }
}

/// A page is the start of a history, as long as was asked for where the history goes that far.
/// Where more follows, the cursor is the time of the last job shown; where nothing follows,
/// there is none.
pub proof fn pages_are_the_start_of_a_history(all: Seq<RowView>, limit: i64)
    requires
        0 < limit < i64::MAX,
    ensures
        all.len() <= limit ==> page(all, limit) == (all, None::<Seq<char>>),
        all.len() > limit ==> page(all, limit) == (
            all.take(limit as int),
            Some(all[limit - 1].created_at),
        ),
{
    let read = selection::at_most(all, limit + 1);
    if all.len() > limit {
        assert(selection::at_most(read, limit as int) =~= all.take(limit as int));
    }
}

/// A text that is there is looked at whole, and one that is not there is not.
pub proof fn texts_are_looked_at_whole(owned: String, lent: &str)
    ensures
        text_view(Some(owned)) == Some(owned@),
        text_view(None) is None,
        str_view(Some(lent)) == Some(lent@),
        str_view(None) is None,
{
}

/// A page without a positive limit: minus one and zero stand for no job, and less than that
/// for the whole history; none of them has a cursor.
pub proof fn pages_without_a_limit(all: Seq<RowView>, limit: i64)
    requires
        limit <= 0,
    ensures
        page(all, limit).1 is None,
        limit == -1 || limit == 0 ==> page(all, limit).0.len() == 0,
        limit < -1 ==> page(all, limit).0 == all,
{
}

} // verus!
