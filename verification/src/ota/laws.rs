//! What holds of the update jobs whatever happens to them.

use vstd::prelude::*;

use crate::keyed;
use crate::ota::store;
use crate::ota::store::{JobRow, JobStatus, NewJob, RowView};
use crate::selection;
use crate::text;

verus! {

/// No device has two jobs that are not over.
pub open spec fn one_active_each(rows: Seq<RowView>) -> bool {
    forall|device: Seq<char>, i: int, j: int|
        #[trigger] store::active_at(rows, device, i) && #[trigger] store::active_at(
            rows,
            device,
            j,
        ) ==> i == j
}

/// Something that is done to the jobs: recording one, under an identifier and at a time, or
/// noting where one stands.
pub enum Operation {
    Create { job: NewJob, id: Seq<char>, created_at: Seq<char> },
    Note { id: Seq<char>, status: JobStatus, error: Option<Seq<char>> },
}

/// The jobs after one operation. A job is not recorded where the device has one that is not
/// over, or the identifier is taken.
pub open spec fn step(rows: Seq<RowView>, operation: Operation) -> Seq<RowView> {
    match operation {
        Operation::Create { job, id, created_at } => if store::has_active(rows, job.device_id@)
            || store::has_id(rows, id) {
            rows
        } else {
            rows.push(store::fresh_row(job, id, created_at))
        },
        Operation::Note { id, status, error } => store::after_status(rows, id, status, error),
    }
}

/// The jobs after a series of operations.
pub open spec fn run(rows: Seq<RowView>, operations: Seq<Operation>) -> Seq<RowView>
    decreases operations.len(),
{
    if operations.len() == 0 {
        rows
    } else {
        step(run(rows, operations.drop_last()), operations.last())
    }
}

/// The operation notes that a job is not over which was, while the device has another one
/// that is not.
pub open spec fn doubles(rows: Seq<RowView>, operation: Operation) -> bool {
    operation matches Operation::Note { id, status, .. } && status.is_active() && exists|i: int|
        0 <= i < rows.len() && (#[trigger] rows[i]).id == id && !rows[i].is_active_for(
            rows[i].device_id,
        ) && store::has_active(rows, rows[i].device_id)
}

proof fn lemma_ended_rows(
    rows: Seq<RowView>,
    id: Seq<char>,
    status: JobStatus,
    error: Option<Seq<char>>,
    device: Seq<char>,
    i: int,
)
    requires
        !status.is_active(),
    ensures
        store::active_at(store::after_status(rows, id, status, error), device, i)
            <==> store::active_at(rows, device, i) && rows[i].id != id,
{
    store::status_text_round_trip(status, JobStatus::Pending);
    store::status_text_round_trip(status, JobStatus::InProgress);
}

/// Operations keep the identifiers unique.
proof fn lemma_step_keys(rows: Seq<RowView>, operation: Operation)
    requires
        keyed::keys_unique::<JobRow>(rows),
    ensures
        keyed::keys_unique::<JobRow>(step(rows, operation)),
{
    match operation {
        Operation::Create { job, id, created_at } => {
            if !store::has_id(rows, id) {
                keyed::lemma_push::<JobRow>(rows, store::fresh_row(job, id, created_at));
            }
        },
        Operation::Note { id, status, error } => {
            let after = step(rows, operation);
            assert forall|i: int, j: int|
                0 <= i < after.len() && 0 <= j < after.len() && i
                    != j implies <JobRow as keyed::Row>::key(#[trigger] after[i])
                != <JobRow as keyed::Row>::key(#[trigger] after[j]) by {
                assert(after[i].id == rows[i].id && after[j].id == rows[j].id);
            }
        },
    }
}

/// Whatever is done to the jobs, no device ever has two that are not over, and no two have
/// the same identifier; only one thing is left out: to note that a job goes on after all
/// which was over, while the device has another one.
pub proof fn device_has_one_job_at_a_time(rows: Seq<RowView>, operations: Seq<Operation>)
    requires
        keyed::keys_unique::<JobRow>(rows),
        one_active_each(rows),
        forall|k: int|
            0 <= k < operations.len() ==> !doubles(
                run(rows, operations.take(k)),
                #[trigger] operations[k],
            ),
    ensures
        keyed::keys_unique::<JobRow>(run(rows, operations)),
        one_active_each(run(rows, operations)),
    decreases operations.len(),
{
    if operations.len() > 0 {
        let earlier = operations.drop_last();
        assert forall|k: int| 0 <= k < earlier.len() implies !doubles(
            run(rows, earlier.take(k)),
            #[trigger] earlier[k],
        ) by {
            assert(earlier[k] == operations[k]);
            assert(earlier.take(k) =~= operations.take(k));
        }
        device_has_one_job_at_a_time(rows, earlier);
        let before = run(rows, earlier);
        let operation = operations.last();
        let after = step(before, operation);
        assert(operations.take(operations.len() - 1) =~= earlier);
        assert(!doubles(before, operations[operations.len() - 1]));
        lemma_step_keys(before, operation);
        assert forall|device: Seq<char>, i: int, j: int|
            #[trigger] store::active_at(after, device, i) && #[trigger] store::active_at(
                after,
                device,
                j,
            ) implies i == j by {
            match operation {
                Operation::Create { job, id, created_at } => {
                    if i < before.len() {
                        assert(store::active_at(before, device, i));
                    }
                    if j < before.len() {
                        assert(store::active_at(before, device, j));
                    }
                },
                Operation::Note { id, status, error } => {
                    if status.is_active() {
                        if before[i].id != id {
                            assert(store::active_at(before, device, i));
                        }
                        if before[j].id != id {
                            assert(store::active_at(before, device, j));
                        }
                        if i != j && before[i].id == id {
                            assert(before[j].id != before[i].id);
                            assert(store::has_active(before, device));
                            assert(store::active_at(before, device, i));
                        }
                        if i != j && before[j].id == id {
                            assert(before[i].id != before[j].id);
                            assert(store::has_active(before, device));
                            assert(store::active_at(before, device, j));
                        }
                    } else {
                        lemma_ended_rows(before, id, status, error, device, i);
                        lemma_ended_rows(before, id, status, error, device, j);
                    }
                },
            }
        }
    }
}

/// Recording a job for one device is of no concern to another.
pub proof fn devices_are_independent(
    rows: Seq<RowView>,
    job: NewJob,
    id: Seq<char>,
    created_at: Seq<char>,
    other: Seq<char>,
)
    requires
        other != job.device_id@,
    ensures
        store::has_active(rows.push(store::fresh_row(job, id, created_at)), other)
            <==> store::has_active(rows, other),
{
    let after = rows.push(store::fresh_row(job, id, created_at));
    if store::has_active(after, other) {
        let i = choose|i: int| store::active_at(after, other, i);
        assert(store::active_at(rows, other, i));
    }
    if store::has_active(rows, other) {
        let i = choose|i: int| store::active_at(rows, other, i);
        assert(store::active_at(after, other, i));
    }
}

/// A job that was recorded is the one that the device is told about, and while it is not over
/// the device gets no other.
pub proof fn recorded_job_is_due(
    rows: Seq<RowView>,
    job: NewJob,
    id: Seq<char>,
    created_at: Seq<char>,
)
    requires
        !store::has_active(rows, job.device_id@),
    ensures
        ({
            let after = rows.push(store::fresh_row(job, id, created_at));
            &&& store::has_active(after, job.device_id@)
            &&& store::is_due(after, job.device_id@, rows.len() as int)
            &&& after[rows.len() as int].job() == store::fresh_job(job, id, created_at)
        }),
{
    let after = rows.push(store::fresh_row(job, id, created_at));
    let last = rows.len() as int;
    let size: u64 = job.size_bytes;
    assert((size as i64) as u64 == size) by (bit_vector);
    store::status_text_round_trip(JobStatus::Pending, JobStatus::Pending);
    assert(store::active_at(after, job.device_id@, last));
    assert forall|j: int| #[trigger]
        store::active_at(after, job.device_id@, j) && j != last implies store::is_older(
        after,
        last,
        j,
    ) by {
        assert(store::active_at(rows, job.device_id@, j));
    }
}

/// When the one job of a device is over, whether it succeeded or not, the device can get
/// another.
pub proof fn ended_job_frees_device(
    rows: Seq<RowView>,
    device: Seq<char>,
    i: int,
    status: JobStatus,
    error: Option<Seq<char>>,
)
    requires
        one_active_each(rows),
        store::active_at(rows, device, i),
        !status.is_active(),
    ensures
        !store::has_active(store::after_status(rows, rows[i].id, status, error), device),
{
    let after = store::after_status(rows, rows[i].id, status, error);
    assert forall|j: int| !#[trigger] store::active_at(after, device, j) by {
        lemma_ended_rows(rows, rows[i].id, status, error, device, j);
    }
}

/// No two jobs of a device were created at the same time.
pub open spec fn times_differ(rows: Seq<RowView>, device: Seq<char>) -> bool {
    forall|i: int, j: int|
        0 <= i < rows.len() && 0 <= j < rows.len() && i != j && (#[trigger] rows[i]).device_id
            == device && (#[trigger] rows[j]).device_id == device ==> rows[i].created_at
            != rows[j].created_at
}

/// A page and the history that starts before its cursor are the whole history, where no two
/// jobs of the device were created at the same time; where no cursor comes with the page,
/// the page is the whole history.
pub proof fn page_and_rest_are_all(
    rows: Seq<RowView>,
    device: Seq<char>,
    cursor: Option<Seq<char>>,
    limit: i64,
)
    requires
        times_differ(rows, device),
        0 < limit < i64::MAX,
    ensures
        ({
            let all = store::history(rows, device, cursor);
            let (shown, next) = store::page(all, limit);
            match next {
                None => shown == all,
                Some(time) => shown.len() == limit && all == shown + store::history(
                    rows,
                    device,
                    Some(time),
                ),
            }
        }),
{
    let chosen = store::lemma_history_exists(rows, device, cursor);
    store::lemma_history(rows, device, cursor, chosen);
    let all = store::history(rows, device, cursor);
    let (shown, next) = store::page(all, limit);
    let read = selection::at_most(all, limit + 1);
    if all.len() > limit {
        assert(selection::at_most(read, limit as int) =~= all.take(limit as int));
        let time = all[limit - 1].created_at;
        assert(next == Some(time));
        let rest = chosen.skip(limit as int);
        let last = chosen[limit - 1];
        assert forall|a: int| #![trigger rest[a]] 0 <= a < rest.len() implies 0 <= rest[a]
            < rows.len() && store::is_listed(rows[rest[a]], device, Some(time)) by {
            assert(rest[a] == chosen[limit + a]);
            assert(store::is_newer(rows, chosen[limit - 1], chosen[limit + a]));
            if last != rest[a] {
                assert(rows[last].created_at != rows[rest[a]].created_at);
            }
        }
        assert forall|i: int|
            0 <= i < rows.len() && store::is_listed(
                #[trigger] rows[i],
                device,
                Some(time),
            ) implies rest.contains(i) by {
            if let Some(c) = cursor {
                assert(store::is_listed(rows[chosen[limit - 1]], device, cursor));
                text::text_less_transitive(rows[i].created_at, time, c);
            }
            assert(chosen.contains(i));
            let a = choose|a: int| 0 <= a < chosen.len() && chosen[a] == i;
            if a < limit {
                if a < limit - 1 {
                    assert(store::is_newer(rows, chosen[a], chosen[limit - 1]));
                    if text::text_less(time, rows[i].created_at) {
                        text::text_less_transitive(time, rows[i].created_at, time);
                    }
                }
                text::text_less_irreflexive(time);
                assert(false);
            }
            assert(rest[a - limit] == i);
        }
        assert forall|a: int, b: int| 0 <= a < b < rest.len() implies store::is_newer(
            rows,
            #[trigger] rest[a],
            #[trigger] rest[b],
        ) by {
            assert(store::is_newer(rows, chosen[limit + a], chosen[limit + b]));
        }
        assert(store::is_history(rows, device, Some(time), rest));
        store::lemma_history(rows, device, Some(time), rest);
        assert(all =~= shown + store::history(rows, device, Some(time)));
    } else {
        assert(selection::at_most(read, limit as int) =~= all);
    }
}

} // verus!
