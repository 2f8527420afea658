//! The update service.

use robot_fleet::ota::dispatcher::{decide_dispatch, Dispatcher, UpdateCommand};
use robot_fleet::ota::error::Error;
use robot_fleet::ota::server::{
    to_status, AckUpdateRequest, DispatchUpdateRequest, ListUpdateJobsRequest, OtaServer,
};
use robot_fleet::ota::store::{JobRow, JobStatus, JobStore, NewJob};
use robot_fleet::status::{Code, Timestamp};

const NOW: &str = "2024-05-01 10:00:00";

fn store() -> JobStore {
    JobStore::new()
}

fn new_job(device_id: &str, version: &str) -> NewJob {
    NewJob {
        device_id: device_id.to_string(),
        target_version: version.to_string(),
        artifact_url: "http://example.com/artifact.tar.gz".to_string(),
        sha256: "abc123".to_string(),
        size_bytes: 1024,
    }
}

#[test]
fn create_and_get_job() {
    let mut s = store();
    let job = s.create_job(new_job("dev-1", "v2.0.0"), NOW.into()).unwrap();
    assert_eq!(job.status, JobStatus::Pending);
    assert_eq!(job.device_id, "dev-1");
    assert_eq!(job.target_version, "v2.0.0");
    assert_eq!(job.size_bytes, 1024);
    assert_eq!(job.created_at, NOW);
    assert_eq!(job.id.len(), 36);
}

#[test]
fn create_job_blocks_second_pending() {
    let mut s = store();
    s.create_job(new_job("dev-1", "v2.0.0"), NOW.into()).unwrap();
    let err = s.create_job(new_job("dev-1", "v2.1.0"), NOW.into()).unwrap_err();
    assert!(matches!(err, Error::AlreadyPending));
}

#[test]
fn create_job_allowed_after_completion() {
    let mut s = store();
    let job = s.create_job(new_job("dev-1", "v2.0.0"), NOW.into()).unwrap();
    s.update_status(&job.id, JobStatus::Completed, None).unwrap();
    let job2 = s.create_job(new_job("dev-1", "v2.1.0"), NOW.into()).unwrap();
    assert_eq!(job2.target_version, "v2.1.0");
}

#[test]
fn create_job_allowed_after_failure() {
    let mut s = store();
    let job = s.create_job(new_job("dev-1", "v2.0.0"), NOW.into()).unwrap();
    s.update_status(&job.id, JobStatus::Failed, Some("install failed")).unwrap();
    let job2 = s.create_job(new_job("dev-1", "v2.1.0"), NOW.into()).unwrap();
    assert_eq!(job2.status, JobStatus::Pending);
}

#[test]
fn get_pending_for_device_returns_active_job() {
    let mut s = store();
    let job = s.create_job(new_job("dev-1", "v2.0.0"), NOW.into()).unwrap();
    let pending = s.get_pending_for_device("dev-1");
    assert!(pending.is_some());
    assert_eq!(pending.unwrap().id, job.id);
}

#[test]
fn get_pending_for_device_returns_none_when_completed() {
    let mut s = store();
    let job = s.create_job(new_job("dev-1", "v2.0.0"), NOW.into()).unwrap();
    s.update_status(&job.id, JobStatus::Completed, None).unwrap();
    let pending = s.get_pending_for_device("dev-1");
    assert!(pending.is_none());
}

#[test]
fn update_status_returns_not_found_for_missing_id() {
    let mut s = store();
    let err = s.update_status("no-such-id", JobStatus::Completed, None).unwrap_err();
    assert!(matches!(err, Error::NotFound(_)));
}

#[test]
fn list_for_device_returns_jobs_in_desc_order() {
    let mut s = store();
    s.create_job(new_job("dev-1", "v1.0.0"), NOW.into()).unwrap();
    let j2 = s.create_job(new_job("dev-2", "v2.0.0"), NOW.into()).unwrap();
    let (jobs, cursor) = s.list_for_device("dev-2", 10, None);
    assert_eq!(jobs.len(), 1);
    assert_eq!(jobs[0].id, j2.id);
    assert!(cursor.is_none());
}

#[test]
fn already_pending_guard_independent_per_device() {
    let mut s = store();
    s.create_job(new_job("dev-1", "v2.0.0"), NOW.into()).unwrap();
    let job = s.create_job(new_job("dev-2", "v2.0.0"), NOW.into()).unwrap();
    assert_eq!(job.device_id, "dev-2");
}

#[test]
fn a_job_in_progress_is_not_over() {
    let mut s = store();
    let job = s.create_job(new_job("dev-1", "v2.0.0"), NOW.into()).unwrap();
    s.update_status(&job.id, JobStatus::InProgress, None).unwrap();
    assert!(s.create_job(new_job("dev-1", "v2.1.0"), NOW.into()).is_err());
    assert_eq!(s.get_pending_for_device("dev-1").unwrap().status, JobStatus::InProgress);
}

#[test]
fn a_device_has_one_job_at_a_time() {
    let mut s = store();
    for round in 0..5 {
        let job = s.create_job(new_job("dev-1", &format!("v{round}")), NOW.into()).unwrap();
        s.update_status(&job.id, JobStatus::InProgress, None).unwrap();
        assert!(s.create_job(new_job("dev-1", "more"), NOW.into()).is_err());
        let active = s
            .rows()
            .iter()
            .filter(|r| r.status == "pending" || r.status == "in_progress")
            .count();
        assert_eq!(active, 1);
        s.update_status(&job.id, JobStatus::Failed, Some("again")).unwrap();
    }
    assert_eq!(s.rows().len(), 5);
}

#[test]
fn an_identifier_is_not_used_twice() {
    let mut s = store();
    s.create_job_as(new_job("dev-1", "v1"), "id-1".into(), NOW.into()).unwrap();
    match s.create_job_as(new_job("dev-2", "v1"), "id-1".into(), NOW.into()) {
        Err(Error::Db(m)) => assert_eq!(m, "UNIQUE constraint failed: update_jobs.id"),
        other => panic!("taken: {other:?}"),
    }
}

#[test]
fn huge_sizes_survive_the_table() {
    let mut s = store();
    let mut job = new_job("dev-1", "v1");
    job.size_bytes = u64::MAX;
    let record = s.create_job(job, NOW.into()).unwrap();
    assert_eq!(record.size_bytes, u64::MAX);
    assert_eq!(s.rows()[0].size_bytes, -1);
    assert_eq!(s.get_pending_for_device("dev-1").unwrap().size_bytes, u64::MAX);
}

#[test]
fn statuses_are_written_and_read() {
    for status in
        [JobStatus::Pending, JobStatus::InProgress, JobStatus::Completed, JobStatus::Failed]
    {
        assert_eq!(JobStatus::from_str(status.as_str()), Some(status));
    }
    assert_eq!(JobStatus::InProgress.as_str(), "in_progress");
    assert_eq!(JobStatus::from_str("done"), None);
}

fn row(id: &str, device: &str, status: &str, created_at: &str) -> JobRow {
    JobRow {
        id: id.into(),
        device_id: device.into(),
        target_version: "v".into(),
        artifact_url: String::new(),
        sha256: String::new(),
        size_bytes: 0,
        status: status.into(),
        error_message: None,
        created_at: created_at.into(),
    }
}

#[test]
fn the_oldest_active_job_is_due() {
    let s = JobStore::load(vec![
        row("a", "dev", "completed", "2024-01-01 00:00:00"),
        row("b", "dev", "in_progress", "2024-01-03 00:00:00"),
        row("c", "dev", "pending", "2024-01-02 00:00:00"),
        row("d", "dev", "pending", "2024-01-02 00:00:00"),
    ])
    .unwrap();
    assert_eq!(s.get_pending_for_device("dev").unwrap().id, "c");
}

#[test]
fn a_status_that_is_none_is_shown_as_pending_but_blocks_nothing() {
    let mut s = JobStore::load(vec![row("a", "dev", "weird", NOW)]).unwrap();
    assert!(s.get_pending_for_device("dev").is_none());
    let (jobs, _) = s.list_for_device("dev", 10, None);
    assert_eq!(jobs[0].status, JobStatus::Pending);
    assert!(s.create_job(new_job("dev", "v2"), NOW.into()).is_ok());
}

#[test]
fn tables_with_an_identifier_twice_are_not_loaded() {
    assert!(JobStore::load(vec![row("a", "x", "failed", NOW), row("a", "y", "failed", NOW)]).is_none());
}

fn five_jobs() -> JobStore {
    JobStore::load(
        (1..6).map(|i| row(&format!("j{i}"), "dev", "completed", &format!("2024-01-0{i}"))).collect(),
    )
    .unwrap()
}

#[test]
fn pages_of_jobs_follow_each_other() {
    let s = five_jobs();
    let ids = |jobs: &Vec<robot_fleet::ota::store::JobRecord>| -> Vec<String> {
        jobs.iter().map(|j| j.id.clone()).collect()
    };
    let (first, cursor) = s.list_for_device("dev", 3, None);
    assert_eq!(ids(&first), vec!["j5", "j4", "j3"]);
    assert_eq!(cursor.as_deref(), Some("2024-01-03"));
    let (second, end) = s.list_for_device("dev", 3, cursor.as_deref());
    assert_eq!(ids(&second), vec!["j2", "j1"]);
    assert_eq!(end, None);
}

#[test]
fn odd_limits_of_job_pages() {
    let s = five_jobs();
    assert_eq!(s.list_for_device("dev", -1, None).0.len(), 0);
    let (all, cursor) = s.list_for_device("dev", -2, None);
    assert_eq!((all.len(), cursor), (5, None));
    assert_eq!(s.list_for_device("nobody", 0, None).0.len(), 0);
    let (whole, cursor) = s.list_for_device("dev", 5, None);
    assert_eq!((whole.len(), cursor), (5, None));
}

fn cmd(version: &str) -> UpdateCommand {
    UpdateCommand {
        update_job_id: "job-1".to_string(),
        target_version: version.to_string(),
        artifact_url: "http://example.com/v.tar.gz".to_string(),
        sha256: "abc".to_string(),
        size_bytes: 0,
        apply_by: None,
    }
}

#[test]
fn subscribe_and_dispatch_delivers_command() {
    let mut d = Dispatcher::new();
    let mut rx = d.subscribe("dev-1");
    let count = d.dispatch("dev-1", cmd("v2.0.0")).unwrap();
    assert_eq!(count, 1);
    let received = rx.try_recv().unwrap();
    assert_eq!(received.target_version, "v2.0.0");
}

#[test]
fn dispatch_with_no_subscribers_returns_error() {
    let mut d = Dispatcher::new();
    let err = d.dispatch("dev-ghost", cmd("v2.0.0")).unwrap_err();
    assert!(matches!(err, Error::NoActiveSubscribers(_)));
}

#[test]
fn dispatch_after_receiver_dropped_returns_error() {
    let mut d = Dispatcher::new();
    let rx = d.subscribe("dev-1");
    drop(rx);
    let err = d.dispatch("dev-1", cmd("v2.0.0")).unwrap_err();
    assert!(matches!(err, Error::NoActiveSubscribers(_)));
}

#[test]
fn multiple_subscribers_all_receive() {
    let mut d = Dispatcher::new();
    let mut rx1 = d.subscribe("dev-1");
    let mut rx2 = d.subscribe("dev-1");
    let count = d.dispatch("dev-1", cmd("v2.0.0")).unwrap();
    assert_eq!(count, 2);
    assert_eq!(rx1.try_recv().unwrap().target_version, "v2.0.0");
    assert_eq!(rx2.try_recv().unwrap().target_version, "v2.0.0");
}

#[test]
fn dispatch_is_independent_per_device() {
    let mut d = Dispatcher::new();
    let mut rx1 = d.subscribe("dev-1");
    let mut rx2 = d.subscribe("dev-2");

    d.dispatch("dev-1", cmd("v2.0.0")).unwrap();

    assert!(rx1.try_recv().is_ok());
    assert!(rx2.try_recv().is_err());
    let err = d.dispatch("dev-99", cmd("v2.0.0")).unwrap_err();
    assert!(matches!(err, Error::NoActiveSubscribers(_)));
}

#[test]
fn a_command_reaches_everyone_on_its_channel_once() {
    let mut d = Dispatcher::new();
    let mut watching: Vec<_> = (0..3).map(|_| d.subscribe("dev-1")).collect();
    let mut others: Vec<_> = (0..2).map(|_| d.subscribe("dev-2")).collect();
    assert!(watching[0].same_channel(&watching[2]));
    assert!(!watching[0].same_channel(&others[0]));

    assert_eq!(d.dispatch("dev-1", cmd("v1")).unwrap(), 3);
    for rx in &mut watching {
        assert_eq!(rx.try_recv().unwrap().target_version, "v1");
        assert!(rx.try_recv().is_err());
    }
    for rx in &mut others {
        assert!(rx.try_recv().is_err());
    }

    watching.pop();
    assert_eq!(d.dispatch("dev-1", cmd("v2")).unwrap(), 2);
    assert_eq!(d.dispatch("dev-2", cmd("v3")).unwrap(), 2);
    watching.clear();
    assert!(matches!(d.dispatch("dev-1", cmd("v4")), Err(Error::NoActiveSubscribers(_))));
    assert_eq!(others[1].try_recv().unwrap().target_version, "v3");
}

#[test]
fn subscribe_creates_channel_on_first_call() {
    let mut d = Dispatcher::new();
    let _rx = d.subscribe("new-device");
    let result = d.dispatch("new-device", cmd("v1.0.0"));
    assert!(result.is_ok());
}

#[test]
fn subscribers_get_what_follows_their_subscription() {
    let mut d = Dispatcher::new();
    let _first = d.subscribe("dev-1");
    d.dispatch("dev-1", cmd("v1")).unwrap();
    let mut late = d.subscribe("dev-1");
    d.dispatch("dev-1", cmd("v2")).unwrap();
    assert_eq!(late.try_recv().unwrap().target_version, "v2");
    assert!(late.try_recv().is_err());
}

#[test]
fn a_channel_holds_eight_commands() {
    let mut d = Dispatcher::new();
    let mut rx = d.subscribe("dev-1");
    for i in 0..9 {
        d.dispatch("dev-1", cmd(&format!("v{i}"))).unwrap();
    }
    assert!(rx.try_recv().is_err());
    assert_eq!(rx.try_recv().unwrap().target_version, "v1");
}

#[test]
fn dispatch_is_decided_by_the_listeners() {
    assert_eq!(decide_dispatch("d", Some(3)).unwrap(), 3);
    assert!(decide_dispatch("d", Some(0)).is_err());
    match decide_dispatch("d", None) {
        Err(Error::NoActiveSubscribers(id)) => assert_eq!(id, "d"),
        other => panic!("{other:?}"),
    }
}

fn dispatch_request(device: &str) -> DispatchUpdateRequest {
    DispatchUpdateRequest {
        device_id: device.into(),
        target_version: "v2.0.0".into(),
        apply_by: Some(Timestamp { seconds: 9, nanos: 0 }),
    }
}

#[test]
fn a_dispatched_update_is_recorded_and_sent() {
    let (mut jobs, mut d) = (store(), Dispatcher::new());
    let server = OtaServer;
    let mut rx = server.watch_updates(&mut d, "dev-1");
    let job = server.dispatch_update(&mut jobs, &mut d, &dispatch_request("dev-1"), NOW.into()).unwrap();
    assert_eq!(job.status, "pending");
    assert_eq!(job.device_id, "dev-1");
    assert_eq!(job.error_message, "");
    let sent = rx.try_recv().unwrap();
    assert_eq!(sent.update_job_id, job.update_job_id);
    assert_eq!(sent.target_version, "v2.0.0");
    assert_eq!(sent.apply_by, Some(Timestamp { seconds: 9, nanos: 0 }));
    assert_eq!((sent.artifact_url.as_str(), sent.size_bytes), ("", 0));

    let check = server.check_update(&jobs, "dev-1");
    assert!(check.update_available);
    assert_eq!(check.update_job_id, job.update_job_id);

    let again = server
        .dispatch_update(&mut jobs, &mut d, &dispatch_request("dev-1"), NOW.into())
        .unwrap_err();
    assert_eq!(again.code, Code::AlreadyExists);
    assert_eq!(again.message, "device already has an active job");
}

#[test]
fn an_update_for_an_absent_device_waits_for_it() {
    let (mut jobs, mut d) = (store(), Dispatcher::new());
    let server = OtaServer;
    let err = server
        .dispatch_update(&mut jobs, &mut d, &dispatch_request("dev-1"), NOW.into())
        .unwrap_err();
    assert_eq!(err.code, Code::Unavailable);
    assert_eq!(err.message, "device dev-1 is not connected");
    assert!(server.check_update(&jobs, "dev-1").update_available);
}

#[test]
fn acknowledged_jobs_are_over() {
    for (success, message, status) in [(true, "", "completed"), (false, "boom", "failed")] {
        let (mut jobs, mut d) = (store(), Dispatcher::new());
        let server = OtaServer;
        let _rx = server.watch_updates(&mut d, "dev-1");
        let job = server
            .dispatch_update(&mut jobs, &mut d, &dispatch_request("dev-1"), NOW.into())
            .unwrap();
        let ack = AckUpdateRequest {
            update_job_id: job.update_job_id.clone(),
            device_id: "dev-1".into(),
            success,
            error_message: message.into(),
            version: String::new(),
        };
        assert!(server.ack_update(&mut jobs, &ack).unwrap().accepted);
        assert!(!server.check_update(&jobs, "dev-1").update_available);
        let list = server.list_update_jobs(
            &jobs,
            &ListUpdateJobsRequest { device_id: "dev-1".into(), limit: 0, cursor: String::new() },
        );
        assert_eq!(list.jobs.len(), 1);
        assert_eq!((list.jobs[0].status.as_str(), list.jobs[0].error_message.as_str()), (status, message));
        assert_eq!(list.next_cursor, "");
        server
            .dispatch_update(&mut jobs, &mut d, &dispatch_request("dev-1"), NOW.into())
            .unwrap();
    }
}

#[test]
fn acknowledging_an_unknown_job_is_refused() {
    let mut jobs = store();
    let ack = AckUpdateRequest {
        update_job_id: "ghost".into(),
        device_id: "dev-1".into(),
        success: true,
        error_message: String::new(),
        version: String::new(),
    };
    let err = OtaServer.ack_update(&mut jobs, &ack).unwrap_err();
    assert_eq!((err.code, err.message.as_str()), (Code::NotFound, "ghost"));
}

#[test]
fn job_lists_hold_twenty_by_default() {
    let rows: Vec<JobRow> =
        (10..40).map(|i| row(&format!("j{i}"), "dev", "failed", &format!("2024-01-01 00:00:{i}"))).collect();
    let jobs = JobStore::load(rows).unwrap();
    let ask = |limit: i32, cursor: &str| {
        OtaServer.list_update_jobs(
            &jobs,
            &ListUpdateJobsRequest { device_id: "dev".into(), limit, cursor: cursor.into() },
        )
    };
    let first = ask(0, "");
    assert_eq!(first.jobs.len(), 20);
    assert_eq!(first.jobs[0].update_job_id, "j39");
    assert_eq!(first.next_cursor, "2024-01-01 00:00:20");
    let second = ask(-5, &first.next_cursor);
    assert_eq!(second.jobs.len(), 10);
    assert_eq!(second.next_cursor, "");
    assert_eq!(ask(3, "").jobs.len(), 3);
}

#[test]
fn update_errors_become_statuses() {
    let s = to_status(Error::Db("locked".into()));
    assert_eq!((s.code, s.message.as_str()), (Code::Internal, "locked"));
    let s = to_status(Error::Grpc("x".into()));
    assert_eq!((s.code, s.message.as_str()), (Code::Internal, "internal error"));
    let s = to_status(Error::Transport("x".into()));
    assert_eq!((s.code, s.message.as_str()), (Code::Internal, "internal error"));
    assert_eq!(Error::NotFound("j".into()).message(), "job not found: j");
    assert_eq!(
        Error::AlreadyPending.message(),
        "device already has a pending or in-progress job"
    );
    assert_eq!(
        Error::NoActiveSubscribers("d".into()).message(),
        "no active subscribers for device d"
    );
    assert_eq!(Error::Db("x".into()).message(), "database error: x");
    assert_eq!(Error::Grpc("x".into()).message(), "gRPC error: x");
    assert_eq!(Error::Transport("x".into()).message(), "gRPC transport error: x");
}
