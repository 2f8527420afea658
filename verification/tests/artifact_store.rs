//! The artifact store.

use std::sync::Arc;

use robot_fleet::artifact::error::Error;
use robot_fleet::artifact::registry::{ArtifactRecord, NewArtifact, Registry};
use robot_fleet::artifact::server::{
    map_err, ArtifactServer, ListArtifactsRequest, PublishRequest, UploadUrlRequest,
};
use robot_fleet::artifact::storage::{object_exists, HeadFault};
use robot_fleet::status::Code;

fn new_artifact(model: &str, version: &str) -> NewArtifact {
    NewArtifact {
        model: model.into(),
        version: version.into(),
        sha256: "abc123".into(),
        size_bytes: 1024,
        channel: "stable".into(),
        object_key: format!("{model}/{version}/firmware.bin"),
        download_url: "https://example.com/fw".into(),
    }
}

#[test]
fn create_and_get() {
    let mut r = Registry::new();
    let record = r.create(new_artifact("humanoid-v2", "1.0.0")).unwrap();
    assert!(!record.id.is_empty());

    let fetched = r.get(&record.id).unwrap();
    assert_eq!(fetched.version, "1.0.0");
    assert_eq!(fetched.model, "humanoid-v2");
    assert_eq!(fetched.created_at, record.created_at);
    assert!(fetched.created_at > 1_600_000_000);
}

#[test]
fn get_not_found() {
    let r = Registry::new();
    let err = r.get("nonexistent-id").unwrap_err();
    assert!(matches!(err, Error::NotFound(_)));
}

#[test]
fn version_conflict() {
    let mut r = Registry::new();
    r.create(new_artifact("humanoid-v2", "1.0.0")).unwrap();
    let err = r.create(new_artifact("humanoid-v2", "1.0.0")).unwrap_err();
    assert!(matches!(err, Error::VersionConflict { .. }));
}

#[test]
fn get_latest_returns_most_recent() {
    let mut r = Registry::new();
    r.create_as(new_artifact("humanoid-v2", "1.0.0"), "a".into(), 1000).unwrap();
    r.create_as(new_artifact("humanoid-v2", "2.0.0"), "b".into(), 1001).unwrap();

    let latest = r.get_latest("humanoid-v2", "stable").unwrap();
    assert_eq!(latest.version, "2.0.0");
}

#[test]
fn list_filtered_by_model_and_channel() {
    let mut r = Registry::new();
    r.create(new_artifact("humanoid-v2", "1.0.0")).unwrap();
    r.create(new_artifact("humanoid-v2", "2.0.0")).unwrap();
    r.create(NewArtifact {
        model: "arm-v1".into(),
        version: "1.0.0".into(),
        sha256: "def456".into(),
        size_bytes: 512,
        channel: "stable".into(),
        object_key: "arm/1.0.0/fw".into(),
        download_url: "https://example.com/arm".into(),
    })
    .unwrap();

    let results = r.list("humanoid-v2", "stable", 10);
    assert_eq!(results.len(), 2);
    assert!(results.iter().all(|a| a.model == "humanoid-v2"));
}

#[test]
fn the_newest_comes_first_and_limits_cut_the_rest() {
    let mut r = Registry::new();
    for (i, time) in [5, 9, 7, 9].iter().enumerate() {
        r.create_as(new_artifact("m", &format!("{i}")), format!("id{i}"), *time).unwrap();
    }
    let versions = |limit: i64| -> Vec<String> {
        r.list("m", "stable", limit).iter().map(|a| a.version.clone()).collect()
    };
    assert_eq!(versions(10), vec!["1", "3", "2", "0"]);
    assert_eq!(versions(2), vec!["1", "3"]);
    assert_eq!(versions(0), Vec::<String>::new());
    assert_eq!(versions(-1).len(), 4);
    assert_eq!(r.get_latest("m", "stable").unwrap().version, "1");
}

#[test]
fn the_latest_of_nothing_is_not_found() {
    let mut r = Registry::new();
    r.create(new_artifact("m", "1")).unwrap();
    match r.get_latest("m", "nightly") {
        Err(Error::NotFound(m)) => assert_eq!(m, "m@latest (nightly)"),
        other => panic!("{other:?}"),
    }
}

#[test]
fn identifiers_of_artifacts_are_not_used_twice() {
    let mut r = Registry::new();
    r.create_as(new_artifact("m", "1"), "a".into(), 1).unwrap();
    let err = r.create_as(new_artifact("m", "2"), "a".into(), 1).unwrap_err();
    assert!(matches!(err, Error::VersionConflict { .. }));
}

fn row(id: &str, version: &str) -> ArtifactRecord {
    ArtifactRecord {
        id: id.into(),
        model: "m".into(),
        version: version.into(),
        sha256: String::new(),
        size_bytes: 0,
        channel: "c".into(),
        object_key: String::new(),
        download_url: String::new(),
        created_at: 0,
    }
}

#[test]
fn registers_are_loaded_where_nothing_stands_twice() {
    assert_eq!(Registry::load(vec![row("a", "1"), row("b", "2")]).unwrap().rows().len(), 2);
    assert!(Registry::load(vec![row("a", "1"), row("a", "2")]).is_none());
    assert!(Registry::load(vec![row("a", "1"), row("b", "1")]).is_none());
}

fn make_server() -> ArtifactServer<(), ()> {
    ArtifactServer::new(Arc::new(()), Arc::new(()))
}

fn publish(model: &str, version: &str, sha256: &str, size: u64, channel: &str) -> PublishRequest {
    PublishRequest {
        model: model.into(),
        version: version.into(),
        sha256: sha256.into(),
        size_bytes: size,
        channel: channel.into(),
        object_key: format!("{model}/{version}/fw.bin"),
    }
}

#[test]
fn publish_returns_artifact_meta() {
    let mut table = Registry::new();
    let server = make_server();
    let meta = server
        .publish_artifact(&mut table, publish("humanoid-v2", "1.0.0", "deadbeef", 2048, "stable"))
        .unwrap();
    assert_eq!(meta.version, "1.0.0");
    assert!(!meta.artifact_id.is_empty());
    assert_eq!(meta.download_url, "");
    assert_eq!(table.rows()[0].object_key, "humanoid-v2/1.0.0/fw.bin");
}

#[test]
fn publish_rejects_empty_sha256() {
    let mut table = Registry::new();
    let server = make_server();
    let err = server
        .publish_artifact(&mut table, publish("humanoid-v2", "1.0.0", "", 0, ""))
        .unwrap_err();
    assert_eq!(err.code, Code::InvalidArgument);
    assert_eq!(err.message, "sha256 cannot be empty");
    assert!(table.rows().is_empty());
}

#[test]
fn generate_upload_url_calls_storage() {
    let server = make_server();
    let req = UploadUrlRequest { model: "humanoid-v2".into(), version: "2.0.0".into() };
    let (key, seconds) = server.upload_key(&req);
    assert_eq!(key, "humanoid-v2/2.0.0/firmware.bin");
    assert_eq!(seconds, 3600);
    let presigned = Ok("https://minio.example.com/presigned".to_string());
    let resp = server.generate_upload_url(key, presigned).unwrap();
    assert!(resp.upload_url.contains("presigned"));
    assert_eq!(resp.object_key, "humanoid-v2/2.0.0/firmware.bin");
}

#[test]
fn a_storage_that_gives_no_address_is_reported() {
    let err = make_server()
        .generate_upload_url("k".into(), Err(Error::Storage("down".into())))
        .unwrap_err();
    assert_eq!((err.code, err.message.as_str()), (Code::Internal, "storage error: down"));
}

#[test]
fn server_publish_then_get_round_trip() {
    let mut table = Registry::new();
    let server = make_server();
    let published = server
        .publish_artifact(&mut table, publish("humanoid-v2", "1.0.0", "deadbeef", 4096, "stable"))
        .unwrap();
    let artifact_id = published.artifact_id;
    assert!(!artifact_id.is_empty());

    let meta = server.get_artifact(&table, &artifact_id).unwrap();
    assert_eq!(meta.artifact_id, artifact_id);
    assert_eq!(meta.version, "1.0.0");
    assert_eq!(meta.sha256, "deadbeef");
    assert_eq!(meta.size_bytes, 4096);
}

#[test]
fn sizes_beyond_the_signed_numbers_come_back() {
    let mut table = Registry::new();
    let server = make_server();
    let published =
        server.publish_artifact(&mut table, publish("m", "1", "x", u64::MAX - 1, "c")).unwrap();
    assert_eq!(published.size_bytes, u64::MAX - 1);
    assert_eq!(server.get_artifact(&table, &published.artifact_id).unwrap().size_bytes, u64::MAX - 1);
}

#[test]
fn server_publish_duplicate_returns_already_exists() {
    let mut table = Registry::new();
    let server = make_server();
    let req = || publish("crawler-v3", "1.0.0", "abc", 100, "stable");
    server.publish_artifact(&mut table, req()).unwrap();
    let err = server.publish_artifact(&mut table, req()).unwrap_err();
    assert_eq!(err.code, Code::AlreadyExists);
    assert_eq!(err.message, "version already exists: crawler-v3@1.0.0");
}

#[test]
fn server_list_returns_published_artifacts() {
    let mut table = Registry::new();
    let server = make_server();
    for version in ["1.0.0", "2.0.0", "3.0.0"] {
        server
            .publish_artifact(&mut table, publish("sensor-v1", version, "hash", 256, "nightly"))
            .unwrap();
    }
    let results = server.list_artifacts(
        &table,
        &ListArtifactsRequest { model: "sensor-v1".into(), channel: "nightly".into(), limit: 10 },
    );
    assert_eq!(results.len(), 3);
    assert!(results.iter().all(|a| a.model == "sensor-v1"));
}

#[test]
fn lists_hold_fifty_by_default() {
    let mut table = Registry::new();
    for i in 0..60 {
        table.create_as(new_artifact("m", &format!("{i}")), format!("id{i}"), i).unwrap();
    }
    let ask = |limit: i32| {
        make_server()
            .list_artifacts(
                &table,
                &ListArtifactsRequest { model: "m".into(), channel: "stable".into(), limit },
            )
            .len()
    };
    assert_eq!(ask(0), 50);
    assert_eq!(ask(-3), 50);
    assert_eq!(ask(55), 55);
    assert_eq!(ask(100), 60);
}

#[test]
fn server_get_latest_returns_newest_version() {
    let mut table = Registry::new();
    let server = make_server();
    for (i, version) in ["0.9.0", "1.0.0"].iter().enumerate() {
        server
            .publish_artifact_as(
                &mut table,
                publish("gripper-v2", version, "hash", 128, "stable"),
                format!("id{i}"),
                1000 + i as i64,
            )
            .unwrap();
    }
    let latest = server.get_latest(&table, "gripper-v2", "stable").unwrap();
    assert_eq!(latest.version, "1.0.0");
    assert_eq!((latest.created_at.seconds, latest.created_at.nanos), (1001, 0));
    let err = server.get_latest(&table, "gripper-v2", "nightly").unwrap_err();
    assert_eq!((err.code, err.message.as_str()), (Code::NotFound, "gripper-v2@latest (nightly)"));
}

#[test]
fn object_exists_returns_false_for_missing_key() {
    let head = Err(HeadFault { not_found: true, message: "NotFound".into() });
    assert!(!object_exists(head).unwrap());
}

#[test]
fn object_exists_returns_true_after_upload() {
    assert!(object_exists(Ok(())).unwrap());
}

#[test]
fn a_storage_that_fails_says_nothing_of_objects() {
    match object_exists(Err(HeadFault { not_found: false, message: "timeout".into() })) {
        Err(Error::Storage(m)) => assert_eq!(m, "timeout"),
        other => panic!("{other:?}"),
    }
}

#[test]
fn artifact_errors_become_statuses() {
    assert_eq!(map_err(Error::NotFound("x".into())).code, Code::NotFound);
    let s = map_err(Error::Db("locked".into()));
    assert_eq!((s.code, s.message.as_str()), (Code::Internal, "database error: locked"));
    let s = map_err(Error::ChecksumMismatch { expected: "a".into(), actual: "b".into() });
    assert_eq!(
        (s.code, s.message.as_str()),
        (Code::Internal, "checksum mismatch: expected a, got b")
    );
    assert_eq!(Error::NotFound("x".into()).message(), "not found: x");
}

#[test]
fn the_server_hands_out_what_it_works_on() {
    let server = ArtifactServer::new(Arc::new(1u8), Arc::new("store"));
    let copy = server.clone();
    assert_eq!(**copy.registry(), 1);
    assert_eq!(**copy.storage(), "store");
}
