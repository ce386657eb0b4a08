//! End-to-end worker behavior on the model: warm reuse, eviction, the
//! reaper, and idempotence of fetch and delete.

use noctiforge_worker::background::{execute, reaper_cycle};
use noctiforge_worker::digest::instance_id_of;
use noctiforge_worker::fsmodel::{FsEntry, FsNode};
use noctiforge_worker::invocations::FunctionInvocations;
use noctiforge_worker::ocispec::SysUserParms;
use noctiforge_worker::worker::{Config, NativeWorker};
use noctiforge_worker::errors::WorkerError;
use noctiforge_worker::server::{ExecuteOutcome, execute_outcome};

fn p(parts: &[&str]) -> Vec<String> {
    parts.iter().map(|s| s.to_string()).collect()
}

fn test_worker() -> NativeWorker {
    NativeWorker::new(
        p(&["run", "user", "1000", "noctiforge"]),
        SysUserParms { uid: 1000, gid: 1000 },
        Config { is_dev: true },
    )
}

const DIGEST: &str = "e3b0c44298fc1c149afbf4c8996fb92427ae41e4649b934ca495991b7852b855";

fn sample_archive() -> Vec<FsEntry> {
    vec![
        FsEntry { path: p(&["bootstrap"]), node: FsNode::File(b"#!handler".to_vec()) },
        FsEntry { path: p(&["lib"]), node: FsNode::Dir },
        FsEntry { path: p(&["lib", "data.bin"]), node: FsNode::File(vec![1, 2, 3]) },
    ]
}

#[test]
fn cold_start_builds_one_container_and_caches_the_url() {
    let mut w = test_worker();
    let archive = sample_archive();
    let url = w
        .get_available_handler_uri(DIGEST, Some(&archive), b"{}".to_vec(), 100)
        .unwrap();
    let id = instance_id_of(DIGEST);
    assert_eq!(
        url,
        format!("unix:///run/user/1000/noctiforge/run/{}/rootfs/run/app.sock", id),
    );
    assert!(w.bundle_exists(&id));
    assert!(w.artifact_exists(DIGEST));
}

#[test]
fn warm_call_reuses_the_handler() {
    // at most one container is created per digest while its invocation
    // stays in the table: the second call changes no disk state
    let mut w = test_worker();
    let archive = sample_archive();
    let first = w
        .get_available_handler_uri(DIGEST, Some(&archive), b"{}".to_vec(), 100)
        .unwrap();
    // the warm call gets no archive at all: nothing is fetched or created
    let second = w.get_available_handler_uri(DIGEST, None, b"{}".to_vec(), 200).unwrap();
    assert_eq!(first, second);
}

#[test]
fn fetch_is_idempotent() {
    let mut w = test_worker();
    let archive = sample_archive();
    let d1 = w.fetch(DIGEST, Some(&archive)).unwrap();
    // the second fetch needs no archive: the cached directory is reused
    let d2 = w.fetch(DIGEST, None).unwrap();
    assert_eq!(d1, d2);
    let d3 = w.fetch(DIGEST, Some(&archive)).unwrap();
    assert_eq!(d1, d3);
}

#[test]
fn fetch_without_archive_on_cold_cache_fails() {
    let mut w = test_worker();
    assert!(w.fetch(DIGEST, None).is_err());
    assert!(!w.artifact_exists(DIGEST));
}

#[test]
fn fetch_rejects_archive_with_nested_app_entry() {
    let mut w = test_worker();
    let archive = vec![FsEntry { path: p(&["app"]), node: FsNode::Dir }];
    assert!(w.fetch(DIGEST, Some(&archive)).is_err());
    assert!(!w.artifact_exists(DIGEST));
}

#[test]
fn delete_evicts_instance_and_removes_bundle() {
    let mut w = test_worker();
    let archive = sample_archive();
    w.get_available_handler_uri(DIGEST, Some(&archive), b"{}".to_vec(), 100).unwrap();
    let id = instance_id_of(DIGEST);
    assert!(w.peek(&id).is_some());
    assert!(w.bundle_exists(&id));

    w.delete(&id).unwrap();
    assert!(w.peek(&id).is_none());
    assert!(!w.bundle_exists(&id));
}

#[test]
fn delete_of_absent_instance_is_a_no_op() {
    // delete . delete = delete: the second call changes nothing and succeeds
    let mut w = test_worker();
    let archive = sample_archive();
    w.get_available_handler_uri(DIGEST, Some(&archive), b"{}".to_vec(), 100).unwrap();
    let id = instance_id_of(DIGEST);
    w.delete(&id).unwrap();
    let r = w.delete(&id);
    assert!(r.is_ok());
    assert!(w.peek(&id).is_none());
    assert!(!w.bundle_exists(&id));
    // a delete of an id never seen also succeeds
    assert!(w.delete("0123456789abcdef").is_ok());
}

#[test]
fn insert_overwrites_earlier_insert() {
    let mut table = FunctionInvocations::new();
    table.insert("id1".to_string(), "unix:///tmp/one.sock".to_string(), 1);
    table.insert("id1".to_string(), "unix:///tmp/two.sock".to_string(), 2);
    let inv = table.get("id1", 3).unwrap();
    assert_eq!(inv.url, "unix:///tmp/two.sock");
    assert_eq!(inv.last_accessed, 3);
}

#[test]
fn reaper_evicts_expired_and_keeps_fresh() {
    let mut w = test_worker();
    let archive = sample_archive();
    w.get_available_handler_uri(DIGEST, Some(&archive), b"{}".to_vec(), 1000).unwrap();
    let id = instance_id_of(DIGEST);

    // not yet expired: age 30 with ttl 30 is within bounds
    reaper_cycle(&mut w, 30, 1030).unwrap();
    assert!(w.peek(&id).is_some());

    // expired: age 31 with ttl 30
    reaper_cycle(&mut w, 30, 1031).unwrap();
    assert!(w.peek(&id).is_none());
    assert!(!w.bundle_exists(&id));
}

#[test]
fn reaper_step_leaves_unknown_ids_alone() {
    let mut w = test_worker();
    assert!(execute(&mut w, "0123456789abcdef", 30, 99).is_ok());
}

#[test]
fn touching_keeps_an_instance_alive() {
    let mut w = test_worker();
    let archive = sample_archive();
    w.get_available_handler_uri(DIGEST, Some(&archive), b"{}".to_vec(), 1000).unwrap();
    let id = instance_id_of(DIGEST);
    // warm access at 1020 refreshes last_accessed
    w.get_available_handler_uri(DIGEST, None, b"{}".to_vec(), 1020).unwrap();
    // at 1040 the age since the touch is 20 <= 30: still alive
    reaper_cycle(&mut w, 30, 1040).unwrap();
    assert!(w.peek(&id).is_some());
}

#[test]
fn test_create_rootfs_fails_if_path_exists() {
    let mut w = test_worker();
    let archive = sample_archive();
    let dir = w.fetch(DIGEST, Some(&archive)).unwrap();
    let id = instance_id_of(DIGEST);
    // first build succeeds, the second collides on the bundle path
    assert!(w.new_container(&id, &dir, b"{}".to_vec()).is_ok());
    assert!(w.new_container(&id, &dir, b"{}".to_vec()).is_err());
}

#[test]
fn test_container_get_url() {
    let mut w = test_worker();
    let archive = sample_archive();
    let url = w
        .get_available_handler_uri(DIGEST, Some(&archive), b"{}".to_vec(), 5)
        .unwrap();
    assert!(url.starts_with("unix://"));
    let id = instance_id_of(DIGEST);
    assert!(url.contains(&id));
    assert!(url.contains("rootfs/run/app.sock"));
}

#[test]
fn test_cleanup_removes_directory() {
    let mut w = test_worker();
    let archive = sample_archive();
    w.get_available_handler_uri(DIGEST, Some(&archive), b"{}".to_vec(), 5).unwrap();
    let id = instance_id_of(DIGEST);
    assert!(w.bundle_exists(&id));
    w.delete(&id).unwrap();
    assert!(!w.bundle_exists(&id));
}

#[test]
fn load_container_starts_stopped_instances() {
    let mut w = test_worker();
    let archive = sample_archive();
    let dir = w.fetch(DIGEST, Some(&archive)).unwrap();
    let id = instance_id_of(DIGEST);
    w.new_container(&id, &dir, b"{}".to_vec()).unwrap();
    assert!(w.load_container(&id).is_ok());
    assert!(w.load_container("ffffffffffffffff").is_err());
    assert!(w.start_container(&id).is_ok());
}

#[test]
fn execute_outcome_wraps_success_and_problems() {
    let ok = execute_outcome(Ok("hello".to_string()), String::new(), String::new(), Vec::new());
    match ok {
        ExecuteOutcome::Success { body } => assert_eq!(body, "hello"),
        ExecuteOutcome::Problem { .. } => panic!("expected success"),
    }

    let err = execute_outcome(
        Err(WorkerError::Startup),
        "handler did not come up".to_string(),
        "abc".to_string(),
        vec![("digest".to_string(), "d".to_string())],
    );
    match err {
        ExecuteOutcome::Success { .. } => panic!("expected a problem"),
        ExecuteOutcome::Problem { problem } => {
            assert_eq!(problem.typ, "worker/startup");
            assert_eq!(problem.detail, "handler did not come up");
            assert_eq!(problem.instance, "abc");
            assert_eq!(problem.extensions.len(), 1);
        },
    }
}
