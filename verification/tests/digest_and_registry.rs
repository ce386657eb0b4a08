//! Digest rules, hex encoding, the store model, chunking, configuration
//! parsing, the runtime spec, the prober bounds and the problem tags.

use noctiforge_worker::config::{Environment, ServerConfig, parse_u64, env_u64};
use noctiforge_worker::digest::{digest_of, instance_id_of, to_hex, validate_digest};
use noctiforge_worker::errors::WorkerError;
use noctiforge_worker::ocispec::{self, NamespaceKind, SysUserParms};
use noctiforge_worker::probe::{max_probe_attempts, simulate_probe};
use noctiforge_worker::registry::{
    LocalBackend, PushOutcome, TarEntry, TarEntryKind, canonical_serialization, chunk_data,
    concat_chunks, get_digest, CHUNK_SIZE,
};

const EMPTY_SHA256: &str = "e3b0c44298fc1c149afbf4c8996fb92427ae41e4649b934ca495991b7852b855";

#[test]
fn digest_of_empty_payload_is_sha256_of_nothing() {
    let d = digest_of(&[]);
    assert_eq!(d, EMPTY_SHA256);
    assert!(validate_digest(&d));
}

#[test]
fn to_hex_is_lowercase_two_digits_per_byte() {
    assert_eq!(to_hex(&[]), "");
    assert_eq!(to_hex(&[0x00, 0xff, 0x1a]), "00ff1a");
}

#[test]
fn validate_digest_accepts_only_64_lowercase_hex() {
    assert!(validate_digest(EMPTY_SHA256));
    assert!(!validate_digest(""));
    assert!(!validate_digest("abc"));
    let upper = EMPTY_SHA256.to_uppercase();
    assert!(!validate_digest(&upper));
    let bad = format!("{}g", &EMPTY_SHA256[..63]);
    assert!(!validate_digest(&bad));
}

#[test]
fn instance_id_is_first_16_digest_chars() {
    let id = instance_id_of(EMPTY_SHA256);
    assert_eq!(id.len(), 16);
    assert_eq!(id, &EMPTY_SHA256[..16]);
}

#[test]
fn canonical_serialization_orders_prefix_path_content() {
    let entries = vec![
        TarEntry { path: "hello.txt".to_string(), kind: TarEntryKind::File(b"world".to_vec()) },
        TarEntry { path: "sub".to_string(), kind: TarEntryKind::Dir },
        TarEntry { path: "ignored".to_string(), kind: TarEntryKind::Other },
    ];
    let bytes = canonical_serialization(&entries);
    assert_eq!(bytes, b"file:hello.txtworlddir:sub".to_vec());
}

#[test]
fn archive_digest_is_valid_and_content_addressed() {
    let a = vec![TarEntry { path: "f".to_string(), kind: TarEntryKind::File(b"1".to_vec()) }];
    let b = vec![TarEntry { path: "f".to_string(), kind: TarEntryKind::File(b"2".to_vec()) }];
    let da = get_digest(&a);
    let db = get_digest(&b);
    assert!(validate_digest(&da));
    assert!(validate_digest(&db));
    assert_ne!(da, db);
    assert_eq!(da, get_digest(&a));
    assert_eq!(get_digest(&vec![]), EMPTY_SHA256);
}

#[test]
fn chunking_splits_and_reassembles() {
    let data: Vec<u8> = vec![1, 2, 3, 4, 5];
    let chunks = chunk_data(&data, 2);
    assert_eq!(chunks.len(), 3);
    assert_eq!(chunks[0], vec![1, 2]);
    assert_eq!(chunks[1], vec![3, 4]);
    assert_eq!(chunks[2], vec![5]);
    assert_eq!(concat_chunks(&chunks), data);
    let empty = chunk_data(&[], 7);
    assert_eq!(empty.len(), 0);
}

#[test]
fn store_rejects_empty_and_invalid_pushes() {
    let mut store = LocalBackend::new();
    let empty: Vec<u8> = Vec::new();
    assert!(matches!(store.push(&empty, None), PushOutcome::RejectedEmpty));
    let junk = vec![1, 2, 3];
    assert!(matches!(store.push(&junk, None), PushOutcome::RejectedInvalidTar));
}

#[test]
fn store_push_then_pull_roundtrips() {
    let mut store = LocalBackend::new();
    let data = vec![7u8; 100];
    let entries = vec![TarEntry { path: "a".to_string(), kind: TarEntryKind::File(vec![7u8; 10]) }];
    let digest = match store.push(&data, Some(&entries)) {
        PushOutcome::Stored { digest } => digest,
        other => panic!("expected Stored, got a different outcome: {:?}", outcome_tag(&other)),
    };
    assert!(validate_digest(&digest));
    match store.push(&data, Some(&entries)) {
        PushOutcome::AlreadyStored { digest: again } => assert_eq!(again, digest),
        other => panic!("expected AlreadyStored, got {:?}", outcome_tag(&other)),
    }
    let chunks = store.pull(&digest).unwrap();
    assert!(chunks.iter().all(|c| c.len() <= CHUNK_SIZE));
    assert_eq!(concat_chunks(&chunks), data);
    assert!(store.pull(EMPTY_SHA256).is_none());
}

fn outcome_tag(o: &PushOutcome) -> &'static str {
    match o {
        PushOutcome::RejectedEmpty => "RejectedEmpty",
        PushOutcome::RejectedInvalidTar => "RejectedInvalidTar",
        PushOutcome::Stored { .. } => "Stored",
        PushOutcome::AlreadyStored { .. } => "AlreadyStored",
    }
}

#[test]
fn prober_tries_at_least_once_and_at_most_300_times() {
    assert_eq!(max_probe_attempts(), 300);
    let never = vec![false; 300];
    let report = simulate_probe(&never);
    assert!(!report.ready);
    assert_eq!(report.attempts, 300);

    let mut first = vec![false; 300];
    first[0] = true;
    let report = simulate_probe(&first);
    assert!(report.ready);
    assert_eq!(report.attempts, 1);

    let mut mid = vec![false; 300];
    mid[149] = true;
    let report = simulate_probe(&mid);
    assert!(report.ready);
    assert_eq!(report.attempts, 150);
}

#[test]
fn problem_tags_are_stable() {
    assert_eq!(WorkerError::Resolve.problem_type(), "worker/resolve");
    assert_eq!(WorkerError::Fetch.problem_type(), "worker/fetch");
    assert_eq!(WorkerError::Container.problem_type(), "worker/container");
    assert_eq!(WorkerError::Startup.problem_type(), "worker/startup");
    assert_eq!(WorkerError::Invoke.problem_type(), "worker/invoke");
}

#[test]
fn parse_u64_matches_std_parse() {
    assert_eq!(parse_u64("42"), Some(42));
    assert_eq!(parse_u64("+10"), Some(10));
    assert_eq!(parse_u64("0"), Some(0));
    assert_eq!(parse_u64("18446744073709551615"), Some(u64::MAX));
    assert_eq!(parse_u64("18446744073709551616"), None);
    assert_eq!(parse_u64(""), None);
    assert_eq!(parse_u64("+"), None);
    assert_eq!(parse_u64("12a"), None);
    assert_eq!(parse_u64("-3"), None);
}

#[test]
fn env_u64_falls_back_to_defaults() {
    assert_eq!(env_u64(&None, 10), 10);
    assert_eq!(env_u64(&Some("5".to_string()), 10), 5);
    assert_eq!(env_u64(&Some("nope".to_string()), 30), 30);
}

#[test]
fn server_config_defaults() {
    let cfg = ServerConfig::from_env_values(None, None, None, true, None, None);
    assert_eq!(cfg.addr, "[::1]:50003");
    assert_eq!(cfg.controlplane_clinet, "http://localhost:50002");
    assert_eq!(cfg.registry_clinet, "http://localhost:50001");
    assert_eq!(cfg.env, Environment::Development);
    assert_eq!(cfg.background_config.time, 10);
    assert_eq!(cfg.background_config.resource_ttl, 30);

    let cfg = ServerConfig::from_env_values(
        Some("0.0.0.0:1".to_string()),
        None,
        None,
        false,
        Some("2".to_string()),
        Some("3".to_string()),
    );
    assert_eq!(cfg.addr, "0.0.0.0:1");
    assert_eq!(cfg.env, Environment::Production);
    assert_eq!(cfg.background_config.time, 2);
    assert_eq!(cfg.background_config.resource_ttl, 3);
}

#[test]
fn rootless_spec_has_expected_shape() {
    let spec = ocispec::get_spec(&SysUserParms { uid: 1000, gid: 1001 });

    assert_eq!(spec.process.args.len(), 1);
    assert_eq!(spec.process.args[0], "/app/bootstrap");
    assert!(!spec.root.readonly);

    let kinds: Vec<NamespaceKind> = spec.linux.namespaces.iter().map(|n| n.kind).collect();
    assert_eq!(
        kinds,
        vec![
            NamespaceKind::Pid,
            NamespaceKind::Ipc,
            NamespaceKind::Uts,
            NamespaceKind::Mount,
            NamespaceKind::Cgroup,
            NamespaceKind::User,
        ],
    );

    assert_eq!(spec.linux.uid_mappings.len(), 1);
    assert_eq!(spec.linux.uid_mappings[0].host_id, 1000);
    assert_eq!(spec.linux.uid_mappings[0].container_id, 0);
    assert_eq!(spec.linux.uid_mappings[0].size, 1);
    assert_eq!(spec.linux.gid_mappings[0].host_id, 1001);

    assert_eq!(spec.mounts.len(), 7);
    let sys = spec.mounts.iter().find(|m| m.destination == "/sys").unwrap();
    assert_eq!(sys.typ.as_deref(), Some("none"));
    assert_eq!(sys.source.as_deref(), Some("/sys"));
    let opts = sys.options.as_ref().unwrap();
    assert_eq!(opts, &vec!["rbind", "nosuid", "noexec", "nodev", "ro"]);

    // identity options are stripped everywhere else
    for m in &spec.mounts {
        if let Some(os) = &m.options {
            assert!(os.iter().all(|o| !o.starts_with("uid=") && !o.starts_with("gid=")));
        }
    }
    let pts = spec.mounts.iter().find(|m| m.destination == "/dev/pts").unwrap();
    let pts_opts = pts.options.as_ref().unwrap();
    assert!(!pts_opts.iter().any(|o| o == "gid=5"));
    assert!(pts_opts.iter().any(|o| o == "ptmxmode=0666"));
}
