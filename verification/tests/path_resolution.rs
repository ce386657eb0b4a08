//! Path resolver behavior: worker and registry storage paths.

use noctiforge_worker::paths;
use noctiforge_worker::registry;

#[test]
fn test_get_root_dir_path() {
    let root = paths::get_root_dir_path();
    assert_eq!(root, "/var/lib/noctiforge/native_worker");
}

#[test]
fn test_get_pkgs_dir() {
    let pkgs_dir = paths::get_pkgs_dir();
    assert_eq!(pkgs_dir, "/var/lib/noctiforge/native_worker/pkgs");
}

#[test]
fn test_get_dir_path() {
    let dir_path = paths::get_dir_path("digest123");
    assert_eq!(dir_path, "/var/lib/noctiforge/native_worker/pkgs/digest123");
}

#[test]
fn test_get_dir_path_with_hash() {
    let digest = "sha256:abc123def456";
    let dir_path = paths::get_dir_path(digest);
    assert!(dir_path.contains("sha256:abc123def456"));
}

#[test]
fn registry_storage_paths() {
    assert_eq!(registry::get_root_dir_path(), "/var/lib/noctiforge");
    assert_eq!(registry::get_registry_dir_path(), "/var/lib/noctiforge/registry");
    assert_eq!(registry::get_registry_path("abc"), "/var/lib/noctiforge/registry/abc.tar");
}

#[test]
fn join_appends_one_component() {
    assert_eq!(paths::join("/a/b", "c"), "/a/b/c");
    assert_eq!(paths::artifact_dir("/run/user/1000/noctiforge", "d1"), "/run/user/1000/noctiforge/pkgs/d1");
    assert_eq!(paths::bundle_dir("/run/user/1000/noctiforge", "i1"), "/run/user/1000/noctiforge/run/i1");
    assert_eq!(paths::state_dir("/run/user/1000/noctiforge"), "/run/user/1000/noctiforge/state");
}
