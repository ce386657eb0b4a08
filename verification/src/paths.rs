//! Deterministic mapping from digests and instance ids to on-disk paths.

use vstd::prelude::*;
use vstd::string::*;

verus! {

/// Fixed root directory under which this worker keeps extracted artifacts.
pub open spec fn worker_root() -> Seq<char> {
    "/var/lib/noctiforge/native_worker"@
}

/// The directory holding one extracted artifact per digest.
pub open spec fn pkgs_dir() -> Seq<char> {
    worker_root() + "/"@ + "pkgs"@
}

/// `{base}/{name}`.
pub open spec fn spec_join(base: Seq<char>, name: Seq<char>) -> Seq<char> {
    base + "/"@ + name
}

/// Appends one path component to a base path.
pub fn join(base: &str, name: &str) -> (r: String)
    ensures
        r@ == spec_join(base@, name@),
{
    let mut s = base.to_owned();
    s.append("/");
    s.append(name);
    s
}

pub fn get_root_dir_path() -> (r: String)
    ensures
        r@ == worker_root(),
{
    String::from_str("/var/lib/noctiforge/native_worker")
}

pub fn get_pkgs_dir() -> (r: String)
    ensures
        r@ == pkgs_dir(),
{
    let root = get_root_dir_path();
    join(root.as_str(), "pkgs")
}

/// The artifact directory for one digest: `{root}/pkgs/{digest}`.
pub fn get_dir_path(digest: &str) -> (r: String)
    ensures
        r@ == spec_join(pkgs_dir(), digest@),
{
    let pkgs = get_pkgs_dir();
    join(pkgs.as_str(), digest)
}

/// `{root}/pkgs/{digest}` for a caller-supplied worker root.
pub fn artifact_dir(root: &str, digest: &str) -> (r: String)
    ensures
        r@ == spec_join(spec_join(root@, "pkgs"@), digest@),
{
    let pkgs = join(root, "pkgs");
    join(pkgs.as_str(), digest)
}

/// `{root}/run/{instance_id}`: the container bundle directory.
pub fn bundle_dir(root: &str, instance_id: &str) -> (r: String)
    ensures
        r@ == spec_join(spec_join(root@, "run"@), instance_id@),
{
    let run = join(root, "run");
    join(run.as_str(), instance_id)
}

/// `{root}/state`: where the container runtime keeps its state.
pub fn state_dir(root: &str) -> (r: String)
    ensures
        r@ == spec_join(root@, "state"@),
{
    join(root, "state")
}

} // verus!
