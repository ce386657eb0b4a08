//! The native worker: handler cache, container lifecycle and orchestration.
//!
//! The worker owns the invocation table, a record of the containers it has
//! created, and the model of its on-disk state.  `get_available_handler_uri`
//! is the core path: a warm instance is served from the table and nothing
//! is created; a miss fetches the artifact, materializes the bundle, starts
//! the container and caches the handler URL.  `delete` evicts one instance
//! and removes its bundle from disk; a delete of an absent instance changes
//! nothing.

use vstd::prelude::*;
use vstd::string::*;
use crate::assoc::{
    assoc_map, distinct_keys, lemma_assoc_map_contains, lemma_assoc_map_index,
    lemma_assoc_map_push, lemma_assoc_map_remove, lemma_assoc_map_update, lemma_distinct_push,
    lemma_distinct_remove, lemma_distinct_update,
};
use crate::digest::{is_digest, is_instance_id, instance_id_of};
use crate::errors::WorkerError;
use crate::fsmodel::{
    FsModel, FsEntry, path_view, entry_key, strict_under, fs_distinct, dup_path, path_eq,
    copied, installed,
};
use crate::invocations::{FunctionInvocations, Invocation};
use crate::ocispec::SysUserParms;

verus! {

broadcast use vstd::string::group_string_axioms;

/// Build-mode switch handed to the worker at construction.
pub struct Config {
    pub is_dev: bool,
}

/// The lifecycle state of one container.
#[derive(Clone, Copy, Debug, PartialEq, Eq, Structural)]
pub enum ContainerStatus {
    Created,
    Running,
    Stopped,
}

/// `{root}/pkgs/{digest}`: where one artifact is extracted.
pub open spec fn artifact_path(root: Seq<Seq<char>>, digest: Seq<char>) -> Seq<Seq<char>> {
    root + seq!["pkgs"@, digest]
}

/// `{root}/run/{instance_id}`: one container's bundle.
pub open spec fn bundle_path(root: Seq<Seq<char>>, id: Seq<char>) -> Seq<Seq<char>> {
    root + seq!["run"@, id]
}

/// `{bundle}/rootfs/app`: where the handler tree is copied.
pub open spec fn app_path(root: Seq<Seq<char>>, id: Seq<char>) -> Seq<Seq<char>> {
    bundle_path(root, id) + seq!["rootfs"@, "app"@]
}

/// A component path rendered as an absolute `/`-separated string.
pub open spec fn spec_path_string(s: Seq<Seq<char>>) -> Seq<char>
    decreases s.len(),
{
    if s.len() == 0 {
        Seq::empty()
    } else {
        spec_path_string(s.drop_last()) + "/"@ + s.last()
    }
}

/// The handler URL of one bundle: `unix://{bundle}/rootfs/run/app.sock`.
pub open spec fn handler_url_of(root: Seq<Seq<char>>, id: Seq<char>) -> Seq<char> {
    "unix://"@ + spec_path_string(bundle_path(root, id)) + "/rootfs/run/app.sock"@
}

/// Renders a component path as an absolute string.
pub fn path_string(p: &Vec<String>) -> (r: String)
    ensures
        r@ == spec_path_string(path_view(p@)),
{
    let ghost pv = path_view(p@);
    let mut s = String::new();
    let mut i: usize = 0;
    while i < p.len()
        invariant
            i <= p@.len(),
            pv == path_view(p@),
            s@ == spec_path_string(pv.take(i as int)),
        decreases p@.len() - i,
    {
        s.append("/");
        s.append(p[i].as_str());
        proof {
            assert(pv.take(i + 1).drop_last() =~= pv.take(i as int));
            assert(pv.take(i + 1).last() == pv[i as int]);
        }
        i += 1;
    }
    proof {
        assert(pv.take(pv.len() as int) =~= pv);
    }
    s
}

/// A well-formed archive: entries carry nonempty, pairwise-distinct
/// relative paths, none of which begins with an `app` component (such an
/// artifact is rejected at fetch time).
pub open spec fn valid_archive(es: Seq<FsEntry>) -> bool {
    &&& fs_distinct(es)
    &&& forall|j: int|
        0 <= j < es.len() ==> entry_key(#[trigger] es[j]).len() >= 1 && entry_key(es[j])[0]
            != "app"@
}

/// Decides whether an archive is acceptable.
pub fn check_archive(entries: &Vec<FsEntry>) -> (r: bool)
    ensures
        r == valid_archive(entries@),
{
    let n = entries.len();
    let app = String::from_str("app");
    let mut i: usize = 0;
    while i < n
        invariant
            i <= n,
            n == entries@.len(),
            app@ == "app"@,
            forall|a: int, b: int|
                0 <= a < b < i ==> entry_key(entries@[a]) != entry_key(entries@[b]),
            forall|a: int|
                0 <= a < i ==> entry_key(#[trigger] entries@[a]).len() >= 1 && entry_key(
                    entries@[a],
                )[0] != "app"@,
        decreases n - i,
    {
        if entries[i].path.len() == 0 {
            return false;
        }
        if entries[i].path[0] == app {
            proof {
                assert(entry_key(entries@[i as int])[0] == "app"@);
            }
            return false;
        }
        let mut a: usize = 0;
        while a < i
            invariant
                a <= i < n,
                n == entries@.len(),
                forall|b: int| 0 <= b < a ==> entry_key(entries@[b]) != entry_key(
                    entries@[i as int],
                ),
            decreases i - a,
        {
            if path_eq(&entries[a].path, &entries[i].path) {
                return false;
            }
            a += 1;
        }
        proof {
            assert(entry_key(entries@[i as int])[0] != "app"@);
        }
        i += 1;
    }
    true
}

/// The native worker's whole state: the invocation table, the containers
/// it manages, and the model of its filesystem subtrees.
pub struct NativeWorker {
    root: Vec<String>,
    sysuser: SysUserParms,
    fs: FsModel,
    containers: Vec<(String, ContainerStatus)>,
    function_invocations: FunctionInvocations,
}

impl NativeWorker {
    /// The worker root as a component-path view.
    pub closed spec fn root_view(&self) -> Seq<Seq<char>> {
        path_view(self.root@)
    }

    /// The invocation table as a map.
    pub closed spec fn table(&self) -> Map<Seq<char>, Invocation> {
        self.function_invocations@
    }

    /// The container records as a map from instance id to status.
    pub closed spec fn containers_map(&self) -> Map<Seq<char>, ContainerStatus> {
        assoc_map(self.containers@)
    }

    /// The filesystem model as a map.
    pub closed spec fn disk(&self) -> Map<Seq<Seq<char>>, Option<Seq<u8>>> {
        self.fs@
    }

    /// Well-formedness: the parts are well-formed, and every cached
    /// invocation is backed by a container record.
    pub closed spec fn wf(&self) -> bool {
        &&& self.function_invocations.wf()
        &&& self.fs.wf()
        &&& distinct_keys(self.containers@)
        &&& forall|k: Seq<char>| #[trigger]
            self.function_invocations@.contains_key(k) ==> assoc_map(
                self.containers@,
            ).contains_key(k)
    }

    /// A fresh worker over a root path: empty table, no containers, an
    /// empty filesystem model.
    pub fn new(root: Vec<String>, sysuser: SysUserParms, server_config: Config) -> (r:
        NativeWorker)
        ensures
            r.wf(),
            r.root_view() == path_view(root@),
            r.table() == Map::<Seq<char>, Invocation>::empty(),
            r.containers_map() == Map::<Seq<char>, ContainerStatus>::empty(),
            r.disk() == Map::<Seq<Seq<char>>, Option<Seq<u8>>>::empty(),
    {
        let _ = server_config;
        NativeWorker {
            root,
            sysuser,
            fs: FsModel::new(),
            containers: Vec::new(),
            function_invocations: FunctionInvocations::new(),
        }
    }

    /// `root/{kind}/{name}` as an owned component path.
    fn child_path(&self, kind: &str, name: &str) -> (r: Vec<String>)
        ensures
            path_view(r@) == self.root_view() + seq![kind@, name@],
    {
        let mut p = dup_path(&self.root);
        p.push(kind.to_owned());
        p.push(name.to_owned());
        proof {
            assert(path_view(p@) =~= self.root_view() + seq![kind@, name@]);
        }
        p
    }

    /// Fetches an artifact by digest.  A cached artifact directory is
    /// reused and nothing changes; otherwise `archive` (the registry's
    /// parsed response, absent on a registry failure) is validated and
    /// unpacked.  Fetching is idempotent: once the artifact directory
    /// exists, every further fetch returns the same path and leaves every
    /// part of the worker unchanged.
    pub fn fetch(&mut self, digest: &str, archive: Option<&Vec<FsEntry>>) -> (r: Result<
        Vec<String>,
        WorkerError,
    >)
        requires
            old(self).wf(),
            is_digest(digest@),
        ensures
            final(self).wf(),
            final(self).root_view() == old(self).root_view(),
            final(self).table() == old(self).table(),
            final(self).containers_map() == old(self).containers_map(),
            r matches Ok(p) ==> path_view(p@) == artifact_path(old(self).root_view(), digest@)
                && final(self).disk().contains_key(path_view(p@)),
            old(self).disk().contains_key(artifact_path(old(self).root_view(), digest@)) ==> r
                is Ok && final(self).disk() == old(self).disk(),
            !old(self).disk().contains_key(artifact_path(old(self).root_view(), digest@))
                ==> match archive {
                Some(es) => if valid_archive(es@) {
                    r is Ok && installed(
                        old(self).disk(),
                        final(self).disk(),
                        artifact_path(old(self).root_view(), digest@),
                        es@,
                    ) && final(self).disk()[artifact_path(old(self).root_view(), digest@)] is None
                } else {
                    r matches Err(WorkerError::Fetch) && final(self).disk() == old(self).disk()
                },
                None => r matches Err(WorkerError::Fetch) && final(self).disk() == old(self).disk(),
            },
    {
        let dir = self.child_path("pkgs", digest);
        proof {
            assert(path_view(dir@) == artifact_path(self.root_view(), digest@));
        }
        if self.fs.contains_path(&dir) {
            return Ok(dir);
        }
        match archive {
            None => Err(WorkerError::Fetch),
            Some(es) => {
                if !check_archive(es) {
                    return Err(WorkerError::Fetch);
                }
                self.fs.install_tree(&dir, es);
                proof {
                    let basev = path_view(dir@);
                    assert(basev.len() >= 1);
                    assert(self.fs@.contains_key(basev.take(basev.len() as int)));
                    assert(basev.take(basev.len() as int) =~= basev);
                    assert(!strict_under(basev, basev));
                    assert(self.fs@[basev] is None);
                }
                Ok(dir)
            },
        }
    }

    /// The index of a container record, if any.
    fn find_container(&self, instance_id: &str) -> (r: Option<usize>)
        ensures
            match r {
                Some(i) => i < self.containers@.len() && self.containers@[i as int].0@
                    == instance_id@,
                None => forall|i: int|
                    0 <= i < self.containers@.len() ==> self.containers@[i].0@ != instance_id@,
            },
    {
        let key: String = instance_id.to_owned();
        let n = self.containers.len();
        let mut i: usize = 0;
        while i < n
            invariant
                i <= n,
                n == self.containers@.len(),
                key@ == instance_id@,
                forall|j: int| 0 <= j < i ==> self.containers@[j].0@ != instance_id@,
            decreases n - i,
        {
            if self.containers[i].0 == key {
                return Some(i);
            }
            i += 1;
        }
        None
    }

    /// Records a container under an id with a status, overwriting any
    /// previous record.
    fn record_container(&mut self, instance_id: &str, status: ContainerStatus)
        requires
            old(self).wf(),
        ensures
            final(self).wf(),
            final(self).containers_map() == old(self).containers_map().insert(
                instance_id@,
                status,
            ),
            final(self).table() == old(self).table(),
            final(self).disk() == old(self).disk(),
            final(self).root_view() == old(self).root_view(),
    {
        let idx = self.find_container(instance_id);
        let ghost s0 = self.containers@;
        match idx {
            Some(i) => {
                let _ = self.containers.remove(i);
                self.containers.insert(i, (instance_id.to_owned(), status));
                proof {
                    assert(self.containers@ =~= s0.update(i as int, self.containers@[i as int]));
                    lemma_distinct_update(s0, i as int, self.containers@[i as int]);
                    lemma_assoc_map_update(s0, i as int, self.containers@[i as int]);
                }
            },
            None => {
                self.containers.push((instance_id.to_owned(), status));
                proof {
                    lemma_distinct_push(s0, self.containers@.last());
                    lemma_assoc_map_push(s0, self.containers@.last());
                }
            },
        }
    }

    /// Removes a container record.
    fn erase_container(&mut self, instance_id: &str)
        requires
            old(self).wf(),
            forall|k: Seq<char>| #[trigger]
                old(self).table().contains_key(k) ==> k != instance_id@,
        ensures
            final(self).wf(),
            final(self).containers_map() == old(self).containers_map().remove(instance_id@),
            final(self).table() == old(self).table(),
            final(self).disk() == old(self).disk(),
            final(self).root_view() == old(self).root_view(),
    {
        let idx = self.find_container(instance_id);
        let ghost s0 = self.containers@;
        match idx {
            Some(i) => {
                proof {
                    lemma_distinct_remove(s0, i as int);
                    lemma_assoc_map_remove(s0, i as int);
                }
                let _ = self.containers.remove(i);
                proof {
                    assert forall|k: Seq<char>| #[trigger]
                        self.function_invocations@.contains_key(k) implies assoc_map(
                        self.containers@,
                    ).contains_key(k) by {
                        assert(old(self).table().contains_key(k));
                        assert(k != instance_id@);
                        assert(assoc_map(s0).contains_key(k));
                    }
                }
            },
            None => {
                proof {
                    lemma_assoc_map_contains(s0, instance_id@);
                    assert(old(self).containers_map().remove(instance_id@)
                        =~= old(self).containers_map());
                }
            },
        }
    }

    /// Transitions a recorded container to running, as the runtime's start
    /// operation does.  Starting an unknown container fails.
    pub fn start_container(&mut self, instance_id: &str) -> (r: Result<(), WorkerError>)
        requires
            old(self).wf(),
        ensures
            final(self).wf(),
            r is Ok <==> old(self).containers_map().contains_key(instance_id@),
            r is Ok ==> final(self).containers_map() == old(self).containers_map().insert(
                instance_id@,
                ContainerStatus::Running,
            ),
            r is Err ==> final(self).containers_map() == old(self).containers_map(),
            final(self).table() == old(self).table(),
            final(self).disk() == old(self).disk(),
            final(self).root_view() == old(self).root_view(),
    {
        let idx = self.find_container(instance_id);
        proof {
            lemma_assoc_map_contains(self.containers@, instance_id@);
        }
        match idx {
            Some(i) => {
                self.record_container(instance_id, ContainerStatus::Running);
                Ok(())
            },
            None => Err(WorkerError::Container),
        }
    }

    /// Rehydrates a container by id: loading fails when no record exists;
    /// a loaded container that is not running is started.
    pub fn load_container(&mut self, instance_id: &str) -> (r: Result<(), WorkerError>)
        requires
            old(self).wf(),
        ensures
            final(self).wf(),
            r is Ok <==> old(self).containers_map().contains_key(instance_id@),
            r is Ok ==> final(self).containers_map() == old(self).containers_map().insert(
                instance_id@,
                ContainerStatus::Running,
            ),
            r is Err ==> final(self).containers_map() == old(self).containers_map(),
            final(self).table() == old(self).table(),
            final(self).disk() == old(self).disk(),
            final(self).root_view() == old(self).root_view(),
    {
        let idx = self.find_container(instance_id);
        proof {
            lemma_assoc_map_contains(self.containers@, instance_id@);
        }
        match idx {
            Some(i) => {
                proof {
                    lemma_assoc_map_index(self.containers@, i as int);
                }
                let already_running = match self.containers[i].1 {
                    ContainerStatus::Running => true,
                    _ => false,
                };
                if !already_running {
                    let r = self.start_container(instance_id);
                    proof {
                        assert(r is Ok);
                    }
                } else {
                    proof {
                        assert(old(self).containers_map().insert(
                            instance_id@,
                            ContainerStatus::Running,
                        ) =~= old(self).containers_map());
                    }
                }
                Ok(())
            },
            None => Err(WorkerError::Container),
        }
    }

    /// Builds and starts a new container: the bundle directory is created
    /// (failing if it already exists), the runtime spec is written to
    /// `config.json`, the artifact tree is copied into `rootfs/app`, the
    /// writable `rootfs/run` is created, and the container is recorded
    /// running.  An empty artifact still yields the (empty) `rootfs/app`.
    #[verifier::rlimit(100)]
    pub fn new_container(
        &mut self,
        instance_id: &str,
        artifact_dir: &Vec<String>,
        config_json: Vec<u8>,
    ) -> (r: Result<(), WorkerError>)
        requires
            old(self).wf(),
            is_instance_id(instance_id@),
            !strict_under(
                path_view(artifact_dir@),
                bundle_path(old(self).root_view(), instance_id@),
            ),
            !strict_under(
                bundle_path(old(self).root_view(), instance_id@),
                path_view(artifact_dir@),
            ),
            path_view(artifact_dir@) != bundle_path(old(self).root_view(), instance_id@),
        ensures
            final(self).wf(),
            final(self).root_view() == old(self).root_view(),
            final(self).table() == old(self).table(),
            r is Ok <==> !old(self).disk().contains_key(
                bundle_path(old(self).root_view(), instance_id@),
            ) && old(self).disk().contains_key(path_view(artifact_dir@)) && old(self).disk()[
                path_view(artifact_dir@)
            ] is None,
            r is Err ==> final(self).containers_map() == old(self).containers_map() && final(self).disk() == old(self).disk(),
            r is Ok ==> new_container_effect(
                old(self).disk(),
                final(self).disk(),
                old(self).root_view(),
                instance_id@,
                path_view(artifact_dir@),
                config_json@,
            ) && final(self).containers_map() == old(self).containers_map().insert(
                instance_id@,
                ContainerStatus::Running,
            ),
    {
        let ghost rootv = self.root_view();
        let ghost idv = instance_id@;
        let ghost av = path_view(artifact_dir@);
        let ghost g0 = self.disk();
        let bundle = self.child_path("run", instance_id);
        let ghost bv = path_view(bundle@);
        proof {
            assert(bv == bundle_path(rootv, idv));
        }
        if self.fs.contains_path(&bundle) {
            return Err(WorkerError::Container);
        }
        if !self.fs.is_dir(artifact_dir) {
            return Err(WorkerError::Container);
        }
        self.fs.create_dir_all(&bundle);
        let ghost g1 = self.disk();
        let mut config_path = dup_path(&bundle);
        config_path.push(String::from_str("config.json"));
        let ghost cv = path_view(config_path@);
        proof {
            assert(cv =~= bv + seq!["config.json"@]);
            assert(strict_under(bv, cv)) by {
                assert(cv.take(bv.len() as int) =~= bv);
            }
        }
        self.fs.write(&config_path, config_json);
        let ghost g2 = self.disk();
        let mut rootfs = dup_path(&bundle);
        rootfs.push(String::from_str("rootfs"));
        let ghost rv = path_view(rootfs@);
        proof {
            assert(rv =~= bv + seq!["rootfs"@]);
        }
        self.fs.create_dir_all(&rootfs);
        let ghost g3 = self.disk();
        let mut app_dir = dup_path(&rootfs);
        app_dir.push(String::from_str("app"));
        let ghost appv = path_view(app_dir@);
        proof {
            assert(appv =~= bv + seq!["rootfs"@, "app"@]);
            assert(appv == app_path(rootv, idv));
            lemma_under_bundle(bv, av, cv, rv, appv);
            // the artifact directory is untouched so far
            assert(g1.contains_key(av) && g1[av] == g0[av]) by {
                if !g0.contains_key(av) {
                    assert(false) by {
                        if g1.contains_key(av) {
                        }
                    }
                }
            }
            assert(g2[av] == g1[av]);
            assert(g3.contains_key(av) && g3[av] == g2[av]);
            assert(g3[av] is None);
        }
        let copy_result = self.fs.copy_dir_all(artifact_dir, &app_dir);
        let ghost g4 = self.disk();
        match copy_result {
            Err(e) => {
                proof {
                    assert(false);
                }
                vstd::pervasive::unreached()
            },
            Ok(u) => {
                let mut run_dir = dup_path(&rootfs);
                run_dir.push(String::from_str("run"));
                let ghost runv = path_view(run_dir@);
                proof {
                    assert(runv =~= bv + seq!["rootfs"@, "run"@]);
                }
                self.fs.create_dir_all(&run_dir);
                let ghost g5 = self.disk();
                self.record_container(instance_id, ContainerStatus::Running);
                proof {
                    lemma_new_container_effect(
                        g0, g1, g2, g3, g4, g5, rootv, idv, av, config_json@, bv, cv, rv, appv,
                        runv,
                    );
                }
                Ok(())
            },
        }
    }
}

impl NativeWorker {
    /// Looks an invocation up without touching it.  Used by the reaper.
    pub fn peek(&self, instance_id: &str) -> (r: Option<Invocation>)
        requires
            self.wf(),
        ensures
            r is Some <==> self.table().contains_key(instance_id@),
            match r {
                Some(inv) => inv == self.table()[instance_id@],
                None => true,
            },
    {
        self.function_invocations.peek(instance_id)
    }

    /// A snapshot of the cached instance ids.
    pub fn keys(&self) -> (r: Vec<String>)
        requires
            self.wf(),
        ensures
            forall|k: Seq<char>|
                self.table().contains_key(k) <==> exists|i: int|
                    0 <= i < r@.len() && r@[i]@ == k,
    {
        self.function_invocations.keys()
    }

    /// Returns a live handler URL for a digest.  A cached instance is
    /// touched and reused: while the invocation stays in the table, no
    /// container is created and no disk state changes.  On a miss the
    /// artifact is fetched, a container is materialized and started, and
    /// the new handler is cached under the instance id.
    #[verifier::rlimit(100)]
    pub fn get_available_handler_uri(
        &mut self,
        digest: &str,
        archive: Option<&Vec<FsEntry>>,
        config_json: Vec<u8>,
        now: u64,
    ) -> (r: Result<String, WorkerError>)
        requires
            old(self).wf(),
            is_digest(digest@),
        ensures
            final(self).wf(),
            final(self).root_view() == old(self).root_view(),
            old(self).table().contains_key(digest@.subrange(0, 16)) ==> {
                let id = digest@.subrange(0, 16);
                &&& r is Ok
                &&& final(self).containers_map() == old(self).containers_map()
                &&& final(self).disk() == old(self).disk()
                &&& (r matches Ok(url) ==> url@ == old(self).table()[id].url@)
                &&& final(self).table().contains_key(id)
                &&& final(self).table()[id].url == old(self).table()[id].url
                &&& final(self).table()[id].last_accessed == now
                &&& forall|k: Seq<char>|
                    k != id ==> (final(self).table().contains_key(k) <==> old(self).table().contains_key(k))
                &&& forall|k: Seq<char>|
                    k != id && old(self).table().contains_key(k) ==> final(self).table()[k] == old(self).table()[k]
            },
            !old(self).table().contains_key(digest@.subrange(0, 16)) ==> {
                let id = digest@.subrange(0, 16);
                &&& (r is Ok <==> miss_can_create(
                    old(self).disk(),
                    old(self).root_view(),
                    digest@,
                    id,
                    (archive matches Some(es) && valid_archive(es@)),
                ))
                &&& (r is Err ==> final(self).table() == old(self).table() && final(self).containers_map() == old(self).containers_map())
                &&& (r is Ok ==> {
                    &&& (r matches Ok(url) ==> url@ == handler_url_of(
                        old(self).root_view(),
                        id,
                    ))
                    &&& final(self).containers_map() == old(self).containers_map().insert(
                        id,
                        ContainerStatus::Running,
                    )
                    &&& final(self).table().contains_key(id)
                    &&& final(self).table()[id].url@ == handler_url_of(old(self).root_view(), id)
                    &&& final(self).table()[id].last_accessed == now
                    &&& forall|k: Seq<char>|
                        k != id ==> (final(self).table().contains_key(k) <==> old(self).table().contains_key(k))
                    &&& forall|k: Seq<char>|
                        k != id && old(self).table().contains_key(k) ==> final(self).table()[k]
                            == old(self).table()[k]
                    &&& final(self).disk().contains_key(
                        bundle_path(old(self).root_view(), id),
                    )
                })
            },
    {
        let id = instance_id_of(digest);
        let cached = self.function_invocations.get(id.as_str(), now);
        match cached {
            Some(inv) => Ok(inv.url),
            None => {
                let ghost rootv = self.root_view();
                let ghost idv = id@;
                let ghost d0 = self.disk();
                let dir = match self.fetch(digest, archive) {
                    Ok(d) => d,
                    Err(e) => {
                        return Err(e);
                    },
                };
                proof {
                    lemma_regions(rootv, digest@, idv);
                    // fetching never creates the bundle
                    let bv = bundle_path(rootv, idv);
                    let av = artifact_path(rootv, digest@);
                    if !d0.contains_key(av) {
                        if (archive matches Some(es) && valid_archive(es@)) {
                            assert(self.disk().contains_key(bv) == d0.contains_key(bv)) by {
                                if self.disk().contains_key(bv) && !d0.contains_key(bv) {
                                    assert(!strict_under(av, bv));
                                    assert(forall|l: int|
                                        1 <= l < av.len() ==> (#[trigger] av.take(l)).len()
                                            < bv.len());
                                    assert(av.take(av.len() as int) =~= av);
                                }
                            }
                        }
                    }
                }
                match self.new_container(id.as_str(), &dir, config_json) {
                    Err(e) => Err(e),
                    Ok(u) => {
                        let bundle = self.child_path("run", id.as_str());
                        let ps = path_string(&bundle);
                        let mut url = String::from_str("unix://");
                        url.append(ps.as_str());
                        url.append("/rootfs/run/app.sock");
                        let stored_url = url.clone();
                        let ghost t0 = self.function_invocations@;
                        let _ = self.function_invocations.insert(id, stored_url, now);
                        proof {
                            assert(url@ == handler_url_of(rootv, idv));
                            assert forall|k: Seq<char>| #[trigger]
                                self.function_invocations@.contains_key(k) implies assoc_map(
                                self.containers@,
                            ).contains_key(k) by {
                                if k != idv {
                                    assert(t0.contains_key(k));
                                }
                            }
                        }
                        Ok(url)
                    },
                }
            },
        }
    }

    /// Whether an instance's bundle directory currently exists on disk.
    pub fn bundle_exists(&self, instance_id: &str) -> (r: bool)
        ensures
            r == self.disk().contains_key(bundle_path(self.root_view(), instance_id@)),
    {
        let bundle = self.child_path("run", instance_id);
        self.fs.contains_path(&bundle)
    }

    /// Whether a digest's artifact directory currently exists on disk.
    pub fn artifact_exists(&self, digest: &str) -> (r: bool)
        ensures
            r == self.disk().contains_key(artifact_path(self.root_view(), digest@)),
    {
        let dir = self.child_path("pkgs", digest);
        self.fs.contains_path(&dir)
    }

    /// Evicts one instance: the invocation leaves the table, its container
    /// record is dropped, and its bundle directory is removed from disk,
    /// so a later lookup misses and the bundle is gone.  Deleting an
    /// absent instance succeeds and changes nothing.
    pub fn delete(&mut self, instance_id: &str) -> (r: Result<(), WorkerError>)
        requires
            old(self).wf(),
        ensures
            final(self).wf(),
            final(self).root_view() == old(self).root_view(),
            r is Ok,
            !final(self).table().contains_key(instance_id@),
            !old(self).table().contains_key(instance_id@) ==> final(self).table() == old(self).table() && final(self).containers_map() == old(self).containers_map() && final(self).disk() == old(self).disk(),
            old(self).table().contains_key(instance_id@) ==> {
                let bv = bundle_path(old(self).root_view(), instance_id@);
                &&& final(self).table() == old(self).table().remove(instance_id@)
                &&& final(self).containers_map() == old(self).containers_map().remove(
                    instance_id@,
                )
                &&& !final(self).disk().contains_key(bv)
                &&& forall|k: Seq<Seq<char>>| #[trigger]
                    final(self).disk().contains_key(k) ==> old(self).disk().contains_key(k) && !(
                    k == bv || strict_under(bv, k))
                &&& forall|k: Seq<Seq<char>>| #[trigger]
                    old(self).disk().contains_key(k) && !(k == bv || strict_under(bv, k))
                        ==> final(self).disk().contains_key(k)
                &&& forall|k: Seq<Seq<char>>| #[trigger]
                    final(self).disk().contains_key(k) ==> final(self).disk()[k] == old(self).disk()[k]
            },
    {
        let removed = self.function_invocations.delete(instance_id);
        match removed {
            None => Ok(()),
            Some(inv) => {
                proof {
                    assert(old(self).table().contains_key(instance_id@));
                    assert forall|k: Seq<char>| #[trigger]
                        self.function_invocations@.contains_key(k) implies k != instance_id@ by {}
                }
                self.erase_container(instance_id);
                let bundle = self.child_path("run", instance_id);
                let ghost pre = self.disk();
                self.fs.remove_subtree(&bundle);
                proof {
                    assert(pre == old(self).disk());
                    assert(path_view(bundle@) == bundle_path(old(self).root_view(), instance_id@));
                    assert forall|k: Seq<char>| #[trigger]
                        self.function_invocations@.contains_key(k) implies assoc_map(
                        self.containers@,
                    ).contains_key(k) by {
                        assert(old(self).table().contains_key(k) && k != instance_id@);
                    }
                    let bv = bundle_path(old(self).root_view(), instance_id@);
                    assert forall|k: Seq<Seq<char>>|
                        self.disk().contains_key(k) <==> (old(self).disk().contains_key(k) && !(k
                            == bv || strict_under(bv, k))) by {
                        assert(self.fs@.contains_key(k) <==> pre.contains_key(k) && !(k
                            == path_view(bundle@) || strict_under(path_view(bundle@), k)));
                    }
                }
                Ok(())
            },
        }
    }

    /// Evicts every cached instance: afterwards the table is empty and no
    /// evicted instance's bundle remains on disk.
    pub fn delete_all(&mut self) -> (r: Result<(), WorkerError>)
        requires
            old(self).wf(),
        ensures
            final(self).wf(),
            final(self).root_view() == old(self).root_view(),
            r is Ok,
            forall|k: Seq<char>| !final(self).table().contains_key(k),
            forall|k: Seq<char>| #[trigger]
                old(self).table().contains_key(k) ==> !final(self).disk().contains_key(
                    bundle_path(old(self).root_view(), k),
                ),
    {
        let keys = self.keys();
        let n = keys.len();
        let ghost rootv = old(self).root_view();
        let mut i: usize = 0;
        while i < n
            invariant
                i <= n,
                n == keys@.len(),
                self.wf(),
                self.root_view() == rootv,
                rootv == old(self).root_view(),
                forall|k: Seq<char>|
                    old(self).table().contains_key(k) <==> exists|j: int|
                        0 <= j < keys@.len() && keys@[j]@ == k,
                forall|k: Seq<char>| #[trigger]
                    self.table().contains_key(k) ==> old(self).table().contains_key(k),
                forall|k: Seq<char>| #[trigger]
                    old(self).table().contains_key(k) && !self.table().contains_key(k)
                        ==> !self.disk().contains_key(bundle_path(rootv, k)),
                forall|j: int| 0 <= j < i ==> !self.table().contains_key(#[trigger] keys@[j]@),
            decreases n - i,
        {
            let ghost pret = self.table();
            let ghost pred = self.disk();
            let ghost idv = keys@[i as int]@;
            let r = self.delete(keys[i].as_str());
            proof {
                assert(r is Ok);
                if pret.contains_key(idv) {
                    assert forall|k: Seq<char>| #[trigger]
                        old(self).table().contains_key(k) && !self.table().contains_key(k)
                            implies !self.disk().contains_key(bundle_path(rootv, k)) by {
                        let bk = bundle_path(rootv, k);
                        if k == idv {
                        } else {
                            assert(!pret.contains_key(k) ==> !pred.contains_key(bk));
                            assert(bk != bundle_path(rootv, idv)) by {
                                assert(bk[rootv.len() as int + 1] == k
                                    && bundle_path(rootv, idv)[rootv.len() as int + 1] == idv);
                            }
                            assert(!strict_under(bundle_path(rootv, idv), bk)) by {
                                assert(bk.len() == bundle_path(rootv, idv).len());
                            }
                        }
                    }
                } else {
                    assert(self.disk() == pred && self.table() == pret);
                }
            }
            i += 1;
        }
        proof {
            assert forall|k: Seq<char>| true implies !self.table().contains_key(k) by {
                if self.table().contains_key(k) {
                    assert(old(self).table().contains_key(k));
                    let j = choose|j: int| 0 <= j < keys@.len() && keys@[j]@ == k;
                    assert(!self.table().contains_key(keys@[j]@));
                }
            }
            assert forall|k: Seq<char>| #[trigger]
                old(self).table().contains_key(k) implies !self.disk().contains_key(
                bundle_path(old(self).root_view(), k),
            ) by {}
        }
        Ok(())
    }
}

/// The artifact and bundle regions of one worker root are disjoint: the
/// two directories differ and neither contains the other.
proof fn lemma_regions(rootv: Seq<Seq<char>>, digest: Seq<char>, id: Seq<char>)
    ensures
        !strict_under(artifact_path(rootv, digest), bundle_path(rootv, id)),
        !strict_under(bundle_path(rootv, id), artifact_path(rootv, digest)),
        artifact_path(rootv, digest) != bundle_path(rootv, id),
{
    reveal_strlit("pkgs");
    reveal_strlit("run");
    let a = artifact_path(rootv, digest);
    let b = bundle_path(rootv, id);
    assert("pkgs"@.len() == 4 && "run"@.len() == 3);
    assert(a.len() == b.len());
    assert(a[rootv.len() as int] == "pkgs"@ && b[rootv.len() as int] == "run"@);
    assert(a != b);
}

/// Whether a table miss can be served: the bundle slot is free, and the
/// artifact is either already cached as a directory or obtainable from a
/// valid archive.
pub open spec fn miss_can_create(
    disk: Map<Seq<Seq<char>>, Option<Seq<u8>>>,
    rootv: Seq<Seq<char>>,
    digest: Seq<char>,
    id: Seq<char>,
    have_valid_archive: bool,
) -> bool {
    &&& !disk.contains_key(bundle_path(rootv, id))
    &&& if disk.contains_key(artifact_path(rootv, digest)) {
        disk[artifact_path(rootv, digest)] is None
    } else {
        have_valid_archive
    }
}

/// Relative positions of the paths inside one bundle, given an artifact
/// directory disjoint from the bundle: none of the bundle-internal paths
/// is the artifact directory or inside it, and what lies inside the
/// artifact directory lies inside none of them.
proof fn lemma_under_bundle(
    bv: Seq<Seq<char>>,
    av: Seq<Seq<char>>,
    cv: Seq<Seq<char>>,
    rv: Seq<Seq<char>>,
    appv: Seq<Seq<char>>,
)
    requires
        !strict_under(av, bv),
        !strict_under(bv, av),
        av != bv,
        cv == bv + seq!["config.json"@],
        rv == bv + seq!["rootfs"@],
        appv == bv + seq!["rootfs"@, "app"@],
    ensures
        strict_under(bv, cv),
        strict_under(bv, rv),
        strict_under(bv, appv),
        av != cv && av != rv && av != appv,
        !strict_under(av, appv),
        !strict_under(appv, av),
        forall|k: Seq<Seq<char>>| #[trigger] strict_under(av, k) ==> !strict_under(bv, k),
{
    assert(cv.take(bv.len() as int) =~= bv);
    assert(rv.take(bv.len() as int) =~= bv);
    assert(appv.take(bv.len() as int) =~= bv);
    assert(strict_under(bv, cv) && strict_under(bv, rv) && strict_under(bv, appv));
    // nothing strictly inside `av` is strictly inside `bv`
    assert forall|k: Seq<Seq<char>>| #[trigger] strict_under(av, k) implies !strict_under(
        bv,
        k,
    ) by {
        if strict_under(bv, k) {
            if av.len() < bv.len() {
                assert(bv.take(av.len() as int) =~= k.take(bv.len() as int).take(
                    av.len() as int,
                ));
                assert(k.take(bv.len() as int).take(av.len() as int) =~= k.take(av.len() as int));
                assert(strict_under(av, bv));
            } else if bv.len() < av.len() {
                assert(av.take(bv.len() as int) =~= k.take(av.len() as int).take(
                    bv.len() as int,
                ));
                assert(k.take(av.len() as int).take(bv.len() as int) =~= k.take(bv.len() as int));
                assert(strict_under(bv, av));
            } else {
                assert(av =~= bv);
            }
        }
    }
    // `av` equals none of the bundle-internal paths
    assert(av != cv && av != rv && av != appv);
    // `appv` is not inside `av`
    if strict_under(av, appv) {
        assert(strict_under(bv, appv));
        assert(false);
    }
    // `av` is not inside `appv`: it would be inside `bv` too
    if strict_under(appv, av) {
        assert(av.take(appv.len() as int) == appv);
        assert(av.take(bv.len() as int) =~= av.take(appv.len() as int).take(bv.len() as int));
        assert(appv.take(bv.len() as int) =~= bv);
        assert(strict_under(bv, av));
        assert(false);
    }
}

/// What a successful container build leaves on disk.
pub open spec fn new_container_effect(
    g0: Map<Seq<Seq<char>>, Option<Seq<u8>>>,
    g5: Map<Seq<Seq<char>>, Option<Seq<u8>>>,
    rootv: Seq<Seq<char>>,
    id: Seq<char>,
    av: Seq<Seq<char>>,
    config: Seq<u8>,
) -> bool {
    let bv = bundle_path(rootv, id);
    let appv = app_path(rootv, id);
    &&& g5.contains_key(bv) && g5[bv] is None
    &&& g5.contains_key(bv + seq!["config.json"@]) && g5[bv + seq!["config.json"@]] == Some(
        config,
    )
    &&& g5.contains_key(bv + seq!["rootfs"@])
    &&& g5.contains_key(appv)
    &&& g5.contains_key(bv + seq!["rootfs"@, "run"@])
    &&& forall|k: Seq<Seq<char>>| #[trigger]
        g0.contains_key(k) && strict_under(av, k) ==> g5.contains_key(
            appv + k.skip(av.len() as int),
        ) && g5[appv + k.skip(av.len() as int)] == g0[k]
    &&& forall|k: Seq<Seq<char>>| #[trigger]
        g5.contains_key(k) && strict_under(appv, k) ==> g0.contains_key(
            av + k.skip(appv.len() as int),
        ) || g0.contains_key(k)
    &&& forall|k: Seq<Seq<char>>| #[trigger]
        g0.contains_key(k) && !(k == bv || strict_under(bv, k)) ==> g5.contains_key(k) && g5[k]
            == g0[k]
}

/// Chains the five filesystem steps of `new_container` into its effect.
#[verifier::rlimit(100)]
proof fn lemma_new_container_effect(
    g0: Map<Seq<Seq<char>>, Option<Seq<u8>>>,
    g1: Map<Seq<Seq<char>>, Option<Seq<u8>>>,
    g2: Map<Seq<Seq<char>>, Option<Seq<u8>>>,
    g3: Map<Seq<Seq<char>>, Option<Seq<u8>>>,
    g4: Map<Seq<Seq<char>>, Option<Seq<u8>>>,
    g5: Map<Seq<Seq<char>>, Option<Seq<u8>>>,
    rootv: Seq<Seq<char>>,
    id: Seq<char>,
    av: Seq<Seq<char>>,
    config: Seq<u8>,
    bv: Seq<Seq<char>>,
    cv: Seq<Seq<char>>,
    rv: Seq<Seq<char>>,
    appv: Seq<Seq<char>>,
    runv: Seq<Seq<char>>,
)
    requires
        bv == bundle_path(rootv, id),
        cv == bv + seq!["config.json"@],
        rv == bv + seq!["rootfs"@],
        appv == app_path(rootv, id),
        appv == bv + seq!["rootfs"@, "app"@],
        runv == bv + seq!["rootfs"@, "run"@],
        !strict_under(av, bv),
        !strict_under(bv, av),
        av != bv,
        !g0.contains_key(bv),
        g0.contains_key(av) && g0[av] is None,
        // create_dir_all(bundle)
        forall|k: Seq<Seq<char>>|
            g1.contains_key(k) <==> g0.contains_key(k) || (exists|l: int|
                1 <= l <= bv.len() && k == bv.take(l)),
        forall|k: Seq<Seq<char>>| #[trigger] g0.contains_key(k) ==> g1[k] == g0[k],
        forall|k: Seq<Seq<char>>|
            g1.contains_key(k) && !g0.contains_key(k) ==> g1[k] is None,
        // write(config.json)
        g2 == g1.insert(cv, Some(config)),
        // create_dir_all(rootfs)
        forall|k: Seq<Seq<char>>|
            g3.contains_key(k) <==> g2.contains_key(k) || (exists|l: int|
                1 <= l <= rv.len() && k == rv.take(l)),
        forall|k: Seq<Seq<char>>| #[trigger] g2.contains_key(k) ==> g3[k] == g2[k],
        forall|k: Seq<Seq<char>>|
            g3.contains_key(k) && !g2.contains_key(k) ==> g3[k] is None,
        // copy(artifact, app)
        copied(g3, g4, av, appv),
        // create_dir_all(rootfs/run)
        forall|k: Seq<Seq<char>>|
            g5.contains_key(k) <==> g4.contains_key(k) || (exists|l: int|
                1 <= l <= runv.len() && k == runv.take(l)),
        forall|k: Seq<Seq<char>>| #[trigger] g4.contains_key(k) ==> g5[k] == g4[k],
        forall|k: Seq<Seq<char>>|
            g5.contains_key(k) && !g4.contains_key(k) ==> g5[k] is None,
    ensures
        new_container_effect(g0, g5, rootv, id, av, config),
{
    lemma_under_bundle(bv, av, cv, rv, appv);
    let bl = bv.len() as int;
    // the bundle directory: fresh in g1, then preserved
    assert(bv.take(bl) =~= bv);
    assert(g1.contains_key(bv) && g1[bv] is None);
    assert(cv != bv);
    assert(g2[bv] is None && g2.contains_key(bv));
    assert(g3[bv] is None && g3.contains_key(bv));
    assert(!strict_under(appv, bv));
    assert(g4.contains_key(bv) && g4[bv] == g3[bv]);
    assert(g5.contains_key(bv) && g5[bv] is None);
    // config.json
    assert(g2.contains_key(cv) && g2[cv] == Some(config));
    assert(g3.contains_key(cv) && g3[cv] == Some(config));
    assert(!strict_under(appv, cv)) by {
        assert(cv.len() == bv.len() + 1 && appv.len() == bv.len() + 2);
    }
    assert(g4.contains_key(cv) && g4[cv] == g3[cv]);
    assert(g5.contains_key(cv) && g5[cv] == Some(config));
    // rootfs
    assert(rv.take(rv.len() as int) =~= rv);
    assert(g3.contains_key(rv));
    assert(g4.contains_key(rv));
    assert(g5.contains_key(rv));
    // app
    assert(appv.take(appv.len() as int) =~= appv);
    assert(g4.contains_key(appv));
    assert(g5.contains_key(appv));
    // rootfs/run
    assert(runv.take(runv.len() as int) =~= runv);
    assert(g5.contains_key(runv));
    // mirrored artifact entries
    assert forall|k: Seq<Seq<char>>| #[trigger]
        g0.contains_key(k) && strict_under(av, k) implies g5.contains_key(
        appv + k.skip(av.len() as int),
    ) && g5[appv + k.skip(av.len() as int)] == g0[k] by {
        assert(!strict_under(bv, k));
        assert(k != cv && k != bv);
        assert(g1.contains_key(k) && g1[k] == g0[k]);
        assert(g2.contains_key(k) && g2[k] == g0[k]);
        assert(g3.contains_key(k) && g3[k] == g0[k]);
        let t = appv + k.skip(av.len() as int);
        assert(g4.contains_key(t) && g4[t] == g3[k]);
        assert(g5.contains_key(t) && g5[t] == g4[t]);
    }
    // nothing under app beyond mirrors and pre-existing junk
    assert forall|k: Seq<Seq<char>>| #[trigger]
        g5.contains_key(k) && strict_under(appv, k) implies g0.contains_key(
        av + k.skip(appv.len() as int),
    ) || g0.contains_key(k) by {
        assert(k.len() > appv.len() == bl + 2);
        assert(forall|l: int| 1 <= l <= runv.len() ==> (#[trigger] runv.take(l)).len() <= bl + 2);
        assert(g4.contains_key(k));
        if g3.contains_key(k) {
            assert(forall|l: int| 1 <= l <= rv.len() ==> (#[trigger] rv.take(l)).len() <= bl + 1);
            assert(g2.contains_key(k));
            assert(k != cv);
            assert(g1.contains_key(k));
            assert(forall|l: int| 1 <= l <= bv.len() ==> (#[trigger] bv.take(l)).len() <= bl);
            assert(g0.contains_key(k));
        } else {
            assert(forall|l: int|
                1 <= l <= appv.len() ==> (#[trigger] appv.take(l)).len() <= bl + 2);
            let sk = av + k.skip(appv.len() as int);
            assert(g3.contains_key(sk));
            assert(strict_under(av, sk)) by {
                assert(sk.take(av.len() as int) =~= av);
                assert(k.skip(appv.len() as int).len() >= 1);
            }
            assert(!strict_under(bv, sk) && sk != cv && sk != bv);
            assert forall|l: int| 1 <= l <= rv.len() implies sk != #[trigger] rv.take(l) by {
                if sk == rv.take(l) {
                    assert(sk.take(av.len() as int) == av);
                    if l <= bl {
                        assert(rv.take(l) =~= bv.take(l));
                        assert(av.len() < l);
                        assert(bv.take(av.len() as int) =~= rv.take(l).take(av.len() as int));
                        assert(strict_under(av, bv));
                        assert(false);
                    } else {
                        assert(rv.take(l) =~= rv);
                        if av.len() < bl {
                            assert(bv.take(av.len() as int) =~= rv.take(av.len() as int));
                            assert(strict_under(av, bv));
                        } else if av.len() == bl {
                            assert(av =~= bv);
                        }
                        assert(false);
                    }
                }
            }
            assert(g2.contains_key(sk));
            assert forall|l: int| 1 <= l <= bv.len() implies sk != #[trigger] bv.take(l) by {
                if sk == bv.take(l) {
                    assert(sk.take(av.len() as int) == av);
                    assert(av.len() < l <= bl);
                    assert(bv.take(av.len() as int) =~= bv.take(l).take(av.len() as int));
                    assert(strict_under(av, bv));
                    assert(false);
                }
            }
            assert(g1.contains_key(sk));
            assert(g0.contains_key(sk));
        }
    }
    // everything outside the bundle keeps its node
    assert forall|k: Seq<Seq<char>>| #[trigger]
        g0.contains_key(k) && !(k == bv || strict_under(bv, k)) implies g5.contains_key(k) && g5[k]
        == g0[k] by {
        assert(g1.contains_key(k) && g1[k] == g0[k]);
        assert(k != cv);
        assert(g2.contains_key(k) && g2[k] == g0[k]);
        assert(g3.contains_key(k) && g3[k] == g0[k]);
        assert(!(strict_under(appv, k) && g3.contains_key(av + k.skip(appv.len() as int)))) by {
            if strict_under(appv, k) {
                assert(strict_under(bv, k)) by {
                    assert(k.take(appv.len() as int).take(bl) =~= k.take(bl));
                    assert(appv.take(bl) =~= bv);
                }
            }
        }
        assert(g4.contains_key(k) && g4[k] == g3[k]);
        assert(g5.contains_key(k) && g5[k] == g4[k]);
    }
}

} // verus!
