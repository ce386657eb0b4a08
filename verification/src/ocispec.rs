//! Construction of the rootless OCI runtime specification.
//!
//! The spec starts from the platform's default namespace and rootless mount
//! sets, removes the network and user namespaces, appends a fresh user
//! namespace, maps the caller's uid/gid onto in-container root, rebinds
//! `/sys` read-only from the host, and strips `uid=`/`gid=` mount options
//! that would reference identities outside the mapped range.  The handler
//! process is `/app/bootstrap` on a writable root.

use vstd::prelude::*;
use vstd::string::*;

verus! {

broadcast use vstd::string::group_string_axioms;

/// The invoking user, mapped onto root inside the container.
#[derive(Clone, Copy)]
pub struct SysUserParms {
    pub uid: u32,
    pub gid: u32,
}

/// The kinds of Linux namespace the runtime knows.
#[derive(Clone, Copy, Debug, PartialEq, Eq, Structural)]
pub enum NamespaceKind {
    Mount,
    Cgroup,
    Uts,
    Ipc,
    User,
    Pid,
    Network,
    Time,
}

/// One namespace of the container, optionally joining a persisted one.
pub struct Namespace {
    pub kind: NamespaceKind,
    pub path: Option<String>,
}

/// One uid or gid mapping of the user namespace.
#[derive(Clone, Copy, Debug, PartialEq, Eq, Structural)]
pub struct IdMapping {
    pub host_id: u32,
    pub container_id: u32,
    pub size: u32,
}

/// One mount of the container.
pub struct Mount {
    pub destination: String,
    pub typ: Option<String>,
    pub source: Option<String>,
    pub options: Option<Vec<String>>,
}

/// The container's process: its argument vector.
pub struct Process {
    pub args: Vec<String>,
}

/// The container's root filesystem flag.
pub struct Root {
    pub readonly: bool,
}

/// The Linux-specific part of the spec.
pub struct LinuxConfig {
    pub namespaces: Vec<Namespace>,
    pub uid_mappings: Vec<IdMapping>,
    pub gid_mappings: Vec<IdMapping>,
}

/// The runtime specification written to `config.json`.
pub struct RuntimeSpec {
    pub process: Process,
    pub root: Root,
    pub linux: LinuxConfig,
    pub mounts: Vec<Mount>,
}

/// The views of a vector of strings.
pub open spec fn string_views(s: Seq<String>) -> Seq<Seq<char>> {
    Seq::new(s.len(), |i: int| s[i]@)
}

// ---------------------------------------------------------------------------
// Namespaces
// ---------------------------------------------------------------------------

/// The namespace kind a runtime name denotes, using the runtime's short
/// names `mnt` and `net`.
pub open spec fn spec_kind_from_name(s: Seq<char>) -> Option<NamespaceKind> {
    if s == "mnt"@ {
        Some(NamespaceKind::Mount)
    } else if s == "cgroup"@ {
        Some(NamespaceKind::Cgroup)
    } else if s == "uts"@ {
        Some(NamespaceKind::Uts)
    } else if s == "ipc"@ {
        Some(NamespaceKind::Ipc)
    } else if s == "user"@ {
        Some(NamespaceKind::User)
    } else if s == "pid"@ {
        Some(NamespaceKind::Pid)
    } else if s == "net"@ {
        Some(NamespaceKind::Network)
    } else if s == "time"@ {
        Some(NamespaceKind::Time)
    } else {
        None
    }
}

/// Parses a runtime namespace name.
pub fn namespace_kind_from_name(name: &String) -> (r: Option<NamespaceKind>)
    ensures
        r == spec_kind_from_name(name@),
{
    if *name == String::from_str("mnt") {
        Some(NamespaceKind::Mount)
    } else if *name == String::from_str("cgroup") {
        Some(NamespaceKind::Cgroup)
    } else if *name == String::from_str("uts") {
        Some(NamespaceKind::Uts)
    } else if *name == String::from_str("ipc") {
        Some(NamespaceKind::Ipc)
    } else if *name == String::from_str("user") {
        Some(NamespaceKind::User)
    } else if *name == String::from_str("pid") {
        Some(NamespaceKind::Pid)
    } else if *name == String::from_str("net") {
        Some(NamespaceKind::Network)
    } else if *name == String::from_str("time") {
        Some(NamespaceKind::Time)
    } else {
        None
    }
}

/// The platform's default namespace set: pid, network, ipc, uts, mount and
/// cgroup, none joining a persisted namespace.
pub open spec fn spec_default_namespaces() -> Seq<Namespace> {
    seq![
        (Namespace { kind: NamespaceKind::Pid, path: None }),
        (Namespace { kind: NamespaceKind::Network, path: None }),
        (Namespace { kind: NamespaceKind::Ipc, path: None }),
        (Namespace { kind: NamespaceKind::Uts, path: None }),
        (Namespace { kind: NamespaceKind::Mount, path: None }),
        (Namespace { kind: NamespaceKind::Cgroup, path: None }),
    ]
}

/// Relies on `oci_spec::runtime::get_default_namespaces` (re-exported by
/// libcontainer): the default set is pid, net, ipc, uts, mnt and cgroup, in
/// that order, each without a path.  Names use the runtime's short spellings.
#[verifier::external_body]
fn default_namespaces_raw() -> (r: Vec<(String, bool)>)
    ensures
        r@.len() == 6,
        r@[0].0@ == "pid"@ && !r@[0].1,
        r@[1].0@ == "net"@ && !r@[1].1,
        r@[2].0@ == "ipc"@ && !r@[2].1,
        r@[3].0@ == "uts"@ && !r@[3].1,
        r@[4].0@ == "mnt"@ && !r@[4].1,
        r@[5].0@ == "cgroup"@ && !r@[5].1,
{
    let mut out: Vec<(String, bool)> = Vec::new();
    for ns in libcontainer::oci_spec::runtime::get_default_namespaces() {
        out.push((ns.typ().to_string(), ns.path().is_some()));
    }
    out
}

/// What the runtime's short namespace names denote.
proof fn lemma_kind_names()
    ensures
        spec_kind_from_name("pid"@) == Some(NamespaceKind::Pid),
        spec_kind_from_name("net"@) == Some(NamespaceKind::Network),
        spec_kind_from_name("ipc"@) == Some(NamespaceKind::Ipc),
        spec_kind_from_name("uts"@) == Some(NamespaceKind::Uts),
        spec_kind_from_name("mnt"@) == Some(NamespaceKind::Mount),
        spec_kind_from_name("cgroup"@) == Some(NamespaceKind::Cgroup),
{
    reveal_strlit("pid");
    reveal_strlit("net");
    reveal_strlit("ipc");
    reveal_strlit("uts");
    reveal_strlit("mnt");
    reveal_strlit("cgroup");
    reveal_strlit("user");
    reveal_strlit("time");
    assert("pid"@.len() == 3 && "net"@.len() == 3 && "ipc"@.len() == 3 && "uts"@.len() == 3
        && "mnt"@.len() == 3 && "cgroup"@.len() == 6 && "user"@.len() == 4 && "time"@.len() == 4);
    assert("pid"@[0] == 'p' && "net"@[0] == 'n' && "ipc"@[0] == 'i' && "uts"@[0] == 'u'
        && "mnt"@[0] == 'm' && "cgroup"@[0] == 'c' && "user"@[0] == 'u' && "time"@[0] == 't');
}

/// The platform's default namespaces as model values.
pub fn filter_default_namespaces_input() -> (r: Vec<Namespace>)
    ensures
        r@ == spec_default_namespaces(),
{
    let raw = default_namespaces_raw();
    let mut out: Vec<Namespace> = Vec::new();
    let mut i: usize = 0;
    while i < raw.len()
        invariant
            i <= 6,
            raw@.len() == 6,
            raw@[0].0@ == "pid"@ && raw@[1].0@ == "net"@ && raw@[2].0@ == "ipc"@
                && raw@[3].0@ == "uts"@ && raw@[4].0@ == "mnt"@ && raw@[5].0@ == "cgroup"@,
            out@ =~= spec_default_namespaces().take(i as int),
        decreases 6 - i,
    {
        proof {
            lemma_kind_names();
            if i == 0 {
                assert(spec_kind_from_name(raw@[0].0@) is Some);
            } else if i == 1 {
                assert(spec_kind_from_name(raw@[1].0@) is Some);
            } else if i == 2 {
                assert(spec_kind_from_name(raw@[2].0@) is Some);
            } else if i == 3 {
                assert(spec_kind_from_name(raw@[3].0@) is Some);
            } else if i == 4 {
                assert(spec_kind_from_name(raw@[4].0@) is Some);
            } else {
                assert(spec_kind_from_name(raw@[5].0@) is Some);
            }
        }
        let kind = match namespace_kind_from_name(&raw[i].0) {
            Some(k) => k,
            None => {
                proof {
                    assert(false);
                }
                vstd::pervasive::unreached()
            },
        };
        out.push(Namespace { kind, path: None });
        proof {
            lemma_kind_names();
            let d = spec_default_namespaces();
            if i == 0 {
                assert(kind == NamespaceKind::Pid);
            } else if i == 1 {
                assert(kind == NamespaceKind::Network);
            } else if i == 2 {
                assert(kind == NamespaceKind::Ipc);
            } else if i == 3 {
                assert(kind == NamespaceKind::Uts);
            } else if i == 4 {
                assert(kind == NamespaceKind::Mount);
            } else {
                assert(kind == NamespaceKind::Cgroup);
            }
            assert((Namespace { kind, path: None }) == d[i as int]);
            assert(d.take(i + 1).drop_last() =~= d.take(i as int));
            assert(out@ =~= spec_default_namespaces().take(i + 1));
        }
        i += 1;
    }
    proof {
        assert(spec_default_namespaces().take(6) =~= spec_default_namespaces());
    }
    out
}

/// Whether a namespace is dropped for rootless execution: the handler gets
/// no network, and the default user namespace is replaced by a fresh one.
pub open spec fn spec_excluded_namespace(ns: Namespace) -> bool {
    ns.kind == NamespaceKind::Network || ns.kind == NamespaceKind::User
}

pub fn is_excluded_namespace(ns: &Namespace) -> (r: bool)
    ensures
        r == spec_excluded_namespace(*ns),
{
    match ns.kind {
        NamespaceKind::Network => true,
        NamespaceKind::User => true,
        _ => false,
    }
}

/// The default namespaces with the excluded kinds removed, order kept.
pub open spec fn spec_filter_namespaces(s: Seq<Namespace>) -> Seq<Namespace>
    decreases s.len(),
{
    if s.len() == 0 {
        Seq::empty()
    } else {
        let prefix = spec_filter_namespaces(s.drop_last());
        if spec_excluded_namespace(s.last()) {
            prefix
        } else {
            prefix.push(s.last())
        }
    }
}

/// Removes the network and user namespaces from a namespace list.
pub fn filter_default_namespaces(defaults: Vec<Namespace>) -> (r: Vec<Namespace>)
    ensures
        r@ == spec_filter_namespaces(defaults@),
{
    let ghost orig = defaults@;
    let mut rest = defaults;
    let mut out: Vec<Namespace> = Vec::new();
    while rest.len() > 0
        invariant
            rest@.len() <= orig.len(),
            rest@ =~= orig.skip(orig.len() - rest@.len()),
            out@ == spec_filter_namespaces(orig.take(orig.len() - rest@.len())),
        decreases rest@.len(),
    {
        let ghost i = orig.len() - rest@.len();
        let ns = rest.remove(0);
        proof {
            assert(ns == orig[i]);
            assert(rest@ =~= orig.skip(i + 1));
            assert(orig.take(i + 1).drop_last() =~= orig.take(i));
            assert(orig.take(i + 1).last() == orig[i]);
        }
        if !is_excluded_namespace(&ns) {
            out.push(ns);
        }
        proof {
            assert(out@ == spec_filter_namespaces(orig.take(i + 1)));
        }
    }
    proof {
        assert(orig.take(orig.len() as int) =~= orig);
    }
    out
}

/// A fresh user namespace, required for rootless operation.
pub fn create_user_namespace() -> (r: Namespace)
    ensures
        r.kind == NamespaceKind::User,
        r.path is None,
{
    Namespace { kind: NamespaceKind::User, path: None }
}

/// The namespace set of a rootless container: the defaults without network
/// and user, then one fresh user namespace.
pub open spec fn spec_rootless_namespaces() -> Seq<Namespace> {
    seq![
        (Namespace { kind: NamespaceKind::Pid, path: None }),
        (Namespace { kind: NamespaceKind::Ipc, path: None }),
        (Namespace { kind: NamespaceKind::Uts, path: None }),
        (Namespace { kind: NamespaceKind::Mount, path: None }),
        (Namespace { kind: NamespaceKind::Cgroup, path: None }),
        (Namespace { kind: NamespaceKind::User, path: None }),
    ]
}

/// Filtering the defaults and appending the fresh user namespace yields
/// exactly: pid, ipc, uts, mount, cgroup, user.
pub proof fn lemma_rootless_namespaces()
    ensures
        spec_filter_namespaces(spec_default_namespaces()).push(
            Namespace { kind: NamespaceKind::User, path: None },
        ) == spec_rootless_namespaces(),
{
    reveal_with_fuel(spec_filter_namespaces, 8);
    let d = spec_default_namespaces();
    assert(d.drop_last() =~= d.take(5));
    assert(d.take(5).drop_last() =~= d.take(4));
    assert(d.take(4).drop_last() =~= d.take(3));
    assert(d.take(3).drop_last() =~= d.take(2));
    assert(d.take(2).drop_last() =~= d.take(1));
    assert(d.take(1).drop_last() =~= d.take(0));
    assert(d.take(0) =~= Seq::<Namespace>::empty());
    assert(spec_filter_namespaces(d).push(
        Namespace { kind: NamespaceKind::User, path: None },
    ) =~= spec_rootless_namespaces());
}

/// Builds the rootless namespace list from the platform defaults.
pub fn build_rootless_namespaces() -> (r: Vec<Namespace>)
    ensures
        r@ == spec_rootless_namespaces(),
{
    let defaults = filter_default_namespaces_input();
    let mut namespaces = filter_default_namespaces(defaults);
    namespaces.push(create_user_namespace());
    proof {
        lemma_rootless_namespaces();
        assert(namespaces@ =~= spec_rootless_namespaces());
    }
    namespaces
}

// ---------------------------------------------------------------------------
// Id mappings
// ---------------------------------------------------------------------------

/// A single mapping sending in-container root to one host id.
pub fn create_id_mapping(host_id: u32) -> (r: IdMapping)
    ensures
        r == (IdMapping { host_id, container_id: 0, size: 1 }),
{
    IdMapping { host_id, container_id: 0, size: 1 }
}

/// Combines namespaces and the uid/gid mappings of the invoking user.
pub fn build_linux_config(sys_user: &SysUserParms, namespaces: Vec<Namespace>) -> (r: LinuxConfig)
    ensures
        r.namespaces == namespaces,
        r.uid_mappings@ == seq![(IdMapping { host_id: sys_user.uid, container_id: 0, size: 1 })],
        r.gid_mappings@ == seq![(IdMapping { host_id: sys_user.gid, container_id: 0, size: 1 })],
{
    let uid_mappings = vec![create_id_mapping(sys_user.uid)];
    let gid_mappings = vec![create_id_mapping(sys_user.gid)];
    proof {
        assert(uid_mappings@ =~= seq![
            (IdMapping { host_id: sys_user.uid, container_id: 0, size: 1 }),
        ]);
        assert(gid_mappings@ =~= seq![
            (IdMapping { host_id: sys_user.gid, container_id: 0, size: 1 }),
        ]);
    }
    LinuxConfig { namespaces, uid_mappings, gid_mappings }
}

// ---------------------------------------------------------------------------
// Mounts
// ---------------------------------------------------------------------------

/// One mount's expected shape: destination, type, source and options views.
pub open spec fn mount_is(
    m: Mount,
    dest: Seq<char>,
    typ: Option<Seq<char>>,
    source: Option<Seq<char>>,
    options: Option<Seq<Seq<char>>>,
) -> bool {
    &&& m.destination@ == dest
    &&& match typ {
        Some(t) => m.typ matches Some(mt) && mt@ == t,
        None => m.typ is None,
    }
    &&& match source {
        Some(s) => m.source matches Some(ms) && ms@ == s,
        None => m.source is None,
    }
    &&& match options {
        Some(o) => m.options matches Some(mo) && string_views(mo@) == o,
        None => m.options is None,
    }
}

/// The platform's default rootless mount set, as its source defines it:
/// proc, dev, devpts (without `gid=5`), shm, mqueue, a `/sys` rebind
/// prepared for rootless use, and the cgroup mount.
pub open spec fn spec_is_default_rootless_mounts(s: Seq<Mount>) -> bool {
    &&& s.len() == 7
    &&& mount_is(s[0], "/proc"@, Some("proc"@), Some("proc"@), None)
    &&& mount_is(
        s[1],
        "/dev"@,
        Some("tmpfs"@),
        Some("tmpfs"@),
        Some(seq!["nosuid"@, "strictatime"@, "mode=755"@, "size=65536k"@]),
    )
    &&& mount_is(
        s[2],
        "/dev/pts"@,
        Some("devpts"@),
        Some("devpts"@),
        Some(seq!["nosuid"@, "noexec"@, "newinstance"@, "ptmxmode=0666"@, "mode=0620"@]),
    )
    &&& mount_is(
        s[3],
        "/dev/shm"@,
        Some("tmpfs"@),
        Some("shm"@),
        Some(seq!["nosuid"@, "noexec"@, "nodev"@, "mode=1777"@, "size=65536k"@]),
    )
    &&& mount_is(
        s[4],
        "/dev/mqueue"@,
        Some("mqueue"@),
        Some("mqueue"@),
        Some(seq!["nosuid"@, "noexec"@, "nodev"@]),
    )
    &&& mount_is(
        s[5],
        "/sys"@,
        Some("none"@),
        Some("/sys"@),
        Some(seq!["nosuid"@, "noexec"@, "nodev"@, "ro"@, "rbind"@]),
    )
    &&& mount_is(
        s[6],
        "/sys/fs/cgroup"@,
        Some("cgroup"@),
        Some("cgroup"@),
        Some(seq!["nosuid"@, "noexec"@, "nodev"@, "relatime"@, "ro"@]),
    )
}

/// Relies on `oci_spec::runtime::get_rootless_mounts` (re-exported by
/// libcontainer): the default rootless mounts are exactly the seven stated
/// by `spec_is_default_rootless_mounts`, in that order.
#[verifier::external_body]
fn rootless_mounts_raw() -> (r: Vec<Mount>)
    ensures
        spec_is_default_rootless_mounts(r@),
{
    let mut out: Vec<Mount> = Vec::new();
    for m in libcontainer::oci_spec::runtime::get_rootless_mounts() {
        out.push(Mount {
            destination: m.destination().display().to_string(),
            typ: m.typ().clone(),
            source: m.source().as_ref().map(|p| p.display().to_string()),
            options: m.options().clone(),
        });
    }
    out
}

/// `s` begins with `p`.
pub open spec fn spec_starts_with(s: Seq<char>, p: Seq<char>) -> bool {
    p.len() <= s.len() && s.subrange(0, p.len() as int) == p
}

/// Whether a mount option references an identity: it begins with `uid=` or
/// `gid=`.
pub open spec fn spec_id_option(s: Seq<char>) -> bool {
    spec_starts_with(s, "uid="@) || spec_starts_with(s, "gid="@)
}

/// Tests whether an option begins with `uid=` or `gid=`.
fn is_id_option(s: &String) -> (r: bool)
    ensures
        r == spec_id_option(s@),
{
    proof {
        reveal_strlit("uid=");
        reveal_strlit("gid=");
    }
    let st = s.as_str();
    let n = st.unicode_len();
    if n < 4 {
        return false;
    }
    let c0 = st.get_char(0);
    let c1 = st.get_char(1);
    let c2 = st.get_char(2);
    let c3 = st.get_char(3);
    let r = (c0 == 'u' || c0 == 'g') && c1 == 'i' && c2 == 'd' && c3 == '=';
    proof {
        if r {
            if c0 == 'u' {
                assert(s@.subrange(0, 4) =~= "uid="@);
            } else {
                assert(s@.subrange(0, 4) =~= "gid="@);
            }
        } else {
            if spec_starts_with(s@, "uid="@) {
                assert(s@[0] == "uid="@[0] && s@[1] == "uid="@[1] && s@[2] == "uid="@[2]
                    && s@[3] == "uid="@[3]);
            }
            if spec_starts_with(s@, "gid="@) {
                assert(s@[0] == "gid="@[0] && s@[1] == "gid="@[1] && s@[2] == "gid="@[2]
                    && s@[3] == "gid="@[3]);
            }
        }
    }
    r
}

/// The options with every `uid=`/`gid=` option removed, order kept.
pub open spec fn spec_filtered_options(s: Seq<String>) -> Seq<String>
    decreases s.len(),
{
    if s.len() == 0 {
        Seq::empty()
    } else {
        let prefix = spec_filtered_options(s.drop_last());
        if spec_id_option(s.last()@) {
            prefix
        } else {
            prefix.push(s.last())
        }
    }
}

/// The option sequence a mount carries; a mount without options carries
/// none.
pub open spec fn spec_options_seq(o: Option<Vec<String>>) -> Seq<String> {
    match o {
        Some(v) => v@,
        None => Seq::empty(),
    }
}

/// Strips every option beginning with `uid=` or `gid=`; all other fields
/// stay.  A mount without options ends with an empty option list.
pub fn filter_mount_options(m: &mut Mount)
    ensures
        final(m).destination == old(m).destination,
        final(m).typ == old(m).typ,
        final(m).source == old(m).source,
        final(m).options matches Some(v) && v@ == spec_filtered_options(
            spec_options_seq(old(m).options),
        ),
{
    let ghost orig = spec_options_seq(m.options);
    let mut kept: Vec<String> = Vec::new();
    match &m.options {
        Some(opts) => {
            let mut i: usize = 0;
            while i < opts.len()
                invariant
                    i <= opts@.len(),
                    opts@ == orig,
                    kept@ == spec_filtered_options(orig.take(i as int)),
                decreases opts@.len() - i,
            {
                proof {
                    assert(orig.take(i + 1).drop_last() =~= orig.take(i as int));
                    assert(orig.take(i + 1).last() == orig[i as int]);
                }
                if !is_id_option(&opts[i]) {
                    kept.push(opts[i].clone());
                }
                i += 1;
            }
            proof {
                assert(orig.take(orig.len() as int) =~= orig);
            }
        },
        None => {
            proof {
                assert(orig =~= Seq::<String>::empty());
            }
        },
    }
    m.options = Some(kept);
}

/// The views of the `/sys` mount's options after configuration.
pub open spec fn sys_mount_option_views() -> Seq<Seq<char>> {
    seq!["rbind"@, "nosuid"@, "noexec"@, "nodev"@, "ro"@]
}

/// Replaces a mount by a read-only recursive bind of the host's `/sys`.
pub fn configure_sys_mount(m: &mut Mount)
    ensures
        final(m).destination == old(m).destination,
        final(m).typ matches Some(t) && t@ == "none"@,
        final(m).source matches Some(s) && s@ == "/sys"@,
        final(m).options matches Some(o) && string_views(o@) == sys_mount_option_views(),
{
    m.typ = Some(String::from_str("none"));
    m.source = Some(String::from_str("/sys"));
    let mut opts: Vec<String> = Vec::new();
    opts.push(String::from_str("rbind"));
    opts.push(String::from_str("nosuid"));
    opts.push(String::from_str("noexec"));
    opts.push(String::from_str("nodev"));
    opts.push(String::from_str("ro"));
    proof {
        assert(string_views(opts@) =~= sys_mount_option_views());
    }
    m.options = Some(opts);
}

/// Whether a mount is the `/sys` mount.
pub fn is_sys_mount(m: &Mount) -> (r: bool)
    ensures
        r == (m.destination@ == "/sys"@),
{
    let sys = String::from_str("/sys");
    m.destination == sys
}

/// How one default mount is transformed for the spec: the `/sys` mount is
/// replaced by the read-only rebind; every other mount keeps its fields
/// with the identity options stripped.
pub open spec fn mount_transformed(before: Mount, after: Mount) -> bool {
    if before.destination@ == "/sys"@ {
        &&& after.destination == before.destination
        &&& after.typ matches Some(t) && t@ == "none"@
        &&& after.source matches Some(s) && s@ == "/sys"@
        &&& after.options matches Some(o) && string_views(o@) == sys_mount_option_views()
    } else {
        &&& after.destination == before.destination
        &&& after.typ == before.typ
        &&& after.source == before.source
        &&& after.options matches Some(v) && v@ == spec_filtered_options(
            spec_options_seq(before.options),
        )
    }
}

/// Transforms the default rootless mounts: `/sys` becomes a read-only
/// rebind of the host's `/sys`; every other mount loses its `uid=`/`gid=`
/// options.
pub fn build_rootless_mounts() -> (r: Vec<Mount>)
    ensures
        exists|defaults: Seq<Mount>|
            #[trigger] spec_is_default_rootless_mounts(defaults) && r@.len() == defaults.len()
                && (forall|i: int|
                0 <= i < r@.len() ==> mount_transformed(defaults[i], #[trigger] r@[i])),
        r@.len() == 7,
{
    let defaults = rootless_mounts_raw();
    let ghost orig = defaults@;
    let mut rest = defaults;
    let mut out: Vec<Mount> = Vec::new();
    while rest.len() > 0
        invariant
            rest@.len() <= orig.len(),
            rest@ =~= orig.skip(orig.len() - rest@.len()),
            out@.len() == orig.len() - rest@.len(),
            forall|j: int| 0 <= j < out@.len() ==> mount_transformed(orig[j], #[trigger] out@[j]),
        decreases rest@.len(),
    {
        let ghost i = orig.len() - rest@.len();
        let mut m = rest.remove(0);
        let ghost m0 = m;
        proof {
            assert(m0 == orig[i]);
            assert(rest@ =~= orig.skip(i + 1));
        }
        if is_sys_mount(&m) {
            configure_sys_mount(&mut m);
        } else {
            filter_mount_options(&mut m);
        }
        proof {
            assert(mount_transformed(orig[i], m));
        }
        out.push(m);
    }
    proof {
        assert(spec_is_default_rootless_mounts(orig));
    }
    out
}

// ---------------------------------------------------------------------------
// Process, root, and the whole spec
// ---------------------------------------------------------------------------

/// The handler process: args are exactly `/app/bootstrap`, no custom
/// environment.
pub fn build_process() -> (r: Process)
    ensures
        r.args@.len() == 1,
        r.args@[0]@ == "/app/bootstrap"@,
{
    let mut args: Vec<String> = Vec::new();
    args.push(String::from_str("/app/bootstrap"));
    Process { args }
}

/// A writable root, so the handler can create its socket under `/run/`.
pub fn build_root() -> (r: Root)
    ensures
        r.readonly == false,
{
    Root { readonly: false }
}

/// Produces the rootless runtime specification: the rootless namespace set,
/// single uid/gid mappings onto the caller, the transformed mount list, the
/// `/app/bootstrap` process, and a writable root.
pub fn get_spec(sys_user: &SysUserParms) -> (r: RuntimeSpec)
    ensures
        r.process.args@.len() == 1 && r.process.args@[0]@ == "/app/bootstrap"@,
        r.root.readonly == false,
        r.linux.namespaces@ == spec_rootless_namespaces(),
        r.linux.uid_mappings@ == seq![
            (IdMapping { host_id: sys_user.uid, container_id: 0, size: 1 }),
        ],
        r.linux.gid_mappings@ == seq![
            (IdMapping { host_id: sys_user.gid, container_id: 0, size: 1 }),
        ],
        r.mounts@.len() == 7,
        exists|defaults: Seq<Mount>|
            #[trigger] spec_is_default_rootless_mounts(defaults) && r.mounts@.len()
                == defaults.len() && (forall|i: int|
                0 <= i < r.mounts@.len() ==> mount_transformed(defaults[i], #[trigger] r.mounts@[i])),
{
    let namespaces = build_rootless_namespaces();
    let linux = build_linux_config(sys_user, namespaces);
    let mounts = build_rootless_mounts();
    let process = build_process();
    let root = build_root();
    RuntimeSpec { process, root, linux, mounts }
}

} // verus!
