//! A model of the worker's on-disk state.
//!
//! Paths are component vectors denoting absolute paths; the model maps each
//! named path to a node: a directory, or a file with its contents.  The
//! model records exactly the paths that have been created; the unverified
//! shell mirrors every operation on the real filesystem.  The tree-copy
//! used to materialize a handler into its bundle is defined here and obeys
//! the rules the worker needs: copying preserves contents, creates the
//! destination even for an empty source, and leaves everything else alone.

use vstd::prelude::*;
use vstd::string::*;
use vstd::slice::slice_to_vec;

verus! {

/// One node of the filesystem: a directory or a file with contents.
pub enum FsNode {
    Dir,
    File(Vec<u8>),
}

/// One named path and its node.
pub struct FsEntry {
    pub path: Vec<String>,
    pub node: FsNode,
}

/// The view of a component path: the sequence of its components' views.
pub open spec fn path_view(p: Seq<String>) -> Seq<Seq<char>> {
    Seq::new(p.len(), |i: int| p[i]@)
}

/// The view of a node: `None` for a directory, the contents for a file.
pub open spec fn node_view(n: FsNode) -> Option<Seq<u8>> {
    match n {
        FsNode::Dir => None,
        FsNode::File(c) => Some(c@),
    }
}

pub open spec fn entry_key(e: FsEntry) -> Seq<Seq<char>> {
    path_view(e.path@)
}

pub open spec fn entry_val(e: FsEntry) -> Option<Seq<u8>> {
    node_view(e.node)
}

/// The map denoted by an entry vector.
pub open spec fn fs_map(s: Seq<FsEntry>) -> Map<Seq<Seq<char>>, Option<Seq<u8>>>
    decreases s.len(),
{
    if s.len() == 0 {
        Map::empty()
    } else {
        fs_map(s.drop_last()).insert(entry_key(s.last()), entry_val(s.last()))
    }
}

/// No two entries name one path.
pub open spec fn fs_distinct(s: Seq<FsEntry>) -> bool {
    forall|i: int, j: int| 0 <= i < j < s.len() ==> entry_key(s[i]) != entry_key(s[j])
}

/// `k` lies strictly inside the directory `pre`.
pub open spec fn strict_under(pre: Seq<Seq<char>>, k: Seq<Seq<char>>) -> bool {
    pre.len() < k.len() && k.take(pre.len() as int) == pre
}

pub proof fn lemma_fs_map_contains(s: Seq<FsEntry>, k: Seq<Seq<char>>)
    ensures
        fs_map(s).contains_key(k) <==> exists|i: int| 0 <= i < s.len() && entry_key(s[i]) == k,
    decreases s.len(),
{
    if s.len() > 0 {
        lemma_fs_map_contains(s.drop_last(), k);
        if fs_map(s).contains_key(k) && entry_key(s.last()) != k {
            let i = choose|i: int|
                0 <= i < s.drop_last().len() && entry_key(s.drop_last()[i]) == k;
            assert(entry_key(s[i]) == k);
        }
        if exists|i: int| 0 <= i < s.len() && entry_key(s[i]) == k {
            let i = choose|i: int| 0 <= i < s.len() && entry_key(s[i]) == k;
            if i < s.len() - 1 {
                assert(entry_key(s.drop_last()[i]) == k);
            }
        }
    }
}

pub proof fn lemma_fs_map_index(s: Seq<FsEntry>, i: int)
    requires
        fs_distinct(s),
        0 <= i < s.len(),
    ensures
        fs_map(s).contains_key(entry_key(s[i])),
        fs_map(s)[entry_key(s[i])] == entry_val(s[i]),
    decreases s.len(),
{
    if i == s.len() - 1 {
    } else {
        assert(fs_distinct(s.drop_last())) by {
            assert(forall|x: int, y: int|
                0 <= x < y < s.drop_last().len() ==> entry_key(s.drop_last()[x]) != entry_key(
                    s.drop_last()[y],
                ));
        }
        assert(s.drop_last()[i] == s[i]);
        lemma_fs_map_index(s.drop_last(), i);
        assert(entry_key(s[i]) != entry_key(s.last()));
    }
}

pub proof fn lemma_fs_map_push(s: Seq<FsEntry>, e: FsEntry)
    ensures
        fs_map(s.push(e)) == fs_map(s).insert(entry_key(e), entry_val(e)),
{
    assert(s.push(e).drop_last() =~= s);
    assert(s.push(e).last() == e);
}

pub proof fn lemma_fs_map_update(s: Seq<FsEntry>, i: int, e: FsEntry)
    requires
        fs_distinct(s),
        0 <= i < s.len(),
        entry_key(e) == entry_key(s[i]),
    ensures
        fs_map(s.update(i, e)) == fs_map(s).insert(entry_key(e), entry_val(e)),
    decreases s.len(),
{
    let k = entry_key(s[i]);
    if i == s.len() - 1 {
        assert(s.update(i, e).drop_last() =~= s.drop_last());
        assert(fs_map(s.drop_last()).insert(k, entry_val(s[i])).insert(k, entry_val(e))
            =~= fs_map(s.drop_last()).insert(k, entry_val(e)));
    } else {
        assert(fs_distinct(s.drop_last())) by {
            assert(forall|x: int, y: int|
                0 <= x < y < s.drop_last().len() ==> entry_key(s.drop_last()[x]) != entry_key(
                    s.drop_last()[y],
                ));
        }
        assert(s.drop_last()[i] == s[i]);
        lemma_fs_map_update(s.drop_last(), i, e);
        assert(s.update(i, e).drop_last() =~= s.drop_last().update(i, e));
        assert(s.update(i, e).last() == s.last());
        let lk = entry_key(s.last());
        assert(lk != k);
        assert(fs_map(s.drop_last()).insert(k, entry_val(e)).insert(lk, entry_val(s.last()))
            =~= fs_map(s.drop_last()).insert(lk, entry_val(s.last())).insert(k, entry_val(e)));
    }
}

pub proof fn lemma_fs_map_remove(s: Seq<FsEntry>, i: int)
    requires
        fs_distinct(s),
        0 <= i < s.len(),
    ensures
        fs_map(s.remove(i)) == fs_map(s).remove(entry_key(s[i])),
    decreases s.len(),
{
    let k = entry_key(s[i]);
    if i == s.len() - 1 {
        assert(s.remove(i) =~= s.drop_last());
        lemma_fs_map_contains(s.drop_last(), k);
        assert(!fs_map(s.drop_last()).contains_key(k));
        assert(fs_map(s.drop_last()).insert(k, entry_val(s[i])).remove(k) =~= fs_map(
            s.drop_last(),
        ));
    } else {
        assert(fs_distinct(s.drop_last())) by {
            assert(forall|x: int, y: int|
                0 <= x < y < s.drop_last().len() ==> entry_key(s.drop_last()[x]) != entry_key(
                    s.drop_last()[y],
                ));
        }
        assert(s.drop_last()[i] == s[i]);
        lemma_fs_map_remove(s.drop_last(), i);
        assert(s.remove(i).drop_last() =~= s.drop_last().remove(i));
        assert(s.remove(i).last() == s.last());
        let lk = entry_key(s.last());
        assert(lk != k);
        assert(fs_map(s.drop_last()).remove(k).insert(lk, entry_val(s.last())) =~= fs_map(
            s.drop_last(),
        ).insert(lk, entry_val(s.last())).remove(k));
    }
}

pub proof fn lemma_fs_distinct_remove(s: Seq<FsEntry>, i: int)
    requires
        fs_distinct(s),
        0 <= i < s.len(),
    ensures
        fs_distinct(s.remove(i)),
{
    assert forall|x: int, y: int| 0 <= x < y < s.remove(i).len() implies entry_key(s.remove(i)[x])
        != entry_key(s.remove(i)[y]) by {
        let x0 = if x < i { x } else { x + 1 };
        let y0 = if y < i { y } else { y + 1 };
        assert(s.remove(i)[x] == s[x0]);
        assert(s.remove(i)[y] == s[y0]);
    }
}

pub proof fn lemma_fs_distinct_push(s: Seq<FsEntry>, e: FsEntry)
    requires
        fs_distinct(s),
        forall|i: int| 0 <= i < s.len() ==> entry_key(s[i]) != entry_key(e),
    ensures
        fs_distinct(s.push(e)),
{
}

pub proof fn lemma_fs_distinct_update(s: Seq<FsEntry>, i: int, e: FsEntry)
    requires
        fs_distinct(s),
        0 <= i < s.len(),
        entry_key(e) == entry_key(s[i]),
    ensures
        fs_distinct(s.update(i, e)),
{
}

// ---------------------------------------------------------------------------
// Executable path helpers
// ---------------------------------------------------------------------------

/// A component-for-component copy of a path.
pub fn dup_path(p: &Vec<String>) -> (r: Vec<String>)
    ensures
        path_view(r@) == path_view(p@),
        r@.len() == p@.len(),
        forall|j: int| 0 <= j < r@.len() ==> r@[j]@ == p@[j]@,
{
    let mut r: Vec<String> = Vec::new();
    let mut i: usize = 0;
    while i < p.len()
        invariant
            i <= p@.len(),
            r@.len() == i,
            forall|j: int| 0 <= j < i ==> r@[j]@ == p@[j]@,
        decreases p@.len() - i,
    {
        r.push(p[i].clone());
        i += 1;
    }
    proof {
        assert(path_view(r@) =~= path_view(p@));
    }
    r
}

/// Whether two paths are the same.
pub fn path_eq(a: &Vec<String>, b: &Vec<String>) -> (r: bool)
    ensures
        r == (path_view(a@) == path_view(b@)),
{
    if a.len() != b.len() {
        proof {
            assert(path_view(a@).len() != path_view(b@).len());
        }
        return false;
    }
    let n = a.len();
    let mut i: usize = 0;
    while i < n
        invariant
            i <= n,
            n == a@.len() == b@.len(),
            forall|j: int| 0 <= j < i ==> a@[j]@ == b@[j]@,
        decreases n - i,
    {
        if !(a[i] == b[i]) {
            proof {
                assert(path_view(a@)[i as int] != path_view(b@)[i as int]);
            }
            return false;
        }
        i += 1;
    }
    proof {
        assert(path_view(a@) =~= path_view(b@));
    }
    true
}

/// Whether `p` lies strictly inside the directory `pre`.
pub fn path_strictly_under(pre: &Vec<String>, p: &Vec<String>) -> (r: bool)
    ensures
        r == strict_under(path_view(pre@), path_view(p@)),
{
    if p.len() <= pre.len() {
        return false;
    }
    let n = pre.len();
    let mut i: usize = 0;
    while i < n
        invariant
            i <= n,
            n == pre@.len() < p@.len(),
            forall|j: int| 0 <= j < i ==> p@[j]@ == pre@[j]@,
        decreases n - i,
    {
        if !(p[i] == pre[i]) {
            proof {
                assert(path_view(p@).take(n as int)[i as int] != path_view(pre@)[i as int]);
            }
            return false;
        }
        i += 1;
    }
    proof {
        assert(path_view(p@).take(n as int) =~= path_view(pre@));
    }
    true
}

/// `base` extended by the components of `rel`.
pub fn path_append(base: &Vec<String>, rel: &Vec<String>) -> (r: Vec<String>)
    ensures
        path_view(r@) == path_view(base@) + path_view(rel@),
{
    let mut r = dup_path(base);
    let mut i: usize = 0;
    while i < rel.len()
        invariant
            i <= rel@.len(),
            r@.len() == base@.len() + i,
            forall|j: int| 0 <= j < base@.len() ==> r@[j]@ == base@[j]@,
            forall|j: int| 0 <= j < i ==> r@[base@.len() + j]@ == rel@[j]@,
        decreases rel@.len() - i,
    {
        r.push(rel[i].clone());
        i += 1;
    }
    proof {
        assert(path_view(r@) =~= path_view(base@) + path_view(rel@));
    }
    r
}

/// The components of `p` after its first `n`.
pub fn path_tail(p: &Vec<String>, n: usize) -> (r: Vec<String>)
    requires
        n <= p@.len(),
    ensures
        path_view(r@) == path_view(p@).skip(n as int),
        r@.len() == p@.len() - n,
{
    let mut r: Vec<String> = Vec::new();
    let mut i: usize = n;
    while i < p.len()
        invariant
            n <= i <= p@.len(),
            r@.len() == i - n,
            forall|j: int| 0 <= j < i - n ==> r@[j]@ == p@[n + j]@,
        decreases p@.len() - i,
    {
        r.push(p[i].clone());
        i += 1;
    }
    proof {
        assert(path_view(r@) =~= path_view(p@).skip(n as int));
    }
    r
}

// ---------------------------------------------------------------------------
// The model itself
// ---------------------------------------------------------------------------

/// Why a filesystem operation failed.
#[derive(Debug)]
pub enum FsError {
    /// The source of a copy does not exist or is not a directory.
    NotFound,
}

/// The modeled filesystem: a finite map from paths to nodes.
pub struct FsModel {
    entries: Vec<FsEntry>,
}

impl View for FsModel {
    type V = Map<Seq<Seq<char>>, Option<Seq<u8>>>;

    closed spec fn view(&self) -> Map<Seq<Seq<char>>, Option<Seq<u8>>> {
        fs_map(self.entries@)
    }
}

impl FsModel {
    /// Entries name pairwise-distinct paths.
    pub closed spec fn wf(&self) -> bool {
        fs_distinct(self.entries@)
    }

    pub fn new() -> (r: FsModel)
        ensures
            r.wf(),
            r@ == Map::<Seq<Seq<char>>, Option<Seq<u8>>>::empty(),
    {
        FsModel { entries: Vec::new() }
    }

    fn find_index(&self, p: &Vec<String>) -> (r: Option<usize>)
        ensures
            match r {
                Some(i) => i < self.entries@.len() && entry_key(self.entries@[i as int])
                    == path_view(p@),
                None => forall|i: int|
                    0 <= i < self.entries@.len() ==> entry_key(self.entries@[i]) != path_view(p@),
            },
    {
        let n = self.entries.len();
        let mut i: usize = 0;
        while i < n
            invariant
                i <= n,
                n == self.entries@.len(),
                forall|j: int| 0 <= j < i ==> entry_key(self.entries@[j]) != path_view(p@),
            decreases n - i,
        {
            if path_eq(&self.entries[i].path, p) {
                return Some(i);
            }
            i += 1;
        }
        None
    }

    /// Whether anything exists at a path.
    pub fn contains_path(&self, p: &Vec<String>) -> (r: bool)
        ensures
            r == self@.contains_key(path_view(p@)),
    {
        let idx = self.find_index(p);
        proof {
            lemma_fs_map_contains(self.entries@, path_view(p@));
        }
        match idx {
            Some(i) => true,
            None => false,
        }
    }

    /// Whether a directory exists at a path.
    pub fn is_dir(&self, p: &Vec<String>) -> (r: bool)
        requires
            self.wf(),
        ensures
            r == (self@.contains_key(path_view(p@)) && self@[path_view(p@)] is None),
    {
        let idx = self.find_index(p);
        proof {
            lemma_fs_map_contains(self.entries@, path_view(p@));
        }
        match idx {
            Some(i) => {
                proof {
                    lemma_fs_map_index(self.entries@, i as int);
                }
                match &self.entries[i].node {
                    FsNode::Dir => true,
                    FsNode::File(c) => false,
                }
            },
            None => false,
        }
    }

    /// The contents of the file at a path, if a file is there.
    pub fn read(&self, p: &Vec<String>) -> (r: Option<Vec<u8>>)
        requires
            self.wf(),
        ensures
            match r {
                Some(data) => self@.contains_key(path_view(p@)) && self@[path_view(p@)]
                    == Some(data@),
                None => !self@.contains_key(path_view(p@)) || self@[path_view(p@)] is None,
            },
    {
        let idx = self.find_index(p);
        proof {
            lemma_fs_map_contains(self.entries@, path_view(p@));
        }
        match idx {
            Some(i) => {
                proof {
                    lemma_fs_map_index(self.entries@, i as int);
                }
                match &self.entries[i].node {
                    FsNode::Dir => None,
                    FsNode::File(c) => Some(slice_to_vec(c.as_slice())),
                }
            },
            None => None,
        }
    }

    /// Places a node at a path, overwriting whatever was there.  Storage
    /// positions of other entries stay put: keys keep their slot, and only
    /// the written path's node changes.
    fn set_node(&mut self, p: &Vec<String>, node: FsNode)
        requires
            old(self).wf(),
        ensures
            final(self).wf(),
            final(self)@ == old(self)@.insert(path_view(p@), node_view(node)),
            final(self).entries@.len() >= old(self).entries@.len(),
            forall|j: int|
                0 <= j < old(self).entries@.len() ==> entry_key(
                    #[trigger] final(self).entries@[j],
                ) == entry_key(old(self).entries@[j]),
            forall|j: int|
                0 <= j < old(self).entries@.len() && entry_key(old(self).entries@[j]) != path_view(
                    p@,
                ) ==> entry_val(#[trigger] final(self).entries@[j]) == entry_val(
                    old(self).entries@[j],
                ),
    {
        let ghost nv = node_view(node);
        let idx = self.find_index(p);
        let ghost s0 = self.entries@;
        let path = dup_path(p);
        let e = FsEntry { path, node };
        proof {
            assert(entry_key(e) == path_view(p@));
            assert(entry_val(e) == nv);
        }
        match idx {
            Some(i) => {
                let _ = self.entries.remove(i);
                self.entries.insert(i, e);
                proof {
                    assert(self.entries@ =~= s0.update(i as int, self.entries@[i as int]));
                    lemma_fs_distinct_update(s0, i as int, self.entries@[i as int]);
                    lemma_fs_map_update(s0, i as int, self.entries@[i as int]);
                }
            },
            None => {
                self.entries.push(e);
                proof {
                    lemma_fs_distinct_push(s0, self.entries@.last());
                    lemma_fs_map_push(s0, self.entries@.last());
                }
            },
        }
    }

    /// Writes a file, overwriting an existing one.
    pub fn write(&mut self, p: &Vec<String>, data: Vec<u8>)
        requires
            old(self).wf(),
        ensures
            final(self).wf(),
            final(self)@ == old(self)@.insert(path_view(p@), Some(data@)),
    {
        self.set_node(p, FsNode::File(data));
    }

    /// Creates the directory at `p` and every ancestor of it, leaving every
    /// existing entry untouched.
    pub fn create_dir_all(&mut self, p: &Vec<String>)
        requires
            old(self).wf(),
        ensures
            final(self).wf(),
            forall|k: Seq<Seq<char>>|
                final(self)@.contains_key(k) <==> old(self)@.contains_key(k) || (exists|l: int|
                    1 <= l <= p@.len() && k == path_view(p@).take(l)),
            forall|k: Seq<Seq<char>>| #[trigger]
                old(self)@.contains_key(k) ==> final(self)@[k] == old(self)@[k],
            forall|k: Seq<Seq<char>>|
                final(self)@.contains_key(k) && !old(self)@.contains_key(k) ==> final(self)@[k]
                    is None,
    {
        self.make_dirs(p);
    }

    /// `create_dir_all`, promising additionally that every stored entry
    /// keeps its slot, key and node: only missing directories are appended.
    fn make_dirs(&mut self, p: &Vec<String>)
        requires
            old(self).wf(),
        ensures
            final(self).wf(),
            forall|k: Seq<Seq<char>>|
                final(self)@.contains_key(k) <==> old(self)@.contains_key(k) || (exists|l: int|
                    1 <= l <= p@.len() && k == path_view(p@).take(l)),
            forall|k: Seq<Seq<char>>| #[trigger]
                old(self)@.contains_key(k) ==> final(self)@[k] == old(self)@[k],
            forall|k: Seq<Seq<char>>|
                final(self)@.contains_key(k) && !old(self)@.contains_key(k) ==> final(self)@[k]
                    is None,
            final(self).entries@.len() >= old(self).entries@.len(),
            forall|j: int|
                0 <= j < old(self).entries@.len() ==> entry_key(
                    #[trigger] final(self).entries@[j],
                ) == entry_key(old(self).entries@[j]) && entry_val(final(self).entries@[j])
                    == entry_val(old(self).entries@[j]),
    {
        let ghost m0 = self@;
        let ghost e0 = self.entries@;
        let ghost pv = path_view(p@);
        let mut acc: Vec<String> = Vec::new();
        let mut i: usize = 0;
        while i < p.len()
            invariant
                i <= p@.len(),
                pv == path_view(p@),
                self.wf(),
                acc@.len() == i,
                forall|j: int| 0 <= j < i ==> acc@[j]@ == p@[j]@,
                forall|k: Seq<Seq<char>>|
                    self@.contains_key(k) <==> m0.contains_key(k) || (exists|l: int|
                        1 <= l <= i && k == pv.take(l)),
                forall|k: Seq<Seq<char>>| #[trigger]
                    m0.contains_key(k) ==> self@.contains_key(k) && self@[k] == m0[k],
                forall|k: Seq<Seq<char>>|
                    self@.contains_key(k) && !m0.contains_key(k) ==> self@[k] is None,
                self.entries@.len() >= e0.len(),
                forall|j: int|
                    0 <= j < e0.len() ==> entry_key(#[trigger] self.entries@[j]) == entry_key(
                        e0[j],
                    ) && entry_val(self.entries@[j]) == entry_val(e0[j]),
            decreases p@.len() - i,
        {
            acc.push(p[i].clone());
            proof {
                assert(path_view(acc@) =~= pv.take(i + 1));
            }
            let ghost mid = self@;
            let ghost emid = self.entries@;
            if !self.contains_path(&acc) {
                proof {
                    assert forall|j: int| 0 <= j < emid.len() implies entry_key(
                        #[trigger] emid[j],
                    ) != pv.take(i + 1) by {
                        lemma_fs_map_index(emid, j);
                    }
                }
                self.set_node(&acc, FsNode::Dir);
                proof {
                    assert(self@ == mid.insert(pv.take(i + 1), None));
                }
            }
            proof {
                assert forall|k: Seq<Seq<char>>| self@.contains_key(k) implies (m0.contains_key(k)
                    || (exists|l: int| 1 <= l <= i + 1 && k == pv.take(l))) by {
                    if k != pv.take(i + 1) {
                        assert(mid.contains_key(k));
                    } else {
                        assert(1 <= i + 1 <= i + 1 && k == pv.take(i + 1));
                    }
                }
                assert forall|k: Seq<Seq<char>>|
                    m0.contains_key(k) || (exists|l: int|
                        1 <= l <= i + 1 && k == pv.take(l)) implies self@.contains_key(k) by {
                    if m0.contains_key(k) {
                        assert(mid.contains_key(k));
                    } else {
                        let l = choose|l: int| 1 <= l <= i + 1 && k == pv.take(l);
                        if l <= i {
                            assert(mid.contains_key(k));
                        }
                    }
                }
            }
            i += 1;
        }
        proof {
            assert(pv.take(p@.len() as int) =~= pv);
        }
    }

    /// The index of some entry at `p` or strictly inside it, if any.
    fn find_under_index(&self, p: &Vec<String>) -> (r: Option<usize>)
        ensures
            match r {
                Some(i) => i < self.entries@.len() && (entry_key(self.entries@[i as int])
                    == path_view(p@) || strict_under(
                    path_view(p@),
                    entry_key(self.entries@[i as int]),
                )),
                None => forall|i: int|
                    0 <= i < self.entries@.len() ==> !(entry_key(#[trigger] self.entries@[i])
                        == path_view(p@) || strict_under(path_view(p@), entry_key(
                        self.entries@[i],
                    ))),
            },
    {
        let n = self.entries.len();
        let mut i: usize = 0;
        while i < n
            invariant
                i <= n,
                n == self.entries@.len(),
                forall|j: int|
                    0 <= j < i ==> !(entry_key(#[trigger] self.entries@[j]) == path_view(p@)
                        || strict_under(path_view(p@), entry_key(self.entries@[j]))),
            decreases n - i,
        {
            if path_eq(&self.entries[i].path, p) || path_strictly_under(
                p,
                &self.entries[i].path,
            ) {
                return Some(i);
            }
            i += 1;
        }
        None
    }

    /// Removes the entry at `p` and everything strictly inside it.
    #[verifier::rlimit(60)]
    pub fn remove_subtree(&mut self, p: &Vec<String>)
        requires
            old(self).wf(),
        ensures
            final(self).wf(),
            forall|k: Seq<Seq<char>>| #[trigger]
                final(self)@.contains_key(k) ==> old(self)@.contains_key(k) && !(k == path_view(
                    p@,
                ) || strict_under(path_view(p@), k)),
            forall|k: Seq<Seq<char>>| #[trigger]
                old(self)@.contains_key(k) && !(k == path_view(p@) || strict_under(
                    path_view(p@),
                    k,
                )) ==> final(self)@.contains_key(k),
            forall|k: Seq<Seq<char>>| #[trigger]
                final(self)@.contains_key(k) ==> final(self)@[k] == old(self)@[k],
            !final(self)@.contains_key(path_view(p@)),
    {
        let ghost m0 = old(self)@;
        let ghost pv = path_view(p@);
        let mut done = false;
        while !done
            invariant
                self.wf(),
                pv == path_view(p@),
                forall|k: Seq<Seq<char>>| #[trigger]
                    self@.contains_key(k) ==> m0.contains_key(k) && self@[k] == m0[k],
                forall|k: Seq<Seq<char>>| #[trigger]
                    m0.contains_key(k) && !(k == pv || strict_under(pv, k)) ==> self@.contains_key(
                        k,
                    ),
                done ==> forall|i: int|
                    0 <= i < self.entries@.len() ==> !(entry_key(#[trigger] self.entries@[i]) == pv
                        || strict_under(pv, entry_key(self.entries@[i]))),
            decreases self.entries@.len(), (if done { 0int } else { 1int }),
        {
            let idx = self.find_under_index(p);
            match idx {
                None => {
                    done = true;
                },
                Some(i) => {
                    let ghost s1 = self.entries@;
                    let ghost m1 = self@;
                    let ghost rk = entry_key(s1[i as int]);
                    proof {
                        lemma_fs_map_index(s1, i as int);
                        lemma_fs_map_remove(s1, i as int);
                        lemma_fs_distinct_remove(s1, i as int);
                    }
                    let _ = self.entries.remove(i);
                    proof {
                        assert(self.entries@ == s1.remove(i as int));
                        assert(self@ == m1.remove(rk));
                        assert(rk == pv || strict_under(pv, rk));
                        assert forall|k: Seq<Seq<char>>| #[trigger]
                            self@.contains_key(k) implies m0.contains_key(k) && self@[k]
                            == m0[k] by {
                            assert(m1.contains_key(k) && k != rk);
                            assert(self@[k] == m1[k]);
                        }
                        assert forall|k: Seq<Seq<char>>| #[trigger]
                            m0.contains_key(k) && !(k == pv || strict_under(pv, k))
                            implies self@.contains_key(k) by {
                            assert(m1.contains_key(k));
                            assert(k != rk);
                        }
                    }
                },
            }
        }
        proof {
            assert forall|k: Seq<Seq<char>>| #![trigger self@.contains_key(k)]
                self@.contains_key(k) == (m0.contains_key(k) && !(k == pv || strict_under(
                pv,
                k,
            ))) by {
                if self@.contains_key(k) {
                    lemma_fs_map_contains(self.entries@, k);
                    let i = choose|i: int|
                        0 <= i < self.entries@.len() && entry_key(self.entries@[i]) == k;
                    assert(!(entry_key(self.entries@[i]) == pv || strict_under(
                        pv,
                        entry_key(self.entries@[i]),
                    )));
                }
            }
            assert(!self@.contains_key(pv));
        }
    }

    /// Copies the tree under `src` into `dst`: the destination directory
    /// and its ancestors are created, every entry strictly inside the
    /// source appears at the corresponding path inside the destination with
    /// the same node, existing destination entries are overwritten, and
    /// everything else keeps its node.  An empty source yields the empty
    /// destination directory and nothing below it.  Fails, changing
    /// nothing, when no directory is at `src`.
    #[verifier::rlimit(60)]
    pub fn copy_dir_all(&mut self, src: &Vec<String>, dst: &Vec<String>) -> (r: Result<
        (),
        FsError,
    >)
        requires
            old(self).wf(),
            !strict_under(path_view(src@), path_view(dst@)),
            !strict_under(path_view(dst@), path_view(src@)),
            path_view(src@) != path_view(dst@),
        ensures
            final(self).wf(),
            r is Ok <==> old(self)@.contains_key(path_view(src@)) && old(self)@[path_view(src@)]
                is None,
            r is Err ==> final(self)@ == old(self)@,
            r is Ok ==> copied(old(self)@, final(self)@, path_view(src@), path_view(dst@)),
    {
        let ghost srcv = path_view(src@);
        let ghost dstv = path_view(dst@);
        let ghost m0 = self@;
        let ghost s0 = self.entries@;
        if !self.is_dir(src) {
            return Err(FsError::NotFound);
        }
        let n = self.entries.len();
        self.make_dirs(dst);
        let ghost m1 = self@;
        let mut x: usize = 0;
        while x < n
            invariant
                x <= n,
                n == s0.len(),
                self.wf(),
                fs_distinct(s0),
                m0 == fs_map(s0),
                srcv == path_view(src@),
                dstv == path_view(dst@),
                src@.len() == srcv.len(),
                !strict_under(srcv, dstv),
                !strict_under(dstv, srcv),
                srcv != dstv,
                self.entries@.len() >= n,
                forall|j: int|
                    0 <= j < n ==> entry_key(#[trigger] self.entries@[j]) == entry_key(s0[j]),
                forall|j: int|
                    0 <= j < n && strict_under(srcv, entry_key(#[trigger] s0[j])) ==> entry_val(
                        self.entries@[j],
                    ) == entry_val(s0[j]),
                forall|j: int|
                    0 <= j < x && strict_under(srcv, entry_key(#[trigger] s0[j]))
                        ==> self@.contains_key(dstv + entry_key(s0[j]).skip(srcv.len() as int))
                        && self@[dstv + entry_key(s0[j]).skip(srcv.len() as int)] == entry_val(
                        s0[j],
                    ),
                forall|k: Seq<Seq<char>>| #[trigger]
                    self@.contains_key(k) ==> m1.contains_key(k) || (strict_under(dstv, k)
                        && m0.contains_key(srcv + k.skip(dstv.len() as int))),
                forall|k: Seq<Seq<char>>| #[trigger] m1.contains_key(k) ==> self@.contains_key(k),
                forall|k: Seq<Seq<char>>| #[trigger]
                    m1.contains_key(k) && !(strict_under(dstv, k) && m0.contains_key(
                        srcv + k.skip(dstv.len() as int),
                    )) ==> self@[k] == m1[k],
            decreases n - x,
        {
            let under = path_strictly_under(src, &self.entries[x].path);
            if under {
                let rel = path_tail(&self.entries[x].path, src.len());
                let target = path_append(dst, &rel);
                let node = match &self.entries[x].node {
                    FsNode::Dir => FsNode::Dir,
                    FsNode::File(c) => FsNode::File(slice_to_vec(c.as_slice())),
                };
                let ghost tv = path_view(target@);
                let ghost mp = self@;
                proof {
                    assert(entry_key(self.entries@[x as int]) == entry_key(s0[x as int]));
                    assert(tv == dstv + entry_key(s0[x as int]).skip(srcv.len() as int));
                    assert(strict_under(dstv, tv)) by {
                        assert(tv.take(dstv.len() as int) =~= dstv);
                        assert(entry_key(s0[x as int]).skip(srcv.len() as int).len() >= 1);
                    }
                    assert(node_view(node) == entry_val(self.entries@[x as int]));
                    assert(node_view(node) == entry_val(s0[x as int]));
                    assert(tv.skip(dstv.len() as int) =~= entry_key(s0[x as int]).skip(
                        srcv.len() as int,
                    ));
                    assert(srcv + tv.skip(dstv.len() as int) =~= entry_key(s0[x as int]));
                    lemma_fs_map_index(s0, x as int);
                    assert(m0.contains_key(srcv + tv.skip(dstv.len() as int)));
                }
                self.set_node(&target, node);
                proof {
                    assert(self@ == mp.insert(tv, entry_val(s0[x as int])));
                    // earlier targets are untouched: distinct sources give
                    // distinct targets
                    assert forall|j: int|
                        0 <= j < x + 1 && strict_under(srcv, entry_key(#[trigger] s0[j]))
                            implies self@.contains_key(
                            dstv + entry_key(s0[j]).skip(srcv.len() as int),
                        ) && self@[dstv + entry_key(s0[j]).skip(srcv.len() as int)] == entry_val(
                            s0[j],
                        ) by {
                        let t = dstv + entry_key(s0[j]).skip(srcv.len() as int);
                        if j == x {
                            assert(t == tv);
                        } else if t == tv {
                            assert(entry_key(s0[j]) =~= srcv + entry_key(s0[j]).skip(
                                srcv.len() as int,
                            ));
                            assert(entry_key(s0[x as int]) =~= srcv + entry_key(
                                s0[x as int],
                            ).skip(srcv.len() as int));
                            assert(entry_key(s0[j]).skip(srcv.len() as int) =~= t.skip(
                                dstv.len() as int,
                            ));
                            assert(entry_key(s0[j]) == entry_key(s0[x as int]));
                            assert(false);
                        }
                    }
                    // positions inside the source region keep their node:
                    // the written key lies under `dst`, never under `src`
                    assert forall|j: int|
                        0 <= j < n && strict_under(srcv, entry_key(#[trigger] s0[j]))
                            implies entry_val(self.entries@[j]) == entry_val(s0[j]) by {
                        if entry_key(s0[j]) == tv {
                            lemma_disjoint_prefixes(srcv, dstv, tv);
                        }
                    }
                }
            }
            x += 1;
        }
        proof {
            lemma_copy_post(m0, m1, self@, s0, srcv, dstv);
        }
        Ok(())
    }

    /// Installs a tree of entries under `base`: the base directory and its
    /// ancestors are created, each entry appears at `base` extended by its
    /// (relative, nonempty, pairwise-distinct) path, and everything else
    /// keeps its node.
    #[verifier::rlimit(60)]
    pub fn install_tree(&mut self, base: &Vec<String>, entries: &Vec<FsEntry>)
        requires
            old(self).wf(),
            fs_distinct(entries@),
            forall|j: int| 0 <= j < entries@.len() ==> entry_key(#[trigger] entries@[j]).len() >= 1,
        ensures
            final(self).wf(),
            installed(old(self)@, final(self)@, path_view(base@), entries@),
    {
        let ghost basev = path_view(base@);
        let ghost m0 = self@;
        let ghost es = entries@;
        self.make_dirs(base);
        let ghost m1 = self@;
        let n = entries.len();
        let mut j: usize = 0;
        while j < n
            invariant
                j <= n,
                n == es.len(),
                entries@ == es,
                fs_distinct(es),
                forall|y: int| 0 <= y < es.len() ==> entry_key(#[trigger] es[y]).len() >= 1,
                self.wf(),
                basev == path_view(base@),
                base@.len() == basev.len(),
                forall|y: int|
                    0 <= y < j ==> self@.contains_key(basev + entry_key(#[trigger] es[y]))
                        && self@[basev + entry_key(es[y])] == entry_val(es[y]),
                forall|k: Seq<Seq<char>>| #[trigger]
                    self@.contains_key(k) ==> m1.contains_key(k) || (strict_under(basev, k)
                        && has_rel_key(es, k.skip(basev.len() as int))),
                forall|k: Seq<Seq<char>>| #[trigger] m1.contains_key(k) ==> self@.contains_key(k),
                forall|k: Seq<Seq<char>>| #[trigger]
                    m1.contains_key(k) && !(strict_under(basev, k) && has_rel_key(
                        es,
                        k.skip(basev.len() as int),
                    )) ==> self@[k] == m1[k],
            decreases n - j,
        {
            let target = path_append(base, &entries[j].path);
            let node = match &entries[j].node {
                FsNode::Dir => FsNode::Dir,
                FsNode::File(c) => FsNode::File(slice_to_vec(c.as_slice())),
            };
            let ghost tv = path_view(target@);
            let ghost mp = self@;
            proof {
                assert(tv == basev + entry_key(es[j as int]));
                assert(strict_under(basev, tv)) by {
                    assert(tv.take(basev.len() as int) =~= basev);
                }
                assert(tv.skip(basev.len() as int) =~= entry_key(es[j as int]));
                assert(has_rel_key(es, tv.skip(basev.len() as int)));
                assert(node_view(node) == entry_val(es[j as int]));
            }
            self.set_node(&target, node);
            proof {
                assert(self@ == mp.insert(tv, entry_val(es[j as int])));
                assert forall|y: int|
                    0 <= y < j + 1 implies self@.contains_key(
                    basev + entry_key(#[trigger] es[y]),
                ) && self@[basev + entry_key(es[y])] == entry_val(es[y]) by {
                    let t = basev + entry_key(es[y]);
                    if y == j {
                        assert(t == tv);
                    } else if t == tv {
                        assert(entry_key(es[y]) =~= t.skip(basev.len() as int));
                        assert(entry_key(es[y]) == entry_key(es[j as int]));
                        assert(false);
                    }
                }
            }
            j += 1;
        }
        proof {
            assert forall|l: int| 1 <= l <= basev.len() implies self@.contains_key(
                #[trigger] basev.take(l),
            ) by {
                assert(m1.contains_key(basev.take(l)));
            }
            assert forall|k: Seq<Seq<char>>| #[trigger] self@.contains_key(k) implies
                m0.contains_key(k) || (exists|l: int| 1 <= l <= basev.len() && k == basev.take(l))
                || (strict_under(basev, k) && has_rel_key(es, k.skip(basev.len() as int))) by {
                if m1.contains_key(k) {
                }
            }
            assert forall|k: Seq<Seq<char>>| #[trigger] m0.contains_key(k) implies
                self@.contains_key(k) by {
                assert(m1.contains_key(k));
            }
            assert forall|k: Seq<Seq<char>>| #[trigger]
                m0.contains_key(k) && !(strict_under(basev, k) && has_rel_key(
                es,
                k.skip(basev.len() as int),
            )) implies self@[k] == m0[k] by {
                assert(m1.contains_key(k));
                assert(m1[k] == m0[k]);
            }
            assert forall|k: Seq<Seq<char>>| #[trigger]
                self@.contains_key(k) && !m0.contains_key(k) && !(strict_under(basev, k)
                && has_rel_key(es, k.skip(basev.len() as int))) implies self@[k] is None by {
                assert(m1.contains_key(k));
                assert(m1[k] is None);
                assert(self@[k] == m1[k]);
            }
        }
    }
}

/// Some entry carries this relative path.
pub open spec fn has_rel_key(entries: Seq<FsEntry>, t: Seq<Seq<char>>) -> bool {
    exists|j: int| 0 <= j < entries.len() && entry_key(#[trigger] entries[j]) == t
}

/// What `install_tree` leaves behind: the base directory chain plus the
/// entries, over an otherwise unchanged filesystem.
pub open spec fn installed(
    m0: Map<Seq<Seq<char>>, Option<Seq<u8>>>,
    m2: Map<Seq<Seq<char>>, Option<Seq<u8>>>,
    basev: Seq<Seq<char>>,
    es: Seq<FsEntry>,
) -> bool {
    &&& forall|y: int|
        0 <= y < es.len() ==> m2.contains_key(basev + entry_key(#[trigger] es[y]))
            && m2[basev + entry_key(es[y])] == entry_val(es[y])
    &&& forall|l: int| 1 <= l <= basev.len() ==> m2.contains_key(#[trigger] basev.take(l))
    &&& forall|k: Seq<Seq<char>>| #[trigger]
        m2.contains_key(k) ==> m0.contains_key(k) || (exists|l: int|
            1 <= l <= basev.len() && k == basev.take(l)) || (strict_under(basev, k) && has_rel_key(
            es,
            k.skip(basev.len() as int),
        ))
    &&& forall|k: Seq<Seq<char>>| #[trigger]
        m0.contains_key(k) ==> m2.contains_key(k)
    &&& forall|k: Seq<Seq<char>>| #[trigger]
        m0.contains_key(k) && !(strict_under(basev, k) && has_rel_key(
            es,
            k.skip(basev.len() as int),
        )) ==> m2[k] == m0[k]
    &&& forall|k: Seq<Seq<char>>| #[trigger]
        m2.contains_key(k) && !m0.contains_key(k) && !(strict_under(basev, k) && has_rel_key(
            es,
            k.skip(basev.len() as int),
        )) ==> m2[k] is None
}

/// What a successful `copy_dir_all` leaves behind.
pub open spec fn copied(
    m0: Map<Seq<Seq<char>>, Option<Seq<u8>>>,
    m2: Map<Seq<Seq<char>>, Option<Seq<u8>>>,
    srcv: Seq<Seq<char>>,
    dstv: Seq<Seq<char>>,
) -> bool {
    &&& forall|k: Seq<Seq<char>>| #[trigger]
        m0.contains_key(k) && strict_under(srcv, k) ==> m2.contains_key(
            dstv + k.skip(srcv.len() as int),
        ) && m2[dstv + k.skip(srcv.len() as int)] == m0[k]
    &&& forall|l: int| 1 <= l <= dstv.len() ==> m2.contains_key(#[trigger] dstv.take(l))
    &&& forall|k: Seq<Seq<char>>| #[trigger]
        m2.contains_key(k) ==> m0.contains_key(k) || (exists|l: int|
            1 <= l <= dstv.len() && k == dstv.take(l)) || (strict_under(dstv, k)
            && m0.contains_key(srcv + k.skip(dstv.len() as int)))
    &&& forall|k: Seq<Seq<char>>| #[trigger]
        m0.contains_key(k) ==> m2.contains_key(k)
    &&& forall|k: Seq<Seq<char>>| #[trigger]
        m2.contains_key(k) && strict_under(dstv, k) && m0.contains_key(
            srcv + k.skip(dstv.len() as int),
        ) ==> m2[k] == m0[srcv + k.skip(dstv.len() as int)]
    &&& forall|k: Seq<Seq<char>>| #[trigger]
        m0.contains_key(k) && !(strict_under(dstv, k) && m0.contains_key(
            srcv + k.skip(dstv.len() as int),
        )) ==> m2[k] == m0[k]
}

/// A path cannot lie strictly inside two disjoint directories.
proof fn lemma_disjoint_prefixes(srcv: Seq<Seq<char>>, dstv: Seq<Seq<char>>, k: Seq<Seq<char>>)
    requires
        !strict_under(srcv, dstv),
        !strict_under(dstv, srcv),
        srcv != dstv,
    ensures
        !(strict_under(srcv, k) && strict_under(dstv, k)),
{
    if strict_under(srcv, k) && strict_under(dstv, k) {
        if srcv.len() < dstv.len() {
            assert(dstv.take(srcv.len() as int) =~= srcv);
        } else if dstv.len() < srcv.len() {
            assert(srcv.take(dstv.len() as int) =~= dstv);
        } else {
            assert(srcv =~= dstv);
        }
    }
}

/// Turns the loop facts of `copy_dir_all` into its postcondition.
#[verifier::rlimit(100)]
#[verifier::spinoff_prover]
proof fn lemma_copy_post(
    m0: Map<Seq<Seq<char>>, Option<Seq<u8>>>,
    m1: Map<Seq<Seq<char>>, Option<Seq<u8>>>,
    m2: Map<Seq<Seq<char>>, Option<Seq<u8>>>,
    s0: Seq<FsEntry>,
    srcv: Seq<Seq<char>>,
    dstv: Seq<Seq<char>>,
)
    requires
        fs_distinct(s0),
        m0 == fs_map(s0),
        // make_dirs facts
        forall|k: Seq<Seq<char>>|
            m1.contains_key(k) <==> m0.contains_key(k) || (exists|l: int|
                1 <= l <= dstv.len() && k == dstv.take(l)),
        forall|k: Seq<Seq<char>>| #[trigger] m0.contains_key(k) ==> m1[k] == m0[k],
        forall|k: Seq<Seq<char>>|
            m1.contains_key(k) && !m0.contains_key(k) ==> m1[k] is None,
        // loop facts
        forall|j: int|
            0 <= j < s0.len() && strict_under(srcv, entry_key(#[trigger] s0[j]))
                ==> m2.contains_key(dstv + entry_key(s0[j]).skip(srcv.len() as int))
                && m2[dstv + entry_key(s0[j]).skip(srcv.len() as int)] == entry_val(s0[j]),
        forall|k: Seq<Seq<char>>| #[trigger]
            m2.contains_key(k) ==> m1.contains_key(k) || (strict_under(dstv, k)
                && m0.contains_key(srcv + k.skip(dstv.len() as int))),
        forall|k: Seq<Seq<char>>| #[trigger] m1.contains_key(k) ==> m2.contains_key(k),
        forall|k: Seq<Seq<char>>| #[trigger]
            m1.contains_key(k) && !(strict_under(dstv, k) && m0.contains_key(
                srcv + k.skip(dstv.len() as int),
            )) ==> m2[k] == m1[k],
    ensures
        copied(m0, m2, srcv, dstv),
{
    assert forall|k: Seq<Seq<char>>| #[trigger]
        m0.contains_key(k) && strict_under(srcv, k) implies m2.contains_key(
        dstv + k.skip(srcv.len() as int),
    ) && m2[dstv + k.skip(srcv.len() as int)] == m0[k] by {
        lemma_fs_map_contains(s0, k);
        let j = choose|j: int| 0 <= j < s0.len() && entry_key(s0[j]) == k;
        lemma_fs_map_index(s0, j);
    }
    assert forall|k: Seq<Seq<char>>| #[trigger]
        m2.contains_key(k) && strict_under(dstv, k) && m0.contains_key(
        srcv + k.skip(dstv.len() as int),
    ) implies m2[k] == m0[srcv + k.skip(dstv.len() as int)] by {
        let sk = srcv + k.skip(dstv.len() as int);
        lemma_fs_map_contains(s0, sk);
        let j = choose|j: int| 0 <= j < s0.len() && entry_key(s0[j]) == sk;
        lemma_fs_map_index(s0, j);
        assert(strict_under(srcv, sk)) by {
            assert(sk.take(srcv.len() as int) =~= srcv);
        }
        assert(dstv + sk.skip(srcv.len() as int) =~= k);
        assert(dstv + entry_key(s0[j]).skip(srcv.len() as int) == k);
    }
    assert forall|k: Seq<Seq<char>>| #[trigger]
        m0.contains_key(k) && !(strict_under(dstv, k) && m0.contains_key(
        srcv + k.skip(dstv.len() as int),
    )) implies m2[k] == m0[k] by {
        assert(m1.contains_key(k));
        assert(m1[k] == m0[k]);
    }
    assert forall|l: int| 1 <= l <= dstv.len() implies m2.contains_key(
        #[trigger] dstv.take(l),
    ) by {
        assert(m1.contains_key(dstv.take(l)));
    }
    assert forall|k: Seq<Seq<char>>| #[trigger] m2.contains_key(k) implies m0.contains_key(k) || (
    exists|l: int| 1 <= l <= dstv.len() && k == dstv.take(l)) || (strict_under(dstv, k)
        && m0.contains_key(srcv + k.skip(dstv.len() as int))) by {
        if m1.contains_key(k) {
        }
    }
    assert forall|k: Seq<Seq<char>>| #[trigger] m0.contains_key(k) implies m2.contains_key(k) by {
        assert(m1.contains_key(k));
    }
}

} // verus!
