//! The invocation table: a mapping from instance id to live handler.
//!
//! Each entry records the handler's socket URL and the time of its last
//! access.  `get` touches the entry; `peek` does not and serves the reaper.
//! The table holds the pure map; loading and destroying the underlying
//! container happens outside it, so that no lock need be held across
//! container I/O.

use vstd::prelude::*;
use vstd::string::*;
use crate::assoc::{
    assoc_map, distinct_keys, lemma_assoc_map_contains, lemma_assoc_map_index,
    lemma_assoc_map_push, lemma_assoc_map_remove, lemma_assoc_map_update, lemma_distinct_push,
    lemma_distinct_remove, lemma_distinct_update,
};

verus! {

/// A live (or recently live) handler: its socket URL and when it was last
/// handed out.  Times are caller-supplied milliseconds.
pub struct Invocation {
    pub url: String,
    pub last_accessed: u64,
}

impl Invocation {
    /// A field-for-field copy.
    pub fn duplicate(&self) -> (r: Invocation)
        ensures
            r == *self,
    {
        Invocation { url: self.url.clone(), last_accessed: self.last_accessed }
    }
}

/// The table of invocations, keyed by instance id.
pub struct FunctionInvocations {
    entries: Vec<(String, Invocation)>,
}

impl View for FunctionInvocations {
    type V = Map<Seq<char>, Invocation>;

    closed spec fn view(&self) -> Map<Seq<char>, Invocation> {
        assoc_map(self.entries@)
    }
}

impl FunctionInvocations {
    /// Keys are pairwise distinct, so the entry vector denotes its map
    /// faithfully.
    pub closed spec fn wf(&self) -> bool {
        distinct_keys(self.entries@)
    }

    /// The keys currently in the table, in storage order.
    pub closed spec fn spec_keys(&self) -> Seq<Seq<char>> {
        self.entries@.map(|i: int, p: (String, Invocation)| p.0@)
    }

    pub fn new() -> (r: FunctionInvocations)
        ensures
            r.wf(),
            r@ == Map::<Seq<char>, Invocation>::empty(),
    {
        FunctionInvocations { entries: Vec::new() }
    }

    /// The index of the entry holding `instance_id`, if any.
    fn find_index(&self, instance_id: &str) -> (r: Option<usize>)
        ensures
            match r {
                Some(i) => i < self.entries@.len() && self.entries@[i as int].0@ == instance_id@,
                None => forall|i: int|
                    0 <= i < self.entries@.len() ==> self.entries@[i].0@ != instance_id@,
            },
    {
        let key: String = instance_id.to_owned();
        let n = self.entries.len();
        let mut i: usize = 0;
        while i < n
            invariant
                i <= n,
                n == self.entries@.len(),
                key@ == instance_id@,
                forall|j: int| 0 <= j < i ==> self.entries@[j].0@ != instance_id@,
            decreases n - i,
        {
            if self.entries[i].0 == key {
                return Some(i);
            }
            i += 1;
        }
        None
    }

    /// Looks an invocation up; when `touch` holds, stamps it with `now`.
    pub fn get_internal(&mut self, instance_id: &str, touch: bool, now: u64) -> (r: Option<
        Invocation,
    >)
        requires
            old(self).wf(),
        ensures
            final(self).wf(),
            r is Some <==> old(self)@.contains_key(instance_id@),
            match r {
                Some(inv) => {
                    &&& inv.url == old(self)@[instance_id@].url
                    &&& inv.last_accessed == if touch {
                        now
                    } else {
                        old(self)@[instance_id@].last_accessed
                    }
                    &&& final(self)@ == old(self)@.insert(instance_id@, inv)
                },
                None => final(self)@ == old(self)@,
            },
    {
        let idx = self.find_index(instance_id);
        match idx {
            Some(i) => {
                proof {
                    lemma_assoc_map_contains(self.entries@, instance_id@);
                    lemma_assoc_map_index(self.entries@, i as int);
                }
                if touch {
                    let ghost s0 = self.entries@;
                    let mut pair = self.entries.remove(i);
                    pair.1.last_accessed = now;
                    let result = pair.1.duplicate();
                    self.entries.insert(i, pair);
                    proof {
                        assert(self.entries@ =~= s0.update(i as int, (s0[i as int].0, result)));
                        lemma_distinct_update(s0, i as int, (s0[i as int].0, result));
                        lemma_assoc_map_update(s0, i as int, (s0[i as int].0, result));
                    }
                    Some(result)
                } else {
                    let result = self.entries[i].1.duplicate();
                    proof {
                        assert(old(self)@.insert(instance_id@, result) =~= old(self)@);
                    }
                    Some(result)
                }
            },
            None => {
                proof {
                    lemma_assoc_map_contains(self.entries@, instance_id@);
                }
                None
            },
        }
    }

    /// Looks up and touches: the entry's `last_accessed` becomes `now`.
    pub fn get(&mut self, instance_id: &str, now: u64) -> (r: Option<Invocation>)
        requires
            old(self).wf(),
        ensures
            final(self).wf(),
            r is Some <==> old(self)@.contains_key(instance_id@),
            match r {
                Some(inv) => {
                    &&& inv.url == old(self)@[instance_id@].url
                    &&& inv.last_accessed == now
                    &&& final(self)@ == old(self)@.insert(instance_id@, inv)
                },
                None => final(self)@ == old(self)@,
            },
    {
        self.get_internal(instance_id, true, now)
    }

    /// Looks up without touching.  Used by the reaper.
    pub fn peek(&self, instance_id: &str) -> (r: Option<Invocation>)
        requires
            self.wf(),
        ensures
            r is Some <==> self@.contains_key(instance_id@),
            match r {
                Some(inv) => inv == self@[instance_id@],
                None => true,
            },
    {
        let idx = self.find_index(instance_id);
        match idx {
            Some(i) => {
                proof {
                    lemma_assoc_map_contains(self.entries@, instance_id@);
                    lemma_assoc_map_index(self.entries@, i as int);
                }
                Some(self.entries[i].1.duplicate())
            },
            None => {
                proof {
                    lemma_assoc_map_contains(self.entries@, instance_id@);
                }
                None
            },
        }
    }

    /// A snapshot of the current keys.
    pub fn keys(&self) -> (r: Vec<String>)
        requires
            self.wf(),
        ensures
            r@.len() == self.spec_keys().len(),
            forall|i: int| 0 <= i < r@.len() ==> r@[i]@ == self.spec_keys()[i],
            forall|k: Seq<char>|
                self@.contains_key(k) <==> exists|i: int| 0 <= i < r@.len() && r@[i]@ == k,
    {
        let n = self.entries.len();
        let mut r: Vec<String> = Vec::new();
        let mut i: usize = 0;
        while i < n
            invariant
                i <= n,
                n == self.entries@.len(),
                r@.len() == i,
                forall|j: int| 0 <= j < i ==> r@[j]@ == self.spec_keys()[j],
            decreases n - i,
        {
            r.push(self.entries[i].0.clone());
            i += 1;
        }
        proof {
            assert forall|k: Seq<char>| self@.contains_key(k) implies exists|i: int|
                0 <= i < r@.len() && r@[i]@ == k by {
                lemma_assoc_map_contains(self.entries@, k);
                let i = choose|i: int| 0 <= i < self.entries@.len() && self.entries@[i].0@ == k;
                assert(self.spec_keys()[i] == self.entries@[i].0@);
                assert(r@[i]@ == k);
            }
            assert forall|k: Seq<char>|
                exists|i: int| 0 <= i < r@.len() && r@[i]@ == k implies self@.contains_key(k) by {
                let i = choose|i: int| 0 <= i < r@.len() && r@[i]@ == k;
                lemma_assoc_map_contains(self.entries@, k);
                assert(self.spec_keys()[i] == self.entries@[i].0@);
                assert(self.entries@[i].0@ == k);
            }
        }
        r
    }

    /// Inserts a handler, overwriting any entry under the same id, and
    /// returns the new entry.  A later insert under one id wins.
    pub fn insert(&mut self, instance_id: String, url: String, now: u64) -> (r: Invocation)
        requires
            old(self).wf(),
        ensures
            final(self).wf(),
            r.url == url,
            r.last_accessed == now,
            final(self)@ == old(self)@.insert(instance_id@, r),
            final(self)@.contains_key(instance_id@),
    {
        let inv = Invocation { url, last_accessed: now };
        let result = inv.duplicate();
        let idx = self.find_index(instance_id.as_str());
        let ghost s0 = self.entries@;
        match idx {
            Some(i) => {
                let _ = self.entries.remove(i);
                self.entries.insert(i, (instance_id, inv));
                proof {
                    assert(self.entries@ =~= s0.update(i as int, self.entries@[i as int]));
                    lemma_distinct_update(s0, i as int, self.entries@[i as int]);
                    lemma_assoc_map_update(s0, i as int, self.entries@[i as int]);
                }
            },
            None => {
                self.entries.push((instance_id, inv));
                proof {
                    lemma_distinct_push(s0, self.entries@.last());
                    lemma_assoc_map_push(s0, self.entries@.last());
                }
            },
        }
        result
    }

    /// Removes the entry for an id, returning it so the caller can destroy
    /// the underlying container outside the table.  Removing an absent id
    /// is a no-op.
    pub fn delete(&mut self, instance_id: &str) -> (r: Option<Invocation>)
        requires
            old(self).wf(),
        ensures
            final(self).wf(),
            r is Some <==> old(self)@.contains_key(instance_id@),
            match r {
                Some(inv) => inv == old(self)@[instance_id@],
                None => true,
            },
            final(self)@ == old(self)@.remove(instance_id@),
            !final(self)@.contains_key(instance_id@),
    {
        let idx = self.find_index(instance_id);
        let ghost s0 = self.entries@;
        match idx {
            Some(i) => {
                proof {
                    lemma_assoc_map_contains(s0, instance_id@);
                    lemma_assoc_map_index(s0, i as int);
                    lemma_distinct_remove(s0, i as int);
                    lemma_assoc_map_remove(s0, i as int);
                }
                let pair = self.entries.remove(i);
                Some(pair.1)
            },
            None => {
                proof {
                    lemma_assoc_map_contains(s0, instance_id@);
                    assert(old(self)@.remove(instance_id@) =~= old(self)@);
                }
                None
            },
        }
    }
}

/// Inserting twice under one id leaves the second entry: for any table map,
/// an insert overwrites an earlier insert of the same id, so a lookup after
/// both sees the second URL.
pub proof fn law_insert_overwrites(
    m: Map<Seq<char>, Invocation>,
    id: Seq<char>,
    first: Invocation,
    second: Invocation,
)
    ensures
        m.insert(id, first).insert(id, second)[id] == second,
        m.insert(id, first).insert(id, second).contains_key(id),
{
}

} // verus!
