//! The background reaper.
//!
//! A periodic job scans the invocation table and evicts every invocation
//! whose idle age exceeds the configured TTL.  The cadence and TTL come
//! from `BackgroundConfig`; the unverified shell sleeps between cycles and
//! observes a cancellation token, calling one cycle at a time.

use vstd::prelude::*;
use crate::errors::WorkerError;
use crate::worker::NativeWorker;

verus! {

/// The idle age of an invocation: elapsed time since its last access,
/// never negative.
pub open spec fn age_of(now: u64, last_accessed: u64) -> int {
    if now >= last_accessed {
        now - last_accessed
    } else {
        0
    }
}

/// Whether an invocation has idled past the TTL.
pub open spec fn is_expired(now: u64, last_accessed: u64, resource_ttl: u64) -> bool {
    age_of(now, last_accessed) > resource_ttl
}

/// One reaper step for one instance: evicts it exactly when its idle age
/// exceeds the TTL, and otherwise changes nothing.
pub fn execute(
    worker: &mut NativeWorker,
    instance_id: &str,
    resource_ttl: u64,
    now: u64,
) -> (r: Result<(), WorkerError>)
    requires
        old(worker).wf(),
    ensures
        final(worker).wf(),
        final(worker).root_view() == old(worker).root_view(),
        r is Ok,
        !old(worker).table().contains_key(instance_id@) ==> final(worker).table() == old(worker).table() && final(worker).containers_map() == old(worker).containers_map() && final(worker).disk() == old(worker).disk(),
        old(worker).table().contains_key(instance_id@) && !is_expired(
            now,
            old(worker).table()[instance_id@].last_accessed,
            resource_ttl,
        ) ==> final(worker).table() == old(worker).table() && final(worker).containers_map()
            == old(worker).containers_map() && final(worker).disk() == old(worker).disk(),
        old(worker).table().contains_key(instance_id@) && is_expired(
            now,
            old(worker).table()[instance_id@].last_accessed,
            resource_ttl,
        ) ==> {
            &&& final(worker).table() == old(worker).table().remove(instance_id@)
            &&& !final(worker).disk().contains_key(
                crate::worker::bundle_path(old(worker).root_view(), instance_id@),
            )
            &&& forall|p: Seq<Seq<char>>| #[trigger]
                final(worker).disk().contains_key(p) ==> old(worker).disk().contains_key(p)
        },
{
    let peeked = worker.peek(instance_id);
    match peeked {
        None => Ok(()),
        Some(inv) => {
            let age: u64 = if now >= inv.last_accessed {
                now - inv.last_accessed
            } else {
                0
            };
            if age > resource_ttl {
                let r = worker.delete(instance_id);
                proof {
                    assert(is_expired(now, inv.last_accessed, resource_ttl));
                    assert forall|p: Seq<Seq<char>>| #[trigger]
                        worker.disk().contains_key(p) implies old(worker).disk().contains_key(
                        p,
                    ) by {}
                }
                r
            } else {
                Ok(())
            }
        },
    }
}

/// One reaper cycle: snapshots the cached ids and evicts every invocation
/// whose `last_accessed` is older than the TTL at the start of the cycle.
/// At cycle end every such invocation is absent, and every fresh one is
/// still cached, untouched.
pub fn reaper_cycle(worker: &mut NativeWorker, resource_ttl: u64, now: u64) -> (r: Result<
    (),
    WorkerError,
>)
    requires
        old(worker).wf(),
    ensures
        final(worker).wf(),
        final(worker).root_view() == old(worker).root_view(),
        r is Ok,
        forall|k: Seq<char>| #[trigger]
            old(worker).table().contains_key(k) && is_expired(
                now,
                old(worker).table()[k].last_accessed,
                resource_ttl,
            ) ==> !final(worker).table().contains_key(k),
        forall|k: Seq<char>| #[trigger]
            old(worker).table().contains_key(k) && !is_expired(
                now,
                old(worker).table()[k].last_accessed,
                resource_ttl,
            ) ==> final(worker).table().contains_key(k) && final(worker).table()[k] == old(worker).table()[k],
        forall|k: Seq<char>| #[trigger]
            final(worker).table().contains_key(k) ==> old(worker).table().contains_key(k),
{
    let keys = worker.keys();
    let n = keys.len();
    let mut i: usize = 0;
    while i < n
        invariant
            i <= n,
            n == keys@.len(),
            worker.wf(),
            worker.root_view() == old(worker).root_view(),
            forall|k: Seq<char>|
                old(worker).table().contains_key(k) <==> exists|j: int|
                    0 <= j < keys@.len() && keys@[j]@ == k,
            forall|k: Seq<char>| #[trigger]
                worker.table().contains_key(k) ==> old(worker).table().contains_key(k)
                    && worker.table()[k] == old(worker).table()[k],
            forall|k: Seq<char>| #[trigger]
                old(worker).table().contains_key(k) && !is_expired(
                    now,
                    old(worker).table()[k].last_accessed,
                    resource_ttl,
                ) ==> worker.table().contains_key(k),
            forall|j: int|
                0 <= j < i && old(worker).table().contains_key(#[trigger] keys@[j]@) && is_expired(
                    now,
                    old(worker).table()[keys@[j]@].last_accessed,
                    resource_ttl,
                ) ==> !worker.table().contains_key(keys@[j]@),
        decreases n - i,
    {
        let ghost pret = worker.table();
        let r = execute(worker, keys[i].as_str(), resource_ttl, now);
        proof {
            assert(r is Ok);
        }
        i += 1;
    }
    proof {
        assert forall|k: Seq<char>| #[trigger]
            old(worker).table().contains_key(k) && is_expired(
            now,
            old(worker).table()[k].last_accessed,
            resource_ttl,
        ) implies !worker.table().contains_key(k) by {
            let j = choose|j: int| 0 <= j < keys@.len() && keys@[j]@ == k;
        }
    }
    Ok(())
}

} // verus!
