//! The readiness prober.
//!
//! After a handler container starts, the worker polls its RPC endpoint every
//! 10 ms for up to 3000 ms.  The first accepted connection means ready; after
//! the last attempt the handler is declared failed.  The prober never issues
//! an actual invocation: accepting the transport is the readiness signal.

use vstd::prelude::*;

verus! {

pub const SERVER_STARTUP_TIMEOUT_MS: u64 = 3000;

pub const SERVER_STARTUP_RETRY_INTERVAL_MS: u64 = 10;

/// The number of connection attempts before giving up.
pub open spec fn max_attempts() -> int {
    SERVER_STARTUP_TIMEOUT_MS as int / SERVER_STARTUP_RETRY_INTERVAL_MS as int
}

pub fn max_probe_attempts() -> (r: u32)
    ensures
        r == max_attempts(),
        r == 300,
{
    (SERVER_STARTUP_TIMEOUT_MS / SERVER_STARTUP_RETRY_INTERVAL_MS) as u32
}

/// What the probe loop does after one connection attempt.
pub enum ProbeStep {
    /// The endpoint accepted: the handler is ready.
    Ready,
    /// The last attempt failed: give up and surface a startup error.
    Failed,
    /// Wait one retry interval and try again.
    Retry,
}

/// Decides the next step of the probe loop: a successful connection means
/// ready, a failure on the final attempt means giving up, any earlier
/// failure means retrying.
pub fn next_probe_step(attempt: u32, connected: bool) -> (r: ProbeStep)
    requires
        1 <= attempt <= max_attempts(),
    ensures
        connected ==> r is Ready,
        !connected && attempt == max_attempts() ==> r is Failed,
        !connected && attempt < max_attempts() ==> r is Retry,
{
    if connected {
        ProbeStep::Ready
    } else if attempt >= max_probe_attempts() {
        ProbeStep::Failed
    } else {
        ProbeStep::Retry
    }
}

/// The result of a whole probe run: how many attempts were made and whether
/// the handler became ready.
pub struct ProbeReport {
    pub attempts: u32,
    pub ready: bool,
}

/// Runs the probe loop against a fixed sequence of connection outcomes,
/// where `outcomes[i]` says whether attempt `i + 1` would connect.
///
/// The prober makes at least 1 and at most 300 attempts before giving up;
/// it reports ready exactly when some attempt within the limit connects,
/// and it stops at the first connecting attempt.
pub fn simulate_probe(outcomes: &Vec<bool>) -> (r: ProbeReport)
    requires
        outcomes@.len() >= max_attempts(),
    ensures
        1 <= r.attempts <= max_attempts(),
        r.ready <==> exists|i: int| 0 <= i < max_attempts() && outcomes@[i],
        r.ready ==> outcomes@[r.attempts - 1] && (forall|j: int|
            0 <= j < r.attempts - 1 ==> !outcomes@[j]),
        !r.ready ==> r.attempts == max_attempts(),
{
    let limit = max_probe_attempts();
    let mut attempt: u32 = 1;
    loop
        invariant
            1 <= attempt <= limit,
            limit == max_attempts(),
            outcomes@.len() >= max_attempts(),
            forall|j: int| 0 <= j < attempt - 1 ==> !outcomes@[j],
        decreases limit - attempt,
    {
        let connected = outcomes[(attempt - 1) as usize];
        match next_probe_step(attempt, connected) {
            ProbeStep::Ready => {
                return ProbeReport { attempts: attempt, ready: true };
            },
            ProbeStep::Failed => {
                assert(forall|i: int| 0 <= i < max_attempts() ==> !outcomes@[i]);
                return ProbeReport { attempts: attempt, ready: false };
            },
            ProbeStep::Retry => {
                attempt = attempt + 1;
            },
        }
    }
}

} // verus!
