//! Error kinds of the worker and their wire representation.
//!
//! Every failure surfaced to a caller becomes a problem report with a stable
//! `type` tag, a human-readable detail, an instance identifier, and
//! contextual key/value extensions.

use vstd::prelude::*;
use vstd::string::*;

verus! {

/// The kinds of failure an execute request can run into.
#[derive(Debug)]
pub enum WorkerError {
    /// The control plane could not resolve the action name.
    Resolve,
    /// The artifact could not be fetched or unpacked.
    Fetch,
    /// The container could not be created or started.
    Container,
    /// The handler did not accept a connection within the startup timeout.
    Startup,
    /// The invocation itself failed after the handler was up.
    Invoke,
}

/// The stable tag of one error kind.
pub open spec fn spec_problem_type(e: WorkerError) -> Seq<char> {
    match e {
        WorkerError::Resolve => "worker/resolve"@,
        WorkerError::Fetch => "worker/fetch"@,
        WorkerError::Container => "worker/container"@,
        WorkerError::Startup => "worker/startup"@,
        WorkerError::Invoke => "worker/invoke"@,
    }
}

impl WorkerError {
    /// The stable `type` tag used in problem responses.
    pub fn problem_type(&self) -> (r: String)
        ensures
            r@ == spec_problem_type(*self),
    {
        match self {
            WorkerError::Resolve => String::from_str("worker/resolve"),
            WorkerError::Fetch => String::from_str("worker/fetch"),
            WorkerError::Container => String::from_str("worker/container"),
            WorkerError::Startup => String::from_str("worker/startup"),
            WorkerError::Invoke => String::from_str("worker/invoke"),
        }
    }
}

/// A problem response: what a failed execute request reports to its caller.
pub struct Problem {
    pub typ: String,
    pub detail: String,
    pub instance: String,
    pub extensions: Vec<(String, String)>,
}

/// Builds the problem response for one failure: the tag comes from the error
/// kind; detail, instance and extensions are passed through unchanged.
pub fn problem_for(kind: &WorkerError, detail: String, instance: String, extensions: Vec<
    (String, String),
>) -> (r: Problem)
    ensures
        r.typ@ == spec_problem_type(*kind),
        r.detail == detail,
        r.instance == instance,
        r.extensions == extensions,
{
    Problem { typ: kind.problem_type(), detail, instance, extensions }
}

} // verus!
