//! The worker's RPC surface.
//!
//! A request names an action and carries a body.  The server resolves the
//! action to a digest through the control plane, drives the worker, and
//! wraps the outcome: the handler's output on success, a problem report
//! with a stable type tag otherwise.  The transport itself is unverified;
//! the wrapping decision is made here.

use vstd::prelude::*;
use crate::client::ControlPlaneClient;
use crate::errors::{Problem, WorkerError, problem_for, spec_problem_type};
use crate::worker::NativeWorker;

verus! {

/// The server: the worker it drives and the control plane it resolves
/// action names against.
pub struct WorkerServer {
    pub function_worker: NativeWorker,
    pub controlplane_client: ControlPlaneClient,
}

impl WorkerServer {
    pub fn new(function_worker: NativeWorker, controlplane_client: ControlPlaneClient) -> (r:
        WorkerServer)
        ensures
            r.function_worker == function_worker,
            r.controlplane_client == controlplane_client,
    {
        WorkerServer { function_worker, controlplane_client }
    }
}

/// What an execute request reports back: the handler's output, or a
/// problem.
pub enum ExecuteOutcome {
    Success { body: String },
    Problem { problem: Problem },
}

/// Wraps the outcome of one execute request: a successful invocation's
/// output is passed through; a failure becomes a problem whose type tag
/// is the error's stable tag, with the detail, instance and extensions
/// given.
pub fn execute_outcome(
    result: Result<String, WorkerError>,
    detail: String,
    instance: String,
    extensions: Vec<(String, String)>,
) -> (r: ExecuteOutcome)
    ensures
        match result {
            Ok(body) => r matches ExecuteOutcome::Success { body: b } && b == body,
            Err(e) => r matches ExecuteOutcome::Problem { problem } && problem.typ@
                == spec_problem_type(e) && problem.detail == detail && problem.instance
                == instance && problem.extensions == extensions,
        },
{
    match result {
        Ok(body) => ExecuteOutcome::Success { body },
        Err(e) => ExecuteOutcome::Problem { problem: problem_for(&e, detail, instance, extensions) },
    }
}

} // verus!
