//! Client handles for the worker's external collaborators.
//!
//! The control plane resolves action names to digests; the registry serves
//! content-addressed tar archives.  Both are reached over RPC by the
//! unverified shell, which hands the results to the verified worker as
//! plain values; the handles here only carry the endpoint addresses.

use vstd::prelude::*;

verus! {

/// Handle on the control-plane endpoint resolving names to digests.
pub struct ControlPlaneClient {
    pub addr: String,
}

impl ControlPlaneClient {
    pub fn new(addr: String) -> (r: ControlPlaneClient)
        ensures
            r.addr == addr,
    {
        ControlPlaneClient { addr }
    }
}

/// Handle on the registry endpoint serving artifact archives.
#[derive(Clone)]
pub struct RegistryClient {
    pub addr: String,
}

impl RegistryClient {
    pub fn new(addr: String) -> (r: RegistryClient)
        ensures
            r.addr == addr,
    {
        RegistryClient { addr }
    }
}

} // verus!
