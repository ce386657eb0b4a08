//! Core logic of a small serverless-style function worker.
//!
//! The worker resolves an action name to a content-addressed artifact digest,
//! materializes the artifact into a sandboxed root filesystem, runs a handler
//! inside a rootless container, and proxies invocations to it over a UNIX
//! domain socket.  This crate holds the verified decision logic: path
//! resolution, digest derivation, the runtime-spec construction, the
//! invocation table, the reaper policy, the readiness prober, and the
//! orchestration of handler creation.  The surrounding I/O (RPC transport,
//! filesystem, container runtime) is driven by a thin unverified shell that
//! mirrors the models proved here.

pub mod assoc;
pub mod background;
pub mod client;
pub mod config;
pub mod errors;
pub mod fsmodel;
pub mod ocispec;
pub mod probe;
pub mod digest;
pub mod invocations;
pub mod paths;
pub mod registry;
pub mod server;
pub mod worker;
