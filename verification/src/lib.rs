//! Per-process device-identity spoofing: policy resolution, an in-process
//! attribute substitution table, a call-interception decision layer, a framed
//! request/response protocol to a privileged worker, the worker's mutation
//! and restoration logic, and a reentrancy-safe finalizer dispatcher.

pub mod attrs;
pub mod config;
pub mod finalizer;
pub mod interceptor;
pub mod protocol;
pub mod session;
pub mod watcher;
pub mod worker;
pub mod specialize;
pub mod text;
