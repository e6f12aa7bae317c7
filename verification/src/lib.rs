//! Measurement and isolation engine of a node-local confidential-computing
//! agent: a chained-hash integrity register per tenant, a replayable
//! measurement log, and attestation challenges bound to a container's
//! measured state.
//!
//! The engine does no input or output. Whoever runs it reads the policy,
//! the running processes and the entries of the evidence source, hands
//! them in as values, and carries out what the engine answers.

pub mod agent;
pub mod bytes;
pub mod cgroup;
pub mod client;
pub mod container;
pub mod error;
pub mod eventlog;
pub mod hash;
pub mod measurement;
pub mod nonce;
pub mod policy;
pub mod registry;
pub mod service;
pub mod tcg;
pub mod text;
