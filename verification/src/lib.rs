//! Compiles a workload's allowed runtime behaviour into a machine-checkable
//! security policy for a confidential-computing container runtime.
//!
//! The crate merges four sources of truth (runtime defaults, orchestrator
//! defaults, the image configuration, the workload manifest) into one
//! allow-list per container, and assembles the per-container results into a
//! versioned policy document with a deterministic textual encoding.

pub mod errors;
pub mod strutil;
pub mod oci;
pub mod yaml;
pub mod image;
pub mod cri;
pub mod kubernetes;
pub mod pod_yaml;
pub mod policy;
pub mod json;
pub mod encoding;
