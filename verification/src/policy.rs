//! Declarative policy, its deterministic evaluation and its compilation into
//! leases and confinement.
pub mod compiler;
pub mod document;
pub mod engine;
pub mod envelope;
pub mod error;
