//! Identity, capability-lease storage, delegation records and kernel signing.
//!
//! This is the lasting side of the "no ambient authority" invariant: which
//! principals exist and who spawned whom, which leases were issued and what is
//! left of them, and the key that effect receipts are signed with.

pub mod delegation;
pub mod error;
pub mod keys;
pub mod lease_store;
pub mod registry;
pub mod sealing;
