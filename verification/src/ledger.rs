//! The append-only causal ledger: a tamper-evident, hash-chained record of
//! everything from objective to committed effect.

pub mod event;
pub mod query;
pub mod store;
