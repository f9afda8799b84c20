//! Autonomy envelopes: "approve a space, not each command".
use indexmap::IndexMap;
use vstd::prelude::*;
use crate::budget::ResourceBudget;
use crate::capability::Constraint;

verus! {

/// One allowed operation inside an envelope.
#[derive(Debug)]
pub struct EnvelopeGrant {
    /// Concrete operation (no globs: every lease names one operation).
    pub operation: String,
    /// Parameter constraints for this operation.
    pub constraints: IndexMap<String, Constraint>,
    /// Invocation budget (default 1).
    pub max_uses: u32,
    /// Per-grant TTL override in seconds; defaults to the envelope TTL.
    pub ttl_seconds: Option<u64>,
    /// Per-grant resource cap; defaults to the envelope budget.
    pub budget: Option<ResourceBudget>,
}

} // verus!
