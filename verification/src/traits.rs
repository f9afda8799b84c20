//! What passes between the kernel, isolation backends and typed connectors.
use vstd::prelude::*;
use crate::action::ActionKind;
use crate::budget::ResourceBudget;
use crate::effect::EffectClass;
use crate::ids::{BranchId, PrincipalId, StateId};
use crate::json::Value;
use crate::replay::ReplayClass;
use crate::text;

verus! {

/// A request handed to a backend after policy has already been enforced.
/// Backends never see leases or secrets, only the concrete, pre-authorized work
/// and the compiled confinement to apply.
#[derive(Debug)]
pub struct ExecutionRequest {
    pub branch: BranchId,
    pub base_state: StateId,
    pub actor: PrincipalId,
    pub action: ActionKind,
    pub budget: ResourceBudget,
    /// Compiled confinement: allowed path prefixes (workspace-relative).
    pub writable_prefixes: Vec<String>,
    pub readable_prefixes: Vec<String>,
    /// Allowed egress domains for `HttpRead` (empty = no network).
    pub egress_domains: Vec<String>,
}

/// What a backend reports back after executing.
#[derive(Debug)]
pub struct ExecutionOutcome {
    pub exit_code: i32,
    pub stdout: Vec<u8>,
    pub stderr: Vec<u8>,
    pub usage: ResourceBudget,
    /// Workspace-relative paths the backend observed being written.
    pub paths_written: Vec<String>,
    pub replay_class: ReplayClass,
    /// Filesystem changes a state-syncing remote backend pulled back after
    /// executing, relative to the base state it materialized beforehand. `Some`
    /// (even when empty) means the remote tree was honestly synced and the
    /// kernel may record a real state transition; `None` means the backend has
    /// no state sync.
    pub workspace_delta: Option<WorkspaceDelta>,
}

/// One file pushed to or pulled from a remote synced workspace.
#[derive(Debug)]
pub struct SyncedFile {
    /// Workspace-relative path (`/`-separated, no `..`, not absolute).
    pub path: String,
    pub contents: Vec<u8>,
    /// Unix permission bits. Masked to `0o777` on apply: setuid/setgid/sticky
    /// bits never survive a remote round trip.
    pub mode: u32,
}

/// Filesystem changes observed in a remote synced workspace, expressed against
/// the base state the backend materialized before executing.
#[derive(Debug)]
pub struct WorkspaceDelta {
    /// Files created or modified.
    pub upserts: Vec<SyncedFile>,
    /// Paths removed.
    pub deletes: Vec<String>,
}

impl WorkspaceDelta {
    /// Whether nothing changed.
    pub fn is_empty(&self) -> (r: bool)
        ensures
            r == (self.upserts@.len() == 0 && self.deletes@.len() == 0),
    {
        self.upserts.len() == 0 && self.deletes.len() == 0
    }
}

impl Default for WorkspaceDelta {
    fn default() -> (r: Self)
        ensures
            r.upserts@.len() == 0,
            r.deletes@.len() == 0,
    {
        WorkspaceDelta { upserts: Vec::new(), deletes: Vec::new() }
    }
}

/// Capabilities a backend advertises so the router can pick the cheapest one
/// that satisfies the request's risk and compatibility requirements.
#[derive(Debug)]
pub struct BackendProfile {
    pub name: String,
    /// 0 = weakest (in-process), 100 = hardware-virtualized.
    pub isolation_strength: u8,
    /// Typical cold-start latency in milliseconds, self-reported.
    pub cold_start_ms: u64,
    pub replay_class: ReplayClass,
    pub supports_fork: bool,
    pub supports_gui: bool,
    /// Whether arbitrary Linux binaries run (vs. e.g. WASI-only).
    pub full_linux: bool,
    /// Whether the backend executes against the kernel's own workspace tree, so
    /// the state DAG can snapshot its filesystem effects. Remote backends must
    /// report `false`.
    pub shares_workspace: bool,
    /// Whether the backend materializes kernel state in its own sandbox and
    /// returns a [`WorkspaceDelta`] after each step (state sync).
    pub syncs_state: bool,
}

impl Clone for BackendProfile {
    fn clone(&self) -> (r: Self)
        ensures
            r == *self,
    {
        BackendProfile {
            name: self.name.clone(),
            isolation_strength: self.isolation_strength,
            cold_start_ms: self.cold_start_ms,
            replay_class: self.replay_class,
            supports_fork: self.supports_fork,
            supports_gui: self.supports_gui,
            full_linux: self.full_linux,
            shares_workspace: self.shares_workspace,
            syncs_state: self.syncs_state,
        }
    }
}

/// Result of preparing an effect against the live external system.
#[derive(Debug)]
pub struct PreparedEffect {
    /// Human/agent-reviewable preview of exactly what will happen.
    pub preview: Value,
    /// Current values of the contract's preconditions, observed now.
    pub observed_preconditions: Value,
}

/// Result of committing an effect.
#[derive(Debug)]
pub struct CommitResult {
    /// External system response (canonicalized subset).
    pub response: Value,
}

/// A connector's answer to "did a commit for this contract's idempotency key
/// already happen externally?": the recovery half of exactly-once.
#[derive(Debug)]
pub enum CommitProbe {
    /// The external system confirms the operation executed; here is its
    /// (re-fetched) response.
    Committed(CommitResult),
    /// The external system confirms the operation never executed.
    NotCommitted,
    /// The connector cannot tell. The effect stays in doubt.
    Unknown,
}

/// The class declared for `operation` from position `k` on; an undeclared
/// operation is opaque.
pub open spec fn declared_class(
    operations: Seq<(String, EffectClass)>,
    operation: Seq<char>,
    k: int,
) -> EffectClass
    decreases operations.len() - k,
{
    if k >= operations.len() {
        EffectClass::OpaqueExternal
    } else if operations[k].0@ == operation {
        operations[k].1
    } else {
        declared_class(operations, operation, k + 1)
    }
}

/// The statically declared class of an operation, or
/// [`EffectClass::OpaqueExternal`] for undeclared operations.
pub fn classify_operation(operations: &Vec<(String, EffectClass)>, operation: &str) -> (r:
    EffectClass)
    ensures
        r == declared_class(operations@, operation@, 0),
{
    let mut i: usize = 0;
    while i < operations.len()
        invariant
            i <= operations.len(),
            declared_class(operations@, operation@, 0) == declared_class(
                operations@,
                operation@,
                i as int,
            ),
        decreases operations.len() - i,
    {
        if text::str_eq(operations[i].0.as_str(), operation) {
            return operations[i].1;
        }
        i = i + 1;
    }
    EffectClass::OpaqueExternal
}

/// An operation has the class of its first declaration; one that is not declared is
/// opaque, the class that is trusted least.
pub proof fn law_first_declaration_counts(
    operations: Seq<(String, EffectClass)>,
    operation: Seq<char>,
    k: int,
)
    requires
        0 <= k <= operations.len(),
    ensures
        (forall|i: int| k <= i < operations.len() ==> (#[trigger] operations[i]).0@ != operation)
            ==> declared_class(operations, operation, k) is OpaqueExternal,
        forall|i: int|
            k <= i < operations.len() && (#[trigger] operations[i]).0@ == operation && (forall|j: int|
                k <= j < i ==> (#[trigger] operations[j]).0@ != operation) ==> declared_class(
                operations,
                operation,
                k,
            ) == operations[i].1,
    decreases operations.len() - k,
{
    if k < operations.len() && operations[k].0@ != operation {
        law_first_declaration_counts(operations, operation, k + 1);
    }
}

} // verus!
