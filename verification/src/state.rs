//! World-state DAG node and delta types.
//!
//! The sandbox is not a box; it is a versioned graph of immutable state nodes.
//! Each step appends a node whose delta records exactly what changed across
//! every state adapter (workspace, processes, tool sessions, policy, effects).
use vstd::prelude::*;
use crate::hash::ContentHash;
use crate::ids::{BranchId, EffectId, EpisodeId, PrincipalId, ReceiptId, StateId, StepId};
use crate::replay::ReplayClass;
use crate::time::Timestamp;

verus! {

/// One file-level change in the workspace adapter.
#[derive(Debug, PartialEq)]
pub enum FileChange {
    Added { path: String, blob: ContentHash, mode: u32 },
    Modified { path: String, old_blob: ContentHash, new_blob: ContentHash },
    Deleted { path: String, old_blob: ContentHash },
}

impl FileChange {
    /// The path that changed.
    pub open spec fn spec_path(&self) -> Seq<char> {
        match self {
            FileChange::Added { path, .. } => path@,
            FileChange::Modified { path, .. } => path@,
            FileChange::Deleted { path, .. } => path@,
        }
    }

    /// The path that changed.
    pub fn path(&self) -> (r: &str)
        ensures
            r@ == self.spec_path(),
    {
        match self {
            FileChange::Added { path, .. } => path.as_str(),
            FileChange::Modified { path, .. } => path.as_str(),
            FileChange::Deleted { path, .. } => path.as_str(),
        }
    }
}

/// The immutable delta produced by one step, spanning all adapters.
#[derive(Debug, PartialEq)]
pub struct StateDelta {
    pub files: Vec<FileChange>,
    /// Processes started (still running at step end), by command line digest.
    pub processes_started: Vec<String>,
    pub processes_exited: Vec<String>,
    /// Tool/MCP sessions opened or mutated.
    pub tool_sessions: Vec<String>,
    /// Policy epoch after this step (bumps when policy changed).
    pub policy_epoch: u64,
    /// Effects proposed during this step.
    pub effects_proposed: Vec<EffectId>,
    /// Effects committed during this step (receipts).
    pub effects_committed: Vec<ReceiptId>,
}

impl StateDelta {
    /// The delta records no change; the policy epoch does not count as one.
    pub open spec fn spec_is_empty(&self) -> bool {
        &&& self.files@.len() == 0
        &&& self.processes_started@.len() == 0
        &&& self.processes_exited@.len() == 0
        &&& self.tool_sessions@.len() == 0
        &&& self.effects_proposed@.len() == 0
        &&& self.effects_committed@.len() == 0
    }

    /// Whether the delta records no change.
    pub fn is_empty(&self) -> (r: bool)
        ensures
            r == self.spec_is_empty(),
    {
        self.files.len() == 0 && self.processes_started.len() == 0 && self.processes_exited.len()
            == 0 && self.tool_sessions.len() == 0 && self.effects_proposed.len() == 0
            && self.effects_committed.len() == 0
    }

    /// The delta without changes, at the given policy epoch.
    pub fn unchanged(policy_epoch: u64) -> (r: Self)
        ensures
            r.spec_is_empty(),
            r.policy_epoch == policy_epoch,
    {
        StateDelta {
            files: Vec::new(),
            processes_started: Vec::new(),
            processes_exited: Vec::new(),
            tool_sessions: Vec::new(),
            policy_epoch,
            effects_proposed: Vec::new(),
            effects_committed: Vec::new(),
        }
    }
}

impl Default for StateDelta {
    fn default() -> (r: Self)
        ensures
            r.spec_is_empty(),
            r.policy_epoch == 0,
    {
        StateDelta::unchanged(0)
    }
}

/// An immutable node in the world-state DAG.
#[derive(Debug)]
pub struct StateNode {
    pub id: StateId,
    pub episode: EpisodeId,
    pub branch: BranchId,
    /// Parent state; `None` only for the episode root.
    pub parent: Option<StateId>,
    /// Step that produced this node; `None` for roots and merge nodes.
    pub produced_by: Option<StepId>,
    /// Additional parent for merge nodes.
    pub merge_parent: Option<StateId>,
    pub actor: PrincipalId,
    pub delta: StateDelta,
    /// Merkle root of the workspace tree at this node.
    pub workspace_root: ContentHash,
    pub replay_class: ReplayClass,
    pub created_at: Timestamp,
}

} // verus!
