//! Replay classes: honest, per-backend statements of what "replay" guarantees.
use vstd::prelude::*;

verus! {

/// What a backend can faithfully capture and replay, in ascending order.
#[derive(Debug, Clone, Copy, PartialEq, Eq, PartialOrd, Ord, Hash, Structural)]
pub enum ReplayClass {
    /// Only the recorded observations can be played back; no re-execution.
    AuditOnly,
    /// Workspace files are content-addressed and restorable.
    FilesystemOnly,
    /// Filesystem plus process tree checkpoint/restore.
    ProcessAndFilesystem,
    /// Framework-level host calls (model, tools, HTTP) are recorded and can be
    /// replayed byte-identically under pinned time/randomness.
    FrameworkHostCalls,
    /// Browser profile and page state are restorable.
    BrowserProfile,
}

/// The three replay modes exposed by the protocol. Deliberately distinct:
/// "fully deterministic replay" of an open network is not a claim we make.
#[derive(Debug, Clone, Copy, PartialEq, Eq, Structural)]
pub enum ReplayMode {
    /// Play back recorded model responses, tool results and receipts. Never
    /// re-executes anything.
    Audit,
    /// Restore internal state and re-execute local code with recorded inputs
    /// (time, randomness, DNS, model responses) substituted where captured.
    Sandbox,
    /// Reconnect to the live external world and re-execute the same effect
    /// contracts. Guarantees the contract, not the outcome.
    Live,
}

impl ReplayClass {
    /// The place of the class in the order of classes.
    pub open spec fn spec_rank(self) -> int {
        match self {
            ReplayClass::AuditOnly => 0,
            ReplayClass::FilesystemOnly => 1,
            ReplayClass::ProcessAndFilesystem => 2,
            ReplayClass::FrameworkHostCalls => 3,
            ReplayClass::BrowserProfile => 4,
        }
    }

    /// The place of the class in the order of classes.
    pub fn rank(&self) -> (r: u8)
        ensures
            r == self.spec_rank(),
    {
        match self {
            ReplayClass::AuditOnly => 0,
            ReplayClass::FilesystemOnly => 1,
            ReplayClass::ProcessAndFilesystem => 2,
            ReplayClass::FrameworkHostCalls => 3,
            ReplayClass::BrowserProfile => 4,
        }
    }

    /// A step recorded at this class can honor the mode.
    pub open spec fn honors(self, mode: ReplayMode) -> bool {
        mode == ReplayMode::Audit || self != ReplayClass::AuditOnly
    }

    /// Whether a step recorded at this class can honor the requested mode.
    pub fn supports(&self, mode: ReplayMode) -> (r: bool)
        ensures
            r == self.honors(mode),
    {
        match mode {
            ReplayMode::Audit => true,
            ReplayMode::Sandbox => self.rank() >= 1,
            ReplayMode::Live => self.rank() >= 1,
        }
    }
}

/// Each class of replay guarantees more than the one before: audit only, files,
/// processes, host calls of a framework, a browser's profile.
pub proof fn law_replay_classes_rise()
    ensures
        ReplayClass::AuditOnly.spec_rank() < ReplayClass::FilesystemOnly.spec_rank(),
        ReplayClass::FilesystemOnly.spec_rank() < ReplayClass::ProcessAndFilesystem.spec_rank(),
        ReplayClass::ProcessAndFilesystem.spec_rank()
            < ReplayClass::FrameworkHostCalls.spec_rank(),
        ReplayClass::FrameworkHostCalls.spec_rank() < ReplayClass::BrowserProfile.spec_rank(),
{
}

/// Everything can be audited; only what recorded more than its audit can be run
/// again.
pub proof fn law_reruns_need_more_than_an_audit(c: ReplayClass)
    ensures
        c.honors(ReplayMode::Audit),
        c.honors(ReplayMode::Sandbox) == !(c is AuditOnly),
        c.honors(ReplayMode::Live) == !(c is AuditOnly),
{
}

} // verus!
