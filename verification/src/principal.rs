//! Principals: agents, sub-agents, tools and humans as first-class identities.
//!
//! A principal is the unit of authorization. Sub-agents and delegated tools
//! are distinct principals; they never implicitly inherit their parent's
//! authority.
use vstd::prelude::*;
use crate::ids::PrincipalId;

verus! {

/// What sort of actor a principal is.
#[derive(Debug, Clone, Copy, PartialEq, Eq, Structural)]
pub enum PrincipalKind {
    /// A top-level agent driven by a harness.
    Agent,
    /// A sub-agent spawned by another agent.
    SubAgent,
    /// A tool or MCP server invoked on behalf of an agent.
    Tool,
    /// A human operator (approvals, overrides).
    Human,
    /// The kernel itself (system maintenance actions).
    Kernel,
}

/// How far a principal is trusted, in ascending order.
#[derive(Debug, Clone, Copy, PartialEq, Eq, Structural)]
pub enum TrustLevel {
    Quarantined,
    Limited,
    Standard,
    Elevated,
}

impl TrustLevel {
    /// The place of the level in the order of trust.
    pub open spec fn spec_rank(self) -> int {
        match self {
            TrustLevel::Quarantined => 0,
            TrustLevel::Limited => 1,
            TrustLevel::Standard => 2,
            TrustLevel::Elevated => 3,
        }
    }

    /// The place of the level in the order of trust.
    pub fn rank(&self) -> (r: u8)
        ensures
            r == self.spec_rank(),
    {
        match self {
            TrustLevel::Quarantined => 0,
            TrustLevel::Limited => 1,
            TrustLevel::Standard => 2,
            TrustLevel::Elevated => 3,
        }
    }
}

/// An identity that can hold authority.
#[derive(Debug)]
pub struct Principal {
    pub id: PrincipalId,
    pub kind: PrincipalKind,
    pub display_name: String,
    pub trust: TrustLevel,
    /// The principal that spawned this one; `None` for roots.
    pub parent: Option<PrincipalId>,
}

impl Principal {
    /// A root agent with standard trust.
    pub fn new_agent(display_name: &str) -> (r: Principal)
        ensures
            crate::ids::generated(r.id@, "pr-"@),
            r.kind == PrincipalKind::Agent,
            r.display_name@ == display_name@,
            r.trust == TrustLevel::Standard,
            r.parent is None,
    {
        Principal {
            id: PrincipalId::generate(),
            kind: PrincipalKind::Agent,
            display_name: display_name.to_owned(),
            trust: TrustLevel::Standard,
            parent: None,
        }
    }

    /// A child of this principal. It holds no lease of its parent's.
    pub fn spawn_child(&self, kind: PrincipalKind, display_name: &str) -> (r: Principal)
        ensures
            crate::ids::generated(r.id@, "pr-"@),
            r.kind == kind,
            r.display_name@ == display_name@,
            r.trust == self.trust,
            r.parent == Some(self.id),
    {
        Principal {
            id: PrincipalId::generate(),
            kind,
            display_name: display_name.to_owned(),
            trust: self.trust,
            parent: Some(self.id.clone()),
        }
    }
}

impl Clone for Principal {
    fn clone(&self) -> (r: Self)
        ensures
            r == *self,
    {
        let parent = match &self.parent {
            Some(p) => Some(p.clone()),
            None => None,
        };
        Principal {
            id: self.id.clone(),
            kind: self.kind,
            display_name: self.display_name.clone(),
            trust: self.trust,
            parent,
        }
    }
}

/// Trust rises from quarantined over limited and standard to elevated.
pub proof fn law_trust_rises()
    ensures
        TrustLevel::Quarantined.spec_rank() < TrustLevel::Limited.spec_rank(),
        TrustLevel::Limited.spec_rank() < TrustLevel::Standard.spec_rank(),
        TrustLevel::Standard.spec_rank() < TrustLevel::Elevated.spec_rank(),
{
}

} // verus!
