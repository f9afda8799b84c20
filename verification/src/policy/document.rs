//! The typed, declarative [`PolicyDocument`].
use indexmap::IndexMap;
use vstd::prelude::*;
use crate::budget::ResourceBudget;
use crate::capability::Constraint;
use crate::glob::{glob_match, globs};
use crate::ids::PrincipalId;
use crate::json::Value;
use crate::principal::{Principal, PrincipalKind, TrustLevel};

verus! {

/// Selects which principals a rule applies to. All present fields must match
/// (conjunctive); an empty selector matches every principal.
#[derive(Debug)]
pub struct PrincipalSelector {
    /// Match by exact principal ids.
    pub ids: Vec<PrincipalId>,
    /// Match by principal kind.
    pub kinds: Vec<PrincipalKind>,
    /// Minimum trust level (inclusive).
    pub min_trust: Option<TrustLevel>,
    /// Maximum trust level (inclusive); used to target low-trust principals.
    pub max_trust: Option<TrustLevel>,
}

/// The id is in the list.
pub open spec fn has_id(ids: Seq<PrincipalId>, id: Seq<char>) -> bool {
    exists|i: int| 0 <= i < ids.len() && (#[trigger] ids[i])@ == id
}

fn contains_id(ids: &Vec<PrincipalId>, id: &PrincipalId) -> (r: bool)
    ensures
        r == has_id(ids@, id@),
{
    let mut i: usize = 0;
    while i < ids.len()
        invariant
            i <= ids.len(),
            forall|j: int| 0 <= j < i ==> (#[trigger] ids@[j])@ != id@,
        decreases ids.len() - i,
    {
        if ids[i] == *id {
            return true;
        }
        i = i + 1;
    }
    false
}

fn contains_kind(kinds: &Vec<PrincipalKind>, kind: PrincipalKind) -> (r: bool)
    ensures
        r == kinds@.contains(kind),
{
    let mut i: usize = 0;
    while i < kinds.len()
        invariant
            i <= kinds.len(),
            forall|j: int| 0 <= j < i ==> #[trigger] kinds@[j] != kind,
        decreases kinds.len() - i,
    {
        if kinds[i] == kind {
            return true;
        }
        i = i + 1;
    }
    false
}

impl PrincipalSelector {
    /// The selector matches the principal.
    pub open spec fn selects(&self, p: &Principal) -> bool {
        &&& self.ids@.len() == 0 || has_id(self.ids@, p.id@)
        &&& self.kinds@.len() == 0 || self.kinds@.contains(p.kind)
        &&& self.min_trust matches Some(min) ==> p.trust.spec_rank() >= min.spec_rank()
        &&& self.max_trust matches Some(max) ==> p.trust.spec_rank() <= max.spec_rank()
    }

    /// Whether this selector matches `principal`.
    pub fn matches(&self, principal: &Principal) -> (r: bool)
        ensures
            r == self.selects(principal),
    {
        if self.ids.len() > 0 && !contains_id(&self.ids, &principal.id) {
            return false;
        }
        if self.kinds.len() > 0 && !contains_kind(&self.kinds, principal.kind) {
            return false;
        }
        if let Some(min) = self.min_trust {
            if principal.trust.rank() < min.rank() {
                return false;
            }
        }
        if let Some(max) = self.max_trust {
            if principal.trust.rank() > max.rank() {
                return false;
            }
        }
        true
    }
}

impl Default for PrincipalSelector {
    /// The selector that matches every principal.
    fn default() -> (r: Self)
        ensures
            forall|p: &Principal| r.selects(p),
            r.ids@.len() == 0,
            r.kinds@.len() == 0,
            r.min_trust is None,
            r.max_trust is None,
    {
        PrincipalSelector { ids: Vec::new(), kinds: Vec::new(), min_trust: None, max_trust: None }
    }
}

/// The outcome a matching rule produces.
#[derive(Debug, Clone, Copy, PartialEq, Eq, Structural)]
pub enum RuleEffect {
    /// Grant, subject to the rule's constraints, uses, TTL and budget.
    Allow,
    /// Refuse outright.
    Deny,
    /// Grant only after out-of-band approval (usually human).
    RequireApproval,
}

/// One declarative policy rule. Rules are evaluated in document order; the
/// first rule whose selector and operation glob match decides.
#[derive(Debug)]
pub struct PolicyRule {
    /// Stable rule id, referenced in audit records.
    pub id: String,
    /// Which principals this rule applies to.
    pub principals: PrincipalSelector,
    /// Operation globs (`*` wildcards), e.g. `fs.*` or
    /// `github.create_pull_request`.
    pub operations: Vec<String>,
    /// What happens when this rule matches.
    pub effect: RuleEffect,
    /// Parameter constraints applied to the invocation and copied into
    /// compiled leases. Keyed by canonical parameter name.
    pub constraints: IndexMap<String, Constraint>,
    /// Use count for leases compiled from this rule (default 1).
    pub max_uses: u32,
    /// Lease TTL in seconds (default 600).
    pub ttl_seconds: u64,
    /// Budget cap for compiled leases; defaults to
    /// [`ResourceBudget::step_default`].
    pub budget: Option<ResourceBudget>,
    /// Abstract risk weight charged per use (informs `risk_units`).
    pub risk_weight: u32,
    /// Optional human-facing note; never used in evaluation.
    pub note: Option<String>,
}

/// The use count of a rule that names none.
pub fn default_max_uses() -> (r: u32)
    ensures
        r == 1,
{
    1
}

/// The lease TTL, in seconds, of a rule that names none.
pub fn default_ttl_seconds() -> (r: u64)
    ensures
        r == 600,
{
    600
}

impl PolicyRule {
    /// One of the rule's globs matches the operation.
    pub open spec fn covers(&self, operation: Seq<char>) -> bool {
        exists|i: int|
            0 <= i < self.operations@.len() && globs((#[trigger] self.operations@[i])@, operation)
    }

    /// The rule is about this principal and this operation.
    pub open spec fn applies(&self, principal: &Principal, operation: Seq<char>) -> bool {
        self.principals.selects(principal) && self.covers(operation)
    }

    /// Whether this rule's operation globs cover `operation`.
    pub fn matches_operation(&self, operation: &str) -> (r: bool)
        ensures
            r == self.covers(operation@),
    {
        let mut i: usize = 0;
        while i < self.operations.len()
            invariant
                i <= self.operations.len(),
                forall|j: int| 0 <= j < i ==> !globs((#[trigger] self.operations@[j])@, operation@),
            decreases self.operations.len() - i,
        {
            if glob_match(self.operations[i].as_str(), operation) {
                return true;
            }
            i = i + 1;
        }
        false
    }
}

/// Workspace-relative path prefixes the branch may touch.
#[derive(Debug)]
pub struct PathPolicy {
    pub readable_prefixes: Vec<String>,
    pub writable_prefixes: Vec<String>,
}

/// Which MCP servers/tools may be invoked (glob patterns on `server` and `tool`
/// names). Empty lists mean "none".
#[derive(Debug)]
pub struct ToolPolicy {
    pub allowed_servers: Vec<String>,
    pub allowed_tools: Vec<String>,
}

/// A scope principals may request when denied, sketching the constraints
/// policy would consider.
#[derive(Debug)]
pub struct RequestableScopeSpec {
    /// Operation glob this scope covers.
    pub operation: String,
    /// Constraint sketch shown to the requester.
    pub constraints: Value,
    /// Whether granting requires a human in the loop.
    pub requires_human: bool,
}

/// Whether and how principals may request capability escalation.
#[derive(Debug)]
pub struct EscalationPolicy {
    /// Master switch: when false, denials advertise no requestable scopes.
    pub allow_requests: bool,
    /// Scopes that may be requested.
    pub requestable: Vec<RequestableScopeSpec>,
}

/// The complete declarative policy for a kernel instance.
///
/// `policy_epoch` bumps on every mutation, so approvals pinned to an epoch are
/// invalidated by any policy change.
#[derive(Debug)]
pub struct PolicyDocument {
    /// Monotonic epoch, bumped by every mutating call.
    pub policy_epoch: u64,
    /// Ordered rules; first match wins.
    pub rules: Vec<PolicyRule>,
    /// Path confinement compiled into every grant.
    pub paths: PathPolicy,
    /// Egress domain allowlist (glob patterns, e.g. `*.github.com`).
    pub egress_domains: Vec<String>,
    /// MCP tool policy.
    pub tools: ToolPolicy,
    /// Escalation policy.
    pub escalation: EscalationPolicy,
}

impl Default for PolicyDocument {
    /// The document without rules: everything is denied.
    fn default() -> (r: Self)
        ensures
            r.policy_epoch == 0,
            r.rules@.len() == 0,
            r.paths.readable_prefixes@.len() == 0,
            r.paths.writable_prefixes@.len() == 0,
            r.egress_domains@.len() == 0,
            r.tools.allowed_servers@.len() == 0,
            r.tools.allowed_tools@.len() == 0,
            !r.escalation.allow_requests,
            r.escalation.requestable@.len() == 0,
    {
        PolicyDocument {
            policy_epoch: 0,
            rules: Vec::new(),
            paths: PathPolicy { readable_prefixes: Vec::new(), writable_prefixes: Vec::new() },
            egress_domains: Vec::new(),
            tools: ToolPolicy { allowed_servers: Vec::new(), allowed_tools: Vec::new() },
            escalation: EscalationPolicy { allow_requests: false, requestable: Vec::new() },
        }
    }
}

impl PolicyDocument {
    /// Replaces the path confinement.
    pub fn set_paths(&mut self, paths: PathPolicy)
        requires
            old(self).policy_epoch < u64::MAX,
        ensures
            *final(self) == (PolicyDocument {
                paths,
                policy_epoch: (old(self).policy_epoch + 1) as u64,
                ..*old(self)
            }),
    {
        self.paths = paths;
        self.policy_epoch = self.policy_epoch + 1;
    }

    /// Replaces the egress allowlist.
    pub fn set_egress_domains(&mut self, egress_domains: Vec<String>)
        requires
            old(self).policy_epoch < u64::MAX,
        ensures
            *final(self) == (PolicyDocument {
                egress_domains,
                policy_epoch: (old(self).policy_epoch + 1) as u64,
                ..*old(self)
            }),
    {
        self.egress_domains = egress_domains;
        self.policy_epoch = self.policy_epoch + 1;
    }

    /// Replaces the escalation policy.
    pub fn set_escalation(&mut self, escalation: EscalationPolicy)
        requires
            old(self).policy_epoch < u64::MAX,
        ensures
            *final(self) == (PolicyDocument {
                escalation,
                policy_epoch: (old(self).policy_epoch + 1) as u64,
                ..*old(self)
            }),
    {
        self.escalation = escalation;
        self.policy_epoch = self.policy_epoch + 1;
    }

    /// Appends a rule, behind every other.
    pub fn add_rule(&mut self, rule: PolicyRule)
        requires
            old(self).policy_epoch < u64::MAX,
        ensures
            final(self).rules@ == old(self).rules@.push(rule),
            final(self).policy_epoch == old(self).policy_epoch + 1,
            final(self).paths == old(self).paths,
            final(self).egress_domains == old(self).egress_domains,
            final(self).tools == old(self).tools,
            final(self).escalation == old(self).escalation,
    {
        self.rules.push(rule);
        self.policy_epoch = self.policy_epoch + 1;
    }
}

/// A selector takes exactly the principals that meet everything it names: one of
/// its identifiers, one of its kinds, at least its minimum of trust and at most its
/// maximum. What it does not name does not matter.
pub proof fn law_selectors_take_what_they_name(s: PrincipalSelector, p: &Principal)
    ensures
        s.selects(p) <==> {
            &&& s.ids@.len() > 0 ==> exists|i: int|
                0 <= i < s.ids@.len() && (#[trigger] s.ids@[i])@ == p.id@
            &&& s.kinds@.len() > 0 ==> exists|i: int|
                0 <= i < s.kinds@.len() && #[trigger] s.kinds@[i] == p.kind
            &&& s.min_trust matches Some(min) ==> match min {
                TrustLevel::Quarantined => true,
                TrustLevel::Limited => !(p.trust is Quarantined),
                TrustLevel::Standard => p.trust is Standard || p.trust is Elevated,
                TrustLevel::Elevated => p.trust is Elevated,
            }
            &&& s.max_trust matches Some(max) ==> match max {
                TrustLevel::Quarantined => p.trust is Quarantined,
                TrustLevel::Limited => p.trust is Quarantined || p.trust is Limited,
                TrustLevel::Standard => !(p.trust is Elevated),
                TrustLevel::Elevated => true,
            }
        },
{
}

/// Of two principals that differ in nothing but trust, a selector without a maximum
/// takes the more trusted one whenever it takes the less trusted one; a selector
/// without a minimum, the other way round.
pub proof fn law_more_trust_keeps_minimum_rules(s: PrincipalSelector, low: &Principal, high: &Principal)
    requires
        low.id@ == high.id@,
        low.kind == high.kind,
        match low.trust {
            TrustLevel::Quarantined => true,
            TrustLevel::Limited => !(high.trust is Quarantined),
            TrustLevel::Standard => high.trust is Standard || high.trust is Elevated,
            TrustLevel::Elevated => high.trust is Elevated,
        },
    ensures
        s.max_trust is None && s.selects(low) ==> s.selects(high),
        s.min_trust is None && s.selects(high) ==> s.selects(low),
{
}

/// A rule is about an invocation exactly if its selector takes the principal and one
/// of its globs matches the operation.
pub proof fn law_rules_apply_by_selector_and_glob(
    rule: PolicyRule,
    p: &Principal,
    operation: Seq<char>,
)
    ensures
        rule.applies(p, operation) <==> rule.principals.selects(p) && exists|i: int|
            0 <= i < rule.operations@.len() && globs((#[trigger] rule.operations@[i])@, operation),
{
}

/// More trust never loses what a minimum grants, and less never what a maximum does:
/// of two principals that differ in trust alone, the one with more is taken wherever
/// the other is and no maximum stands, and the other way round.
pub proof fn law_matching_goes_by_trust(
    s: &PrincipalSelector,
    less: &Principal,
    more: &Principal,
    r: bool,
    t: bool,
)
    requires
        call_ensures(PrincipalSelector::matches, (s, less), r),
        call_ensures(PrincipalSelector::matches, (s, more), t),
        less.id@ == more.id@,
        less.kind == more.kind,
        less.trust.spec_rank() <= more.trust.spec_rank(),
    ensures
        s.max_trust is None && r ==> t,
        s.min_trust is None && t ==> r,
        s.min_trust matches Some(min) ==> less.trust.spec_rank() < min.spec_rank() ==> !r,
        s.max_trust matches Some(max) ==> more.trust.spec_rank() > max.spec_rank() ==> !t,
{
    law_selectors_take_what_they_name(*s, less);
    law_selectors_take_what_they_name(*s, more);
}

} // verus!
