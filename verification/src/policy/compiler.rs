//! The capability compiler: approved semantic grants become a lease and a
//! confinement.
use indexmap::IndexMap;
use vstd::prelude::*;
use crate::budget::ResourceBudget;
use crate::capability::{CapabilityLease, Constraint, ConstraintView, LeaseView, Operation};
use crate::constraints::{constraints_view, merged, narrow_by, widened};
use crate::ids::{BranchId, LeaseId, generated};
use crate::json::JsonMap;
use crate::policy::document::{PolicyDocument, PolicyRule, RuleEffect};
use crate::policy::error::{PolicyError, PolicyResult};
use crate::principal::{Principal, TrustLevel};
use crate::text;
use crate::time::Timestamp;

verus! {

/// Syscall confinement profile a backend should apply.
#[derive(Debug, Clone, Copy, PartialEq, Eq, Structural)]
pub enum SyscallProfile {
    /// Default seccomp profile for trusted workloads.
    Standard,
    /// Tightened profile (no ptrace, no raw sockets, no user namespaces).
    Restricted,
    /// Restricted profile plus all network syscalls blocked.
    Networkless,
}

/// The compiled, backend-facing half of a grant.
#[derive(Debug)]
pub struct CompiledConfinement {
    /// Workspace-relative prefixes the workload may write.
    pub writable_prefixes: Vec<String>,
    /// Workspace-relative prefixes the workload may read.
    pub readable_prefixes: Vec<String>,
    /// Egress domain allowlist (empty = no network).
    pub egress_domains: Vec<String>,
    /// Whether the backend must scrub the ambient environment (secrets never
    /// reach guests anyway; this removes even innocuous host env).
    pub env_scrub: bool,
    /// Syscall profile the backend applies.
    pub syscall_profile: SyscallProfile,
    /// Risk weight of the rule that granted; zero outside a grant.
    pub risk_weight: u32,
}

/// What a [`CompiledConfinement`] says.
#[verifier::ext_equal]
pub struct ConfinementView {
    pub writable_prefixes: Seq<Seq<char>>,
    pub readable_prefixes: Seq<Seq<char>>,
    pub egress_domains: Seq<Seq<char>>,
    pub env_scrub: bool,
    pub syscall_profile: SyscallProfile,
    pub risk_weight: u32,
}

impl CompiledConfinement {
    pub open spec fn view(&self) -> ConfinementView {
        ConfinementView {
            writable_prefixes: self.writable_prefixes.deep_view(),
            readable_prefixes: self.readable_prefixes.deep_view(),
            egress_domains: self.egress_domains.deep_view(),
            env_scrub: self.env_scrub,
            syscall_profile: self.syscall_profile,
            risk_weight: self.risk_weight,
        }
    }
}

/// A fully compiled grant: the lease (authority) plus the confinement
/// (mechanism). Policy semantics live in the lease; backends only ever see the
/// confinement.
#[derive(Debug)]
pub struct CompiledGrant {
    pub lease: CapabilityLease,
    pub confinement: CompiledConfinement,
}

/// The egress domains that a principal gets.
pub open spec fn egress_for(doc: &PolicyDocument, trust: TrustLevel) -> Seq<Seq<char>> {
    if trust == TrustLevel::Quarantined {
        Seq::empty()
    } else {
        doc.egress_domains.deep_view()
    }
}

/// The confinement of a principal under a document.
pub open spec fn confinement_of(
    doc: &PolicyDocument,
    trust: TrustLevel,
    risk_weight: u32,
) -> ConfinementView {
    ConfinementView {
        writable_prefixes: doc.paths.writable_prefixes.deep_view(),
        readable_prefixes: doc.paths.readable_prefixes.deep_view(),
        egress_domains: egress_for(doc, trust),
        env_scrub: trust != TrustLevel::Elevated,
        syscall_profile: if egress_for(doc, trust).len() == 0 {
            SyscallProfile::Networkless
        } else if trust == TrustLevel::Limited {
            SyscallProfile::Restricted
        } else {
            SyscallProfile::Standard
        },
        risk_weight,
    }
}

/// Compile the confinement for `principal` under `doc`.
///
/// - path prefixes come from the document's path policy;
/// - egress domains come from the allowlist, except that quarantined principals
///   get none;
/// - `env_scrub` is on for every principal that is not elevated;
/// - the syscall profile is networkless when there are no egress domains,
///   restricted for principals below standard trust, and standard otherwise.
pub fn compile_confinement(doc: &PolicyDocument, principal: &Principal) -> (r: CompiledConfinement)
    ensures
        r@ == confinement_of(doc, principal.trust, 0),
{
    let quarantined = principal.trust.rank() == 0;
    let egress_domains: Vec<String> = if quarantined {
        Vec::new()
    } else {
        text::clone_texts(&doc.egress_domains)
    };
    proof {
        assert(egress_domains.deep_view() =~= egress_for(doc, principal.trust));
    }
    let syscall_profile = if egress_domains.len() == 0 {
        SyscallProfile::Networkless
    } else if principal.trust.rank() < 2 {
        SyscallProfile::Restricted
    } else {
        SyscallProfile::Standard
    };
    let r = CompiledConfinement {
        writable_prefixes: text::clone_texts(&doc.paths.writable_prefixes),
        readable_prefixes: text::clone_texts(&doc.paths.readable_prefixes),
        egress_domains,
        env_scrub: principal.trust.rank() < 3,
        syscall_profile,
        risk_weight: 0,
    };
    proof {
        assert(r@.writable_prefixes =~= doc.paths.writable_prefixes.deep_view());
        assert(r@.readable_prefixes =~= doc.paths.readable_prefixes.deep_view());
    }
    r
}

/// The budget of leases compiled from a rule: the rule's, or the default one,
/// with at least the rule's risk weight in risk units.
pub open spec fn rule_budget(rule: &PolicyRule) -> ResourceBudget {
    let base = match rule.budget {
        Some(b) => b,
        None => ResourceBudget::spec_step_default(),
    };
    ResourceBudget {
        risk_units: if base.risk_units >= rule.risk_weight {
            base.risk_units
        } else {
            rule.risk_weight
        },
        ..base
    }
}

/// The lease compiled from a rule, under the given fresh identifier.
pub open spec fn lease_from(
    principal: Seq<char>,
    operation: Seq<char>,
    rule: &PolicyRule,
    extra: Seq<(Seq<char>, ConstraintView)>,
    branch: Option<Seq<char>>,
    now: Timestamp,
    id: Seq<char>,
) -> LeaseView {
    LeaseView {
        id,
        principal,
        operation,
        constraints: merged(constraints_view(rule.constraints), extra),
        remaining_uses: rule.max_uses,
        issued_at: now,
        expires_at: now.later(rule.ttl_seconds as nat),
        bound_branch: branch,
        budget: rule_budget(rule),
        parent_lease: None,
        preconditions: Map::empty(),
        revoked: false,
    }
}

/// Why a rule cannot be compiled into a grant; `None` when it can.
pub open spec fn grant_refusal(
    operation: Seq<char>,
    rule: &PolicyRule,
    extra: Seq<(Seq<char>, ConstraintView)>,
) -> Option<Seq<char>> {
    if rule.effect == RuleEffect::Deny {
        Some("rule `"@ + rule.id@ + "` is a deny rule and cannot be compiled into a grant"@)
    } else if !rule.covers(operation) {
        Some("rule `"@ + rule.id@ + "` does not cover operation `"@ + operation + "`"@)
    } else {
        match widened(constraints_view(rule.constraints), extra) {
            Some(p) => Some("extra constraint on `"@ + p + "` widens the rule constraint"@),
            None => None,
        }
    }
}

/// Compile an approved semantic grant into a [`CompiledGrant`].
///
/// `rule` is the (already matched) policy rule that authorized the grant;
/// `extra_constraints` lets the approver narrow further (e.g. pin the exact
/// repository). Extra constraints may only add parameters or replace a rule
/// constraint with one that narrows it; widening is rejected.
pub fn compile_grant(
    doc: &PolicyDocument,
    principal: &Principal,
    operation: &Operation,
    rule: &PolicyRule,
    extra_constraints: &IndexMap<String, Constraint>,
    branch: Option<BranchId>,
    now: Timestamp,
) -> (r: PolicyResult<CompiledGrant>)
    requires
        grant_refusal(operation@, rule, constraints_view(*extra_constraints)) is None
            ==> now.can_add(rule.ttl_seconds as nat),
    ensures
        match r {
            Ok(grant) => {
                &&& grant_refusal(operation@, rule, constraints_view(*extra_constraints)) is None
                &&& generated(grant.lease.id@, "lease-"@)
                &&& grant.lease@ == lease_from(
                    principal.id@,
                    operation@,
                    rule,
                    constraints_view(*extra_constraints),
                    branch.deep_view(),
                    now,
                    grant.lease.id@,
                )
                &&& grant.confinement@ == confinement_of(doc, principal.trust, rule.risk_weight)
            },
            Err(e) => {
                &&& e is GrantRejected
                &&& grant_refusal(operation@, rule, constraints_view(*extra_constraints)) == Some(
                    e->GrantRejected_0@,
                )
            },
        },
{
    if rule.effect == RuleEffect::Deny {
        return Err(
            PolicyError::GrantRejected(
                text::cat3(
                    "rule `",
                    rule.id.as_str(),
                    "` is a deny rule and cannot be compiled into a grant",
                ),
            ),
        );
    }
    if !rule.matches_operation(operation.0.as_str()) {
        return Err(
            PolicyError::GrantRejected(
                text::cat5(
                    "rule `",
                    rule.id.as_str(),
                    "` does not cover operation `",
                    operation.0.as_str(),
                    "`",
                ),
            ),
        );
    }
    let constraints = match narrow_by(&rule.constraints, extra_constraints) {
        Ok(m) => m,
        Err(p) => {
            return Err(
                PolicyError::GrantRejected(
                    text::cat3(
                        "extra constraint on `",
                        p.as_str(),
                        "` widens the rule constraint",
                    ),
                ),
            );
        },
    };
    let mut budget = match rule.budget {
        Some(b) => b,
        None => ResourceBudget::step_default(),
    };
    if budget.risk_units < rule.risk_weight {
        budget.risk_units = rule.risk_weight;
    }
    let lease = CapabilityLease {
        id: LeaseId::generate(),
        principal: principal.id.clone(),
        operation: operation.clone(),
        constraints,
        remaining_uses: rule.max_uses,
        issued_at: now,
        expires_at: now.plus_seconds(rule.ttl_seconds),
        bound_branch: branch,
        budget,
        parent_lease: None,
        preconditions: JsonMap::new(),
        revoked: false,
    };
    let mut confinement = compile_confinement(doc, principal);
    confinement.risk_weight = rule.risk_weight;
    Ok(CompiledGrant { lease, confinement })
}

/// What a principal is confined to goes by its trust: no network in quarantine and
/// the document's domains otherwise, a scrubbed environment unless it is elevated,
/// system calls without the network where there is no domain, restricted ones for
/// limited trust, and the document's paths for everyone.
pub proof fn law_confinement_goes_by_trust(doc: &PolicyDocument, trust: TrustLevel, risk: u32)
    ensures
        ({
            let c = confinement_of(doc, trust, risk);
            let open = !(trust is Quarantined) && doc.egress_domains@.len() > 0;
            &&& c.writable_prefixes == doc.paths.writable_prefixes.deep_view()
            &&& c.readable_prefixes == doc.paths.readable_prefixes.deep_view()
            &&& trust is Quarantined ==> c.egress_domains.len() == 0
            &&& !(trust is Quarantined) ==> c.egress_domains == doc.egress_domains.deep_view()
            &&& c.env_scrub == !(trust is Elevated)
            &&& !open ==> c.syscall_profile == SyscallProfile::Networkless
            &&& open && trust is Limited ==> c.syscall_profile == SyscallProfile::Restricted
            &&& open && !(trust is Limited) ==> c.syscall_profile == SyscallProfile::Standard
            &&& c.risk_weight == risk
        }),
{
}

/// A lease that is compiled from a rule carries what the rule grants: its uses, its
/// lifetime from now on, its constraints, and its budget, or the default one, with
/// no fewer risk units than the rule weighs.
pub proof fn law_leases_carry_their_rule(
    principal: Seq<char>,
    operation: Seq<char>,
    rule: &PolicyRule,
    branch: Option<Seq<char>>,
    now: Timestamp,
    id: Seq<char>,
)
    ensures
        ({
            let l = lease_from(principal, operation, rule, Seq::empty(), branch, now, id);
            &&& l.id == id
            &&& l.principal == principal
            &&& l.operation == operation
            &&& l.constraints == constraints_view(rule.constraints)
            &&& l.remaining_uses == rule.max_uses
            &&& l.issued_at == now
            &&& l.expires_at == now.later(rule.ttl_seconds as nat)
            &&& l.bound_branch == branch
            &&& l.parent_lease is None
            &&& !l.revoked
            &&& l.budget.risk_units >= rule.risk_weight
            &&& rule.budget matches Some(b) ==> {
                &&& l.budget.cpu_ms == b.cpu_ms
                &&& l.budget.memory_bytes == b.memory_bytes
                &&& l.budget.network_bytes == b.network_bytes
                &&& l.budget.tokens == b.tokens
                &&& l.budget.cost_micro_usd == b.cost_micro_usd
                &&& l.budget.risk_units >= b.risk_units
                &&& l.budget.risk_units == b.risk_units || l.budget.risk_units == rule.risk_weight
            }
            &&& rule.budget is None ==> {
                &&& l.budget.cpu_ms == 60_000
                &&& l.budget.memory_bytes == 2_147_483_648
                &&& l.budget.network_bytes == 268_435_456
                &&& l.budget.tokens == 200_000
                &&& l.budget.cost_micro_usd == 0
                &&& l.budget.risk_units == 10 || l.budget.risk_units == rule.risk_weight
                &&& l.budget.risk_units >= 10
            }
        }),
{
}

/// A rule compiles into a grant exactly if it is no deny rule, one of its globs
/// matches the operation, and no extra constraint widens one of its own.
pub proof fn law_grants_need_a_fitting_rule(
    operation: Seq<char>,
    rule: &PolicyRule,
    extra: Seq<(Seq<char>, ConstraintView)>,
)
    ensures
        grant_refusal(operation, rule, extra) is None <==> {
            &&& !(rule.effect is Deny)
            &&& exists|i: int|
                0 <= i < rule.operations@.len() && crate::glob::globs(
                    (#[trigger] rule.operations@[i])@,
                    operation,
                )
            &&& widened(constraints_view(rule.constraints), extra) is None
        },
{
}

/// A lease gets its rule's budget, or the default one, with risk units for at least
/// the rule's weight; no other amount changes.
pub proof fn law_rule_budgets_cover_their_risk(rule: &PolicyRule)
    ensures
        ({
            let b = rule_budget(rule);
            let base = match rule.budget {
                Some(x) => x,
                None => ResourceBudget::spec_step_default(),
            };
            &&& b.risk_units >= rule.risk_weight && b.risk_units >= base.risk_units
            &&& b.risk_units == rule.risk_weight || b.risk_units == base.risk_units
            &&& b.cpu_ms == base.cpu_ms && b.memory_bytes == base.memory_bytes
            &&& b.network_bytes == base.network_bytes && b.tokens == base.tokens
            &&& b.cost_micro_usd == base.cost_micro_usd
        }),
{
}

} // verus!
