//! The deterministic [`PolicyEngine`].
use indexmap::IndexMap;
use vstd::prelude::*;
use crate::capability::{Constraint, ConstraintView, LeaseView, Operation, branch_view};
use crate::constraints::{
    constraints_view, count, entries, entry_at, law_violation_iff_some_constraint_fails, merged,
    no_constraints, violated, violation,
};
use crate::denial::{Denial, DenialCode, DenialView, RequestableScope, ScopeView};
use crate::glob::{glob_match, globs};
use crate::ids::{BranchId, generated};
use crate::json::{Json, JsonMap, Value, object1, object2};
use crate::policy::compiler::{
    CompiledGrant, ConfinementView, compile_grant, confinement_of, lease_from,
};
use crate::policy::document::{PolicyDocument, PolicyRule, RequestableScopeSpec, RuleEffect};
use crate::principal::{Principal, TrustLevel};
use crate::text;
use crate::time::Timestamp;

verus! {

/// The outcome of a policy evaluation.
#[derive(Debug)]
pub enum Decision {
    /// The operation is allowed. Carries the compiled lease and confinement,
    /// ready for the scheduler.
    Allow {
        /// Id of the rule that granted.
        rule_id: String,
        /// Compiled grant (lease and backend confinement).
        grant: CompiledGrant,
    },
    /// The operation is allowed only with out-of-band approval.
    RequireApproval {
        /// Id of the rule that requires approval.
        rule_id: String,
        /// The operation awaiting approval.
        operation: Operation,
        /// The constraint sketch the approver is signing off on.
        constraints: Value,
        /// Policy epoch at evaluation time; approvals are pinned to it.
        policy_epoch: u64,
    },
    /// The operation is denied. The denial is already redacted for the
    /// requesting principal's trust level.
    Deny {
        /// Machine-readable, trust-redacted denial.
        denial: Denial,
    },
}

/// What a [`Decision`] says.
pub enum DecisionView {
    Allow { rule_id: Seq<char>, lease: LeaseView, confinement: ConfinementView },
    RequireApproval {
        rule_id: Seq<char>,
        operation: Seq<char>,
        constraints: Json,
        policy_epoch: u64,
    },
    Deny { denial: DenialView },
}

impl Decision {
    pub open spec fn view(&self) -> DecisionView {
        match self {
            Decision::Allow { rule_id, grant } => DecisionView::Allow {
                rule_id: rule_id@,
                lease: grant.lease@,
                confinement: grant.confinement@,
            },
            Decision::RequireApproval { rule_id, operation, constraints, policy_epoch } => {
                DecisionView::RequireApproval {
                    rule_id: rule_id@,
                    operation: operation@,
                    constraints: constraints@,
                    policy_epoch: *policy_epoch,
                }
            },
            Decision::Deny { denial } => DecisionView::Deny { denial: denial@ },
        }
    }
}

/// A constraint in JSON.
pub open spec fn constraint_json(c: ConstraintView) -> Json {
    match c {
        ConstraintView::Equals(value) => Json::Object(
            map!["kind"@ => Json::Text("equals"@), "value"@ => value],
        ),
        ConstraintView::OneOf(values) => Json::Object(
            map!["kind"@ => Json::Text("one_of"@), "values"@ => Json::Array(values)],
        ),
        ConstraintView::Glob(pattern) => Json::Object(
            map!["kind"@ => Json::Text("glob"@), "pattern"@ => Json::Text(pattern)],
        ),
        ConstraintView::Prefix(prefix) => Json::Object(
            map!["kind"@ => Json::Text("prefix"@), "prefix"@ => Json::Text(prefix)],
        ),
        ConstraintView::Max(max) => Json::Object(
            map!["kind"@ => Json::Text("max"@), "max"@ => Json::Number(max)],
        ),
        ConstraintView::Forbidden => Json::Object(map!["kind"@ => Json::Text("forbidden"@)]),
    }
}

/// Constraints in JSON: an object with a member for each parameter.
pub open spec fn constraints_json(cs: Seq<(Seq<char>, ConstraintView)>) -> Map<Seq<char>, Json>
    decreases cs.len(),
{
    if cs.len() == 0 {
        Map::empty()
    } else {
        constraints_json(cs.drop_last()).insert(cs.last().0, constraint_json(cs.last().1))
    }
}

fn constraint_value(c: &Constraint) -> (r: Value)
    ensures
        r@ == constraint_json(c@),
{
    match c {
        Constraint::Equals { value } => object2(
            "kind",
            Value::text("equals"),
            "value",
            value.clone(),
        ),
        Constraint::OneOf { values } => {
            let copy = c.clone();
            let list = match copy {
                Constraint::OneOf { values } => values,
                _ => Vec::new(),
            };
            proof {
                crate::json::lemma_values_deep_view(list);
            }
            object2("kind", Value::text("one_of"), "values", Value::Array(list))
        },
        Constraint::Glob { pattern } => object2(
            "kind",
            Value::text("glob"),
            "pattern",
            Value::text(pattern.as_str()),
        ),
        Constraint::Prefix { prefix } => object2(
            "kind",
            Value::text("prefix"),
            "prefix",
            Value::text(prefix.as_str()),
        ),
        Constraint::Max { max } => object2(
            "kind",
            Value::text("max"),
            "max",
            Value::Number(max.clone()),
        ),
        Constraint::Forbidden => object1("kind", Value::text("forbidden")),
    }
}

/// Constraints in JSON.
pub fn constraints_value(m: &IndexMap<String, Constraint>) -> (r: Value)
    ensures
        r@ == Json::Object(constraints_json(constraints_view(*m))),
{
    let n = count(m);
    let ghost cs = constraints_view(*m);
    let mut out = JsonMap::new();
    let mut i: usize = 0;
    proof {
        assert(cs.take(0) == Seq::<(Seq<char>, ConstraintView)>::empty());
    }
    while i < n
        invariant
            i <= n,
            n == entries(*m).len(),
            cs == constraints_view(*m),
            out@ == constraints_json(cs.take(i as int)),
        decreases n - i,
    {
        let e = entry_at(m, i);
        proof {
            assert(cs.take(i + 1).drop_last() == cs.take(i as int));
            assert(cs.take(i + 1).last() == (e.0@, e.1@));
        }
        out.insert(e.0.clone(), constraint_value(e.1));
        i = i + 1;
    }
    proof {
        assert(cs.take(n as int) == cs);
    }
    Value::Object(out)
}

/// The position of the first rule, from `k` on, that is about the principal
/// and the operation; the number of rules when there is none.
pub open spec fn first_match(
    rules: Seq<PolicyRule>,
    principal: &Principal,
    operation: Seq<char>,
    k: int,
) -> int
    decreases rules.len() - k,
{
    if k >= rules.len() {
        rules.len() as int
    } else if rules[k].applies(principal, operation) {
        k
    } else {
        first_match(rules, principal, operation, k + 1)
    }
}

/// The globs of the allow rules that are about the principal, in document
/// order.
pub open spec fn offered(rules: Seq<PolicyRule>, principal: &Principal) -> Seq<Seq<char>>
    decreases rules.len(),
{
    if rules.len() == 0 {
        Seq::empty()
    } else if rules.last().effect == RuleEffect::Allow && rules.last().principals.selects(
        principal,
    ) {
        offered(rules.drop_last(), principal) + rules.last().operations.deep_view()
    } else {
        offered(rules.drop_last(), principal)
    }
}

/// The texts other than `skip`, each at its first place only.
pub open spec fn distinct_but(s: Seq<Seq<char>>, skip: Seq<char>) -> Seq<Seq<char>>
    decreases s.len(),
{
    if s.len() == 0 {
        Seq::empty()
    } else if s.last() == skip || distinct_but(s.drop_last(), skip).contains(s.last()) {
        distinct_but(s.drop_last(), skip)
    } else {
        distinct_but(s.drop_last(), skip).push(s.last())
    }
}

/// What a requestable scope says.
pub open spec fn scope_of(s: RequestableScopeSpec) -> ScopeView {
    ScopeView {
        operation: s.operation@,
        constraints: s.constraints@,
        requires_human: s.requires_human,
    }
}

/// The scope is relevant to the operation: one matches the other as a glob.
pub open spec fn relevant(s: RequestableScopeSpec, operation: Seq<char>) -> bool {
    globs(s.operation@, operation) || globs(operation, s.operation@)
}

/// The relevant scopes, in document order.
pub open spec fn relevant_scopes(
    specs: Seq<RequestableScopeSpec>,
    operation: Seq<char>,
) -> Seq<ScopeView>
    decreases specs.len(),
{
    if specs.len() == 0 {
        Seq::empty()
    } else if relevant(specs.last(), operation) {
        relevant_scopes(specs.drop_last(), operation).push(scope_of(specs.last()))
    } else {
        relevant_scopes(specs.drop_last(), operation)
    }
}

/// The scopes that a denial of the operation offers.
pub open spec fn scopes_for(doc: &PolicyDocument, operation: Seq<char>) -> Seq<ScopeView> {
    let specs = doc.escalation.requestable@;
    if !doc.escalation.allow_requests {
        Seq::empty()
    } else if relevant_scopes(specs, operation).len() == 0 {
        Seq::new(specs.len(), |i: int| scope_of(specs[i]))
    } else {
        relevant_scopes(specs, operation)
    }
}

/// The denial of an operation, redacted for the principal.
pub open spec fn denial_for(
    doc: &PolicyDocument,
    principal: &Principal,
    operation: Seq<char>,
    code: DenialCode,
    reason: Seq<char>,
) -> DenialView {
    DenialView {
        code,
        attempted_operation: operation,
        reason,
        safe_alternatives: distinct_but(offered(doc.rules@, principal), operation),
        requestable_scopes: scopes_for(doc, operation),
        escalation_allowed: doc.escalation.allow_requests,
    }.redacted(principal.trust)
}

/// The decision on an invocation. It depends on the document, the principal,
/// the operation, the parameters, the branch and the clock; a lease that is
/// granted has the given fresh identifier.
pub open spec fn decide(
    doc: &PolicyDocument,
    principal: &Principal,
    operation: Seq<char>,
    params: Json,
    branch: Option<Seq<char>>,
    now: Timestamp,
    lease_id: Seq<char>,
) -> DecisionView {
    let k = first_match(doc.rules@, principal, operation, 0);
    if k >= doc.rules@.len() {
        DecisionView::Deny {
            denial: denial_for(
                doc,
                principal,
                operation,
                DenialCode::CapabilityDenied,
                "no policy rule grants this operation to this principal"@,
            ),
        }
    } else {
        let rule = doc.rules@[k];
        match rule.effect {
            RuleEffect::Deny => DecisionView::Deny {
                denial: denial_for(
                    doc,
                    principal,
                    operation,
                    DenialCode::PolicyForbidden,
                    "this operation is explicitly forbidden for this principal"@,
                ),
            },
            RuleEffect::RequireApproval => DecisionView::RequireApproval {
                rule_id: rule.id@,
                operation,
                constraints: Json::Object(constraints_json(constraints_view(rule.constraints))),
                policy_epoch: doc.policy_epoch,
            },
            RuleEffect::Allow => match violated(constraints_view(rule.constraints), params) {
                Some(p) => DecisionView::Deny {
                    denial: denial_for(
                        doc,
                        principal,
                        operation,
                        DenialCode::ConstraintViolated,
                        "parameter `"@ + p + "` violates the constraint on this operation"@,
                    ),
                },
                None => DecisionView::Allow {
                    rule_id: rule.id@,
                    lease: lease_from(
                        principal.id@,
                        operation,
                        &rule,
                        Seq::empty(),
                        branch,
                        now,
                        lease_id,
                    ),
                    confinement: confinement_of(doc, principal.trust, rule.risk_weight),
                },
            },
        }
    }
}

/// The identifier of the lease that a decision grants; empty when it grants
/// none.
pub open spec fn granted_id(d: DecisionView) -> Seq<char> {
    match d {
        DecisionView::Allow { lease, .. } => lease.id,
        _ => Seq::empty(),
    }
}

/// The calendar holds the expiry of the lease that the evaluation may grant.
pub open spec fn expiry_in_range(
    doc: &PolicyDocument,
    principal: &Principal,
    operation: Seq<char>,
    params: Json,
    now: Timestamp,
) -> bool {
    let k = first_match(doc.rules@, principal, operation, 0);
    k < doc.rules@.len() && doc.rules@[k].effect == RuleEffect::Allow && violated(
        constraints_view(doc.rules@[k].constraints),
        params,
    ) is None ==> now.can_add(doc.rules@[k].ttl_seconds as nat)
}

/// Deterministic policy evaluation over a [`PolicyDocument`].
///
/// `evaluate` takes exactly five inputs: the principal, the canonical
/// operation, the canonical parameters, the branch, and the clock. Intent hints
/// are deliberately not an input: free text can steer scheduling and audit
/// narration, but it must never change an authorization outcome.
#[derive(Debug)]
pub struct PolicyEngine {
    doc: PolicyDocument,
}

impl PolicyEngine {
    /// The document this engine evaluates against.
    pub closed spec fn spec_document(&self) -> PolicyDocument {
        self.doc
    }

    /// Build an engine over a policy document.
    pub fn new(doc: PolicyDocument) -> (r: Self)
        ensures
            r.spec_document() == doc,
    {
        PolicyEngine { doc }
    }

    /// The document this engine evaluates against.
    pub fn document(&self) -> (r: &PolicyDocument)
        ensures
            *r == self.spec_document(),
    {
        &self.doc
    }

    /// Mutable access to the document (mutations bump its epoch through the
    /// document's own setters).
    pub fn document_mut(&mut self) -> (r: &mut PolicyDocument)
        ensures
            *r == old(self).spec_document(),
            final(self).spec_document() == *final(r),
    {
        &mut self.doc
    }

    /// Whether the calendar holds the expiry of the lease that this evaluation may
    /// grant.
    pub fn expiry_fits(
        &self,
        principal: &Principal,
        operation: &Operation,
        params: &Value,
        now: Timestamp,
    ) -> (r: bool)
        ensures
            r == expiry_in_range(&self.spec_document(), principal, operation@, params@, now),
    {
        let ghost k0 = first_match(self.doc.rules@, principal, operation@, 0);
        let mut k: usize = 0;
        while k < self.doc.rules.len()
            invariant
                k <= self.doc.rules.len(),
                k0 == first_match(self.doc.rules@, principal, operation@, 0),
                k0 == first_match(self.doc.rules@, principal, operation@, k as int),
            decreases self.doc.rules.len() - k,
        {
            let rule = &self.doc.rules[k];
            if rule.principals.matches(principal) && rule.matches_operation(operation.0.as_str()) {
                return match rule.effect {
                    RuleEffect::Allow => violation(&rule.constraints, params).is_some()
                        || now.holds_later(rule.ttl_seconds),
                    _ => true,
                };
            }
            k = k + 1;
        }
        true
    }

    /// Evaluate whether `principal` may invoke `operation` with `params` on
    /// `branch` at time `now`.
    ///
    /// Rules are scanned in document order; the first rule whose principal
    /// selector and operation glob match decides. No matching rule denies.
    pub fn evaluate(
        &self,
        principal: &Principal,
        operation: &Operation,
        params: &Value,
        branch: Option<&BranchId>,
        now: Timestamp,
    ) -> (d: Decision)
        requires
            expiry_in_range(&self.spec_document(), principal, operation@, params@, now),
        ensures
            d@ == decide(
                &self.spec_document(),
                principal,
                operation@,
                params@,
                branch_view(branch),
                now,
                granted_id(d@),
            ),
            d is Allow ==> generated(granted_id(d@), "lease-"@),
    {
        let ghost k0 = first_match(self.doc.rules@, principal, operation@, 0);
        let mut k: usize = 0;
        while k < self.doc.rules.len()
            invariant
                k <= self.doc.rules.len(),
                k0 == first_match(self.doc.rules@, principal, operation@, 0),
                k0 == first_match(self.doc.rules@, principal, operation@, k as int),
                expiry_in_range(&self.spec_document(), principal, operation@, params@, now),
            decreases self.doc.rules.len() - k,
        {
            let rule = &self.doc.rules[k];
            if rule.principals.matches(principal) && rule.matches_operation(operation.0.as_str()) {
                match rule.effect {
                    RuleEffect::Deny => {
                        return self.deny(
                            principal,
                            operation,
                            DenialCode::PolicyForbidden,
                            "this operation is explicitly forbidden for this principal".to_owned(),
                        );
                    },
                    RuleEffect::RequireApproval => {
                        return Decision::RequireApproval {
                            rule_id: rule.id.clone(),
                            operation: operation.clone(),
                            constraints: constraints_value(&rule.constraints),
                            policy_epoch: self.doc.policy_epoch,
                        };
                    },
                    RuleEffect::Allow => {
                        if let Some(p) = violation(&rule.constraints, params) {
                            return self.deny(
                                principal,
                                operation,
                                DenialCode::ConstraintViolated,
                                text::cat3(
                                    "parameter `",
                                    p.as_str(),
                                    "` violates the constraint on this operation",
                                ),
                            );
                        }
                        let b = match branch {
                            Some(x) => Some(x.clone()),
                            None => None,
                        };
                        let none = no_constraints();
                        proof {
                            assert(constraints_view(none) =~= Seq::<
                                (Seq<char>, ConstraintView),
                            >::empty());
                        }
                        match compile_grant(
                            &self.doc,
                            principal,
                            operation,
                            rule,
                            &none,
                            b,
                            now,
                        ) {
                            Ok(grant) => {
                                return Decision::Allow { rule_id: rule.id.clone(), grant };
                            },
                            Err(_) => {
                                return self.deny(
                                    principal,
                                    operation,
                                    DenialCode::PolicyForbidden,
                                    "the matching grant could not be compiled".to_owned(),
                                );
                            },
                        }
                    },
                }
            }
            k = k + 1;
        }
        self.deny(
            principal,
            operation,
            DenialCode::CapabilityDenied,
            "no policy rule grants this operation to this principal".to_owned(),
        )
    }

    /// Build a redacted, machine-readable denial.
    fn deny(
        &self,
        principal: &Principal,
        operation: &Operation,
        code: DenialCode,
        reason: String,
    ) -> (d: Decision)
        ensures
            d@ == (DecisionView::Deny {
                denial: denial_for(
                    &self.spec_document(),
                    principal,
                    operation@,
                    code,
                    reason@,
                ),
            }),
            d is Deny,
    {
        let denial = Denial {
            code,
            attempted_operation: operation.clone(),
            reason,
            safe_alternatives: self.safe_alternatives(principal, operation),
            requestable_scopes: self.requestable_scopes(operation),
            escalation_allowed: self.doc.escalation.allow_requests,
        };
        Decision::Deny { denial: denial.redact_for(principal.trust) }
    }

    /// Operations (from allow rules matching this principal) the principal
    /// could use instead of `attempted`. Glob patterns are reported verbatim as
    /// operations: they leak only what the principal is already granted.
    fn safe_alternatives(&self, principal: &Principal, attempted: &Operation) -> (out: Vec<
        Operation,
    >)
        ensures
            out.deep_view() == distinct_but(
                offered(self.spec_document().rules@, principal),
                attempted@,
            ),
    {
        let mut out: Vec<Operation> = Vec::new();
        let rules = &self.doc.rules;
        let mut k: usize = 0;
        proof {
            assert(rules@.take(0) == Seq::<PolicyRule>::empty());
            assert(out.deep_view() =~= Seq::<Seq<char>>::empty());
        }
        while k < rules.len()
            invariant
                k <= rules.len(),
                out.deep_view() == distinct_but(
                    offered(rules@.take(k as int), principal),
                    attempted@,
                ),
            decreases rules.len() - k,
        {
            let rule = &rules[k];
            proof {
                assert(rules@.take(k + 1).drop_last() == rules@.take(k as int));
                assert(rules@.take(k + 1).last() == rules@[k as int]);
            }
            if rule.effect == RuleEffect::Allow && rule.principals.matches(principal) {
                let ghost base = offered(rules@.take(k as int), principal);
                let ghost globs = rule.operations.deep_view();
                let mut i: usize = 0;
                proof {
                    assert(base + globs.take(0) == base);
                }
                while i < rule.operations.len()
                    invariant
                        i <= rule.operations.len(),
                        globs == rule.operations.deep_view(),
                        out.deep_view() == distinct_but(base + globs.take(i as int), attempted@),
                    decreases rule.operations.len() - i,
                {
                    let ghost now = base + globs.take(i as int);
                    let ghost next = base + globs.take(i + 1);
                    let glob = &rule.operations[i];
                    proof {
                        assert(next.drop_last() == now);
                        assert(next.last() == glob@);
                    }
                    let skip = *glob == attempted.0;
                    if !skip && !contains_operation(&out, glob) {
                        let ghost before = out.deep_view();
                        out.push(Operation(glob.clone()));
                        proof {
                            assert(out.deep_view() =~= before.push(glob@));
                        }
                    }
                    i = i + 1;
                }
                proof {
                    assert(globs.take(globs.len() as int) == globs);
                }
            }
            k = k + 1;
        }
        proof {
            assert(rules@.take(rules@.len() as int) == rules@);
        }
        out
    }

    /// Escalation scopes relevant to `attempted` (falling back to all
    /// requestable scopes when none match directly).
    fn requestable_scopes(&self, attempted: &Operation) -> (out: Vec<RequestableScope>)
        ensures
            out.deep_view() == scopes_for(&self.spec_document(), attempted@),
    {
        let mut out: Vec<RequestableScope> = Vec::new();
        proof {
            assert(out.deep_view() =~= Seq::<ScopeView>::empty());
        }
        if !self.doc.escalation.allow_requests {
            return out;
        }
        let specs = &self.doc.escalation.requestable;
        let mut i: usize = 0;
        proof {
            assert(specs@.take(0) == Seq::<RequestableScopeSpec>::empty());
        }
        while i < specs.len()
            invariant
                i <= specs.len(),
                out.deep_view() == relevant_scopes(specs@.take(i as int), attempted@),
            decreases specs.len() - i,
        {
            let s = &specs[i];
            proof {
                assert(specs@.take(i + 1).drop_last() == specs@.take(i as int));
                assert(specs@.take(i + 1).last() == specs@[i as int]);
            }
            if glob_match(s.operation.as_str(), attempted.0.as_str()) || glob_match(
                attempted.0.as_str(),
                s.operation.as_str(),
            ) {
                let ghost before = out.deep_view();
                out.push(to_scope(s));
                proof {
                    assert(out.deep_view() =~= before.push(scope_of(*s)));
                }
            }
            i = i + 1;
        }
        proof {
            assert(specs@.take(specs@.len() as int) == specs@);
        }
        if out.len() > 0 {
            return out;
        }
        let mut all: Vec<RequestableScope> = Vec::new();
        let mut j: usize = 0;
        while j < specs.len()
            invariant
                j <= specs.len(),
                all.len() == j,
                forall|m: int| 0 <= m < j ==> (#[trigger] all@[m])@ == scope_of(specs@[m]),
            decreases specs.len() - j,
        {
            all.push(to_scope(&specs[j]));
            j = j + 1;
        }
        proof {
            assert(all.deep_view() =~= Seq::new(specs@.len(), |m: int| scope_of(specs@[m])));
        }
        all
    }
}

fn to_scope(s: &RequestableScopeSpec) -> (r: RequestableScope)
    ensures
        r@ == scope_of(*s),
{
    RequestableScope {
        operation: Operation(s.operation.clone()),
        constraints: s.constraints.clone(),
        requires_human: s.requires_human,
    }
}

fn contains_operation(ops: &Vec<Operation>, name: &String) -> (r: bool)
    ensures
        r == ops.deep_view().contains(name@),
{
    let mut i: usize = 0;
    while i < ops.len()
        invariant
            i <= ops.len(),
            forall|j: int| 0 <= j < i ==> #[trigger] ops.deep_view()[j] != name@,
        decreases ops.len() - i,
    {
        proof {
            assert(ops.deep_view()[i as int] == ops@[i as int]@);
        }
        if ops[i].0 == *name {
            return true;
        }
        i = i + 1;
    }
    false
}

/// Nothing is allowed that no rule is about: the default is to deny.
pub proof fn law_default_deny(
    doc: &PolicyDocument,
    principal: &Principal,
    operation: Seq<char>,
    params: Json,
    branch: Option<Seq<char>>,
    now: Timestamp,
    id: Seq<char>,
)
    requires
        forall|i: int| 0 <= i < doc.rules@.len() ==> !(#[trigger] doc.rules@[i]).applies(
            principal,
            operation,
        ),
    ensures
        decide(doc, principal, operation, params, branch, now, id) is Deny,
{
    lemma_first_match_none(doc.rules@, principal, operation, 0);
}

proof fn lemma_first_match_in_range(
    rules: Seq<PolicyRule>,
    principal: &Principal,
    operation: Seq<char>,
    k: int,
)
    requires
        0 <= k <= rules.len(),
    ensures
        0 <= first_match(rules, principal, operation, k) <= rules.len(),
    decreases rules.len() - k,
{
    if k < rules.len() {
        lemma_first_match_in_range(rules, principal, operation, k + 1);
    }
}

proof fn lemma_first_match_none(
    rules: Seq<PolicyRule>,
    principal: &Principal,
    operation: Seq<char>,
    k: int,
)
    requires
        0 <= k <= rules.len(),
        forall|i: int| k <= i < rules.len() ==> !(#[trigger] rules[i]).applies(
            principal,
            operation,
        ),
    ensures
        first_match(rules, principal, operation, k) == rules.len(),
    decreases rules.len() - k,
{
    if k < rules.len() {
        lemma_first_match_none(rules, principal, operation, k + 1);
    }
}

proof fn lemma_first_match_at(
    rules: Seq<PolicyRule>,
    principal: &Principal,
    operation: Seq<char>,
    k: int,
    m: int,
)
    requires
        0 <= k <= m < rules.len(),
        rules[m].applies(principal, operation),
        forall|i: int| k <= i < m ==> !(#[trigger] rules[i]).applies(principal, operation),
    ensures
        first_match(rules, principal, operation, k) == m,
    decreases m - k,
{
    if k < m {
        lemma_first_match_at(rules, principal, operation, k + 1, m);
    }
}

/// The first rule about the principal and the operation decides: a deny rule
/// there denies, whatever later rules say.
pub proof fn law_first_deny_rule_wins(
    doc: &PolicyDocument,
    principal: &Principal,
    operation: Seq<char>,
    params: Json,
    branch: Option<Seq<char>>,
    now: Timestamp,
    id: Seq<char>,
    m: int,
)
    requires
        0 <= m < doc.rules@.len(),
        doc.rules@[m].applies(principal, operation),
        doc.rules@[m].effect == RuleEffect::Deny,
        forall|i: int| 0 <= i < m ==> !(#[trigger] doc.rules@[i]).applies(principal, operation),
    ensures
        decide(doc, principal, operation, params, branch, now, id) is Deny,
{
    lemma_first_match_at(doc.rules@, principal, operation, 0, m);
}

/// A lease that is granted authorizes the invocation it was granted for, at the
/// time of the grant, when the rule grants a use and time to use it.
pub proof fn law_grant_authorizes_the_request(
    doc: &PolicyDocument,
    principal: &Principal,
    operation: Seq<char>,
    params: Json,
    branch: Option<Seq<char>>,
    now: Timestamp,
    id: Seq<char>,
)
    requires
        expiry_in_range(doc, principal, operation, params, now),
        decide(doc, principal, operation, params, branch, now, id) is Allow,
        now.before(
            decide(
                doc,
                principal,
                operation,
                params,
                branch,
                now,
                id,
            )->Allow_lease.expires_at,
        ),
        decide(
            doc,
            principal,
            operation,
            params,
            branch,
            now,
            id,
        )->Allow_lease.remaining_uses > 0,
    ensures
        decide(
            doc,
            principal,
            operation,
            params,
            branch,
            now,
            id,
        )->Allow_lease.authorizes(principal.id@, operation, params, branch, now),
{
    let k = first_match(doc.rules@, principal, operation, 0);
    let rule = doc.rules@[k];
    law_violation_iff_some_constraint_fails(constraints_view(rule.constraints), params);
    assert(merged(constraints_view(rule.constraints), Seq::empty()) == constraints_view(
        rule.constraints,
    ));
}

/// A quarantined principal gets no network.
pub proof fn law_quarantine_means_networkless(doc: &PolicyDocument, risk_weight: u32)
    ensures
        confinement_of(doc, TrustLevel::Quarantined, risk_weight).egress_domains.len() == 0,
        confinement_of(doc, TrustLevel::Quarantined, risk_weight).syscall_profile
            == crate::policy::compiler::SyscallProfile::Networkless,
{
}

/// The first rule about the principal and the operation decides: what it allows is
/// granted with its own terms if the parameters meet its constraints, and else
/// denied; what it denies is denied; what needs approval is said to.
pub proof fn law_first_rule_decides(
    doc: &PolicyDocument,
    principal: &Principal,
    operation: Seq<char>,
    params: Json,
    branch: Option<Seq<char>>,
    now: Timestamp,
    id: Seq<char>,
    m: int,
)
    requires
        0 <= m < doc.rules@.len(),
        doc.rules@[m].applies(principal, operation),
        forall|i: int| 0 <= i < m ==> !(#[trigger] doc.rules@[i]).applies(principal, operation),
    ensures
        ({
            let rule = doc.rules@[m];
            let d = decide(doc, principal, operation, params, branch, now, id);
            match rule.effect {
                RuleEffect::Deny => d matches DecisionView::Deny { denial } && denial.code
                    == DenialCode::PolicyForbidden && denial.attempted_operation == operation,
                RuleEffect::RequireApproval => d matches DecisionView::RequireApproval {
                    rule_id,
                    operation: op,
                    constraints,
                    policy_epoch,
                } && rule_id == rule.id@ && op == operation && policy_epoch == doc.policy_epoch,
                RuleEffect::Allow => if violated(constraints_view(rule.constraints), params) is None {
                    d matches DecisionView::Allow { rule_id, lease, confinement } && rule_id
                        == rule.id@ && lease.id == id && lease.principal == principal.id@
                        && lease.operation == operation && lease.constraints == constraints_view(
                        rule.constraints,
                    ) && lease.remaining_uses == rule.max_uses && lease.expires_at == now.later(
                        rule.ttl_seconds as nat,
                    ) && lease.bound_branch == branch && !lease.revoked && confinement
                        == confinement_of(doc, principal.trust, rule.risk_weight)
                } else {
                    d matches DecisionView::Deny { denial } && denial.code
                        == DenialCode::ConstraintViolated && denial.attempted_operation
                        == operation
                },
            }
        }),
{
    lemma_first_applying(doc.rules@, principal, operation, 0, m);
}

proof fn lemma_first_applying(
    rules: Seq<PolicyRule>,
    principal: &Principal,
    operation: Seq<char>,
    k: int,
    m: int,
)
    requires
        0 <= k <= m < rules.len(),
        rules[m].applies(principal, operation),
        forall|i: int| k <= i < m ==> !(#[trigger] rules[i]).applies(principal, operation),
    ensures
        first_match(rules, principal, operation, k) == m,
    decreases m - k,
{
    if k < m {
        assert(!rules[k].applies(principal, operation));
        lemma_first_applying(rules, principal, operation, k + 1, m);
    }
}

proof fn lemma_none_applies(
    rules: Seq<PolicyRule>,
    principal: &Principal,
    operation: Seq<char>,
    k: int,
)
    requires
        0 <= k <= rules.len(),
        forall|i: int| k <= i < rules.len() ==> !(#[trigger] rules[i]).applies(principal, operation),
    ensures
        first_match(rules, principal, operation, k) == rules.len(),
    decreases rules.len() - k,
{
    if k < rules.len() {
        assert(!rules[k].applies(principal, operation));
        lemma_none_applies(rules, principal, operation, k + 1);
    }
}

/// Where no rule is about the principal and the operation, it is denied as a
/// capability that nobody grants.
pub proof fn law_ungranted_operations_are_denied(
    doc: &PolicyDocument,
    principal: &Principal,
    operation: Seq<char>,
    params: Json,
    branch: Option<Seq<char>>,
    now: Timestamp,
    id: Seq<char>,
)
    requires
        forall|i: int|
            0 <= i < doc.rules@.len() ==> !(#[trigger] doc.rules@[i]).applies(principal, operation),
    ensures
        decide(doc, principal, operation, params, branch, now, id) matches DecisionView::Deny {
            denial,
        } && denial.code == DenialCode::CapabilityDenied && denial.attempted_operation == operation,
{
    lemma_none_applies(doc.rules@, principal, operation, 0);
}

/// What is offered to a principal is what the allow rules about it name, and nothing
/// else.
pub proof fn law_offers_are_those_of_allow_rules(
    rules: Seq<PolicyRule>,
    principal: &Principal,
    glob: Seq<char>,
)
    ensures
        offered(rules, principal).contains(glob) <==> exists|i: int, j: int|
            0 <= i < rules.len() && rules[i].effect is Allow && rules[i].principals.selects(
                principal,
            ) && 0 <= j < rules[i].operations@.len() && (#[trigger] rules[i].operations@[j])@
                == glob,
    decreases rules.len(),
{
    if rules.len() > 0 {
        let before = rules.drop_last();
        let last = rules.last();
        law_offers_are_those_of_allow_rules(before, principal, glob);
        let a = offered(before, principal);
        let ops = last.operations.deep_view();
        let all = offered(rules, principal);
        let n = rules.len() - 1;
        if all.contains(glob) {
            if a.contains(glob) {
                let (i, j) = choose|i: int, j: int|
                    0 <= i < before.len() && before[i].effect is Allow
                        && before[i].principals.selects(principal) && 0 <= j
                        < before[i].operations@.len() && (#[trigger] before[i].operations@[j])@
                        == glob;
                assert(rules[i].operations@[j]@ == glob);
            } else {
                let x = all.index_of(glob);
                assert(all[x] == glob);
                if x < a.len() {
                    assert(a[x] == glob);
                }
                assert(ops[x - a.len()] == glob);
                assert(rules[n].operations@[x - a.len()]@ == glob);
            }
        }
        assert forall|i: int, j: int|
            0 <= i < rules.len() && rules[i].effect is Allow && rules[i].principals.selects(
                principal,
            ) && 0 <= j < rules[i].operations@.len() && (#[trigger] rules[i].operations@[j])@
                == glob implies all.contains(glob) by {
            if i < n {
                assert(before[i].operations@[j]@ == glob);
                assert(a.contains(glob));
                let x = a.index_of(glob);
                assert(all[x] == glob);
            } else {
                assert(ops[j] == glob);
                assert(all[a.len() + j] == glob);
            }
        }
    }
}

/// The alternatives name each text once, all of them but the skipped one.
pub proof fn law_alternatives_are_distinct(s: Seq<Seq<char>>, skip: Seq<char>, t: Seq<char>)
    ensures
        distinct_but(s, skip).no_duplicates(),
        distinct_but(s, skip).contains(t) <==> s.contains(t) && t != skip,
    decreases s.len(),
{
    if s.len() > 0 {
        let before = s.drop_last();
        law_alternatives_are_distinct(before, skip, t);
        let d = distinct_but(before, skip);
        let all = distinct_but(s, skip);
        if s.contains(t) {
            let i = s.index_of(t);
            if i < before.len() {
                assert(before[i] == t);
            }
        }
        if before.contains(t) {
            let i = before.index_of(t);
            assert(s[i] == t);
        }
        if all.contains(t) {
            let i = all.index_of(t);
            if i < d.len() {
                assert(d[i] == t);
            } else {
                assert(s[s.len() - 1] == t);
            }
        }
        if d.contains(t) {
            let i = d.index_of(t);
            assert(all[i] == t);
        }
        if s.last() == t && t != skip {
            assert(all.contains(t)) by {
                if !d.contains(t) {
                    assert(all[d.len() as int] == t);
                }
            }
        }
        assert forall|i: int, j: int|
            0 <= i < all.len() && 0 <= j < all.len() && i != j implies all[i] != all[j] by {
            if i < d.len() {
                assert(d.contains(d[i]));
            }
            if j < d.len() {
                assert(d.contains(d[j]));
            }
        }
    }
}

/// A denial offers scopes only where the document takes requests: those that are
/// relevant to the operation or, where none is, all of them.
pub proof fn law_scopes_are_offered_where_requests_are_taken(
    doc: &PolicyDocument,
    operation: Seq<char>,
    i: int,
)
    requires
        0 <= i < doc.escalation.requestable@.len(),
    ensures
        ({
            let specs = doc.escalation.requestable@;
            let s = specs[i];
            let offer = scopes_for(doc, operation);
            let scope = ScopeView {
                operation: s.operation@,
                constraints: s.constraints@,
                requires_human: s.requires_human,
            };
            let fits = |x: RequestableScopeSpec|
                globs(x.operation@, operation) || globs(operation, x.operation@);
            &&& !doc.escalation.allow_requests ==> offer.len() == 0
            &&& doc.escalation.allow_requests && fits(s) ==> offer.contains(scope)
            &&& doc.escalation.allow_requests && (forall|j: int|
                0 <= j < specs.len() ==> !fits(#[trigger] specs[j])) ==> offer.contains(scope)
        }),
{
    let specs = doc.escalation.requestable@;
    if relevant(specs[i], operation) {
        lemma_relevant(specs, operation, i);
    }
    let offer = scopes_for(doc, operation);
    if doc.escalation.allow_requests && relevant_scopes(specs, operation).len() == 0 {
        assert(offer[i] == scope_of(specs[i]));
    }
    if forall|j: int| 0 <= j < specs.len() ==> !relevant(#[trigger] specs[j], operation) {
        lemma_none_relevant(specs, operation);
    }
    let fits = |x: RequestableScopeSpec|
        globs(x.operation@, operation) || globs(operation, x.operation@);
    if forall|j: int| 0 <= j < specs.len() ==> !fits(#[trigger] specs[j]) {
        assert forall|j: int| 0 <= j < specs.len() implies !relevant(#[trigger] specs[j], operation) by {
            assert(!fits(specs[j]));
        }
        lemma_none_relevant(specs, operation);
    }
}

proof fn lemma_relevant(specs: Seq<RequestableScopeSpec>, operation: Seq<char>, i: int)
    requires
        0 <= i < specs.len(),
        relevant(specs[i], operation),
    ensures
        relevant_scopes(specs, operation).contains(scope_of(specs[i])),
    decreases specs.len(),
{
    let before = relevant_scopes(specs.drop_last(), operation);
    let all = relevant_scopes(specs, operation);
    if i < specs.len() - 1 {
        lemma_relevant(specs.drop_last(), operation, i);
        let x = before.index_of(scope_of(specs[i]));
        assert(all[x] == scope_of(specs[i]));
    } else {
        assert(all[before.len() as int] == scope_of(specs[i]));
    }
}

proof fn lemma_none_relevant(specs: Seq<RequestableScopeSpec>, operation: Seq<char>)
    requires
        forall|j: int| 0 <= j < specs.len() ==> !relevant(#[trigger] specs[j], operation),
    ensures
        relevant_scopes(specs, operation).len() == 0,
    decreases specs.len(),
{
    if specs.len() > 0 {
        let before = specs.drop_last();
        assert forall|j: int| 0 <= j < before.len() implies !relevant(
            #[trigger] before[j],
            operation,
        ) by {
            assert(before[j] == specs[j]);
        }
        assert(!relevant(specs[specs.len() - 1], operation));
        lemma_none_relevant(before, operation);
    }
}

/// A denial offers the relevant scopes, in document order; where none is relevant all
/// of them, and where requests are not taken none.
pub proof fn law_relevant_scopes_come_alone(
    doc: &PolicyDocument,
    specs: Seq<RequestableScopeSpec>,
    spec: RequestableScopeSpec,
    operation: Seq<char>,
)
    ensures
        relevant_scopes(Seq::empty(), operation).len() == 0,
        globs(spec.operation@, operation) || globs(operation, spec.operation@) ==> relevant_scopes(
            specs.push(spec),
            operation,
        ) == relevant_scopes(specs, operation).push(scope_of(spec)),
        !globs(spec.operation@, operation) && !globs(operation, spec.operation@)
            ==> relevant_scopes(specs.push(spec), operation) == relevant_scopes(specs, operation),
        !doc.escalation.allow_requests ==> scopes_for(doc, operation).len() == 0,
        doc.escalation.allow_requests && relevant_scopes(
            doc.escalation.requestable@,
            operation,
        ).len() > 0 ==> scopes_for(doc, operation) == relevant_scopes(
            doc.escalation.requestable@,
            operation,
        ),
        doc.escalation.allow_requests && relevant_scopes(
            doc.escalation.requestable@,
            operation,
        ).len() == 0 ==> scopes_for(doc, operation).len() == doc.escalation.requestable@.len()
            && forall|i: int|
            0 <= i < doc.escalation.requestable@.len() ==> #[trigger] scopes_for(doc, operation)[i]
                == scope_of(doc.escalation.requestable@[i]),
        scope_of(spec).operation == spec.operation@,
        scope_of(spec).constraints == spec.constraints@,
        scope_of(spec).requires_human == spec.requires_human,
{
    assert(specs.push(spec).drop_last() =~= specs);
}

/// A denial of the policy says what was attempted and why, and can be escalated
/// exactly where requests are taken; a quarantined principal is told less.
pub proof fn law_policy_denials_say_what_and_why(
    doc: &PolicyDocument,
    principal: &Principal,
    operation: Seq<char>,
    code: DenialCode,
    reason: Seq<char>,
)
    ensures
        ({
            let d = denial_for(doc, principal, operation, code, reason);
            let open = principal.trust != TrustLevel::Quarantined;
            &&& d.code == code && d.attempted_operation == operation
            &&& d.safe_alternatives == distinct_but(offered(doc.rules@, principal), operation)
            &&& open ==> d.reason == reason
            &&& open ==> d.requestable_scopes == scopes_for(doc, operation)
            &&& open ==> d.escalation_allowed == doc.escalation.allow_requests
            &&& !open ==> d.requestable_scopes.len() == 0 && !d.escalation_allowed
        }),
{
}

/// The constraints that an approval would cover are told parameter by parameter; of
/// two for one parameter the later counts.
pub proof fn law_constraints_are_told_by_parameter(
    cs: Seq<(Seq<char>, ConstraintView)>,
    c: (Seq<char>, ConstraintView),
    other: Seq<char>,
)
    ensures
        constraints_json(Seq::empty()) == Map::<Seq<char>, Json>::empty(),
        constraints_json(cs.push(c)).contains_key(c.0) && constraints_json(cs.push(c))[c.0]
            == constraint_json(c.1),
        other != c.0 ==> (constraints_json(cs.push(c)).contains_key(other) <==> constraints_json(
            cs,
        ).contains_key(other)),
        other != c.0 && constraints_json(cs).contains_key(other) ==> constraints_json(
            cs.push(c),
        )[other] == constraints_json(cs)[other],
{
    assert(cs.push(c).drop_last() =~= cs);
}

/// A constraint is told with its kind and its bound, so that two that differ never
/// read the same.
pub proof fn law_constraints_are_told_apart(a: ConstraintView, b: ConstraintView)
    requires
        constraint_json(a) == constraint_json(b),
    ensures
        a == b,
{
    reveal_strlit("kind");
    reveal_strlit("value");
    reveal_strlit("values");
    reveal_strlit("pattern");
    reveal_strlit("prefix");
    reveal_strlit("max");
    reveal_strlit("equals");
    reveal_strlit("one_of");
    reveal_strlit("glob");
    reveal_strlit("forbidden");
    assert("kind"@.len() == 4 && "value"@.len() == 5 && "values"@.len() == 6);
    assert("pattern"@.len() == 7 && "prefix"@.len() == 6 && "max"@.len() == 3);
    assert("equals"@.len() == 6 && "one_of"@.len() == 6 && "glob"@.len() == 4);
    assert("forbidden"@.len() == 9);
    assert("equals"@[0] == 'e' && "one_of"@[0] == 'o' && "prefix"@[0] == 'p');
    let m = constraint_json(a)->Object_0;
    let n = constraint_json(b)->Object_0;
    assert(m["kind"@] == n["kind"@]);
    assert(m["value"@] == n["value"@] && m["values"@] == n["values"@]);
    assert(m["pattern"@] == n["pattern"@] && m["prefix"@] == n["prefix"@] && m["max"@] == n["max"@]);
}

} // verus!
