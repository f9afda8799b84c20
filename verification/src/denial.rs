//! Machine-readable denials: a policy rejection is a high-quality observation
//! that a well-behaved agent can recover from without human interruption.
use vstd::prelude::*;
use crate::capability::Operation;
use crate::json::{Json, JsonMap, Value, object3, put_list, texts_json, with_list};
use crate::principal::TrustLevel;

verus! {

/// Why an operation was refused.
#[derive(Debug, Clone, Copy, PartialEq, Eq, Structural)]
pub enum DenialCode {
    CapabilityDenied,
    CapabilityExpired,
    CapabilityExhausted,
    BudgetExhausted,
    ConstraintViolated,
    BranchMismatch,
    EffectRequiresApproval,
    StaleAuthorization,
    PreconditionFailed,
    DuplicateCommit,
    BackendUnavailable,
    PolicyForbidden,
}

impl DenialCode {
    /// The code on the wire.
    pub open spec fn spec_wire(self) -> Seq<char> {
        match self {
            DenialCode::CapabilityDenied => "CAPABILITY_DENIED"@,
            DenialCode::CapabilityExpired => "CAPABILITY_EXPIRED"@,
            DenialCode::CapabilityExhausted => "CAPABILITY_EXHAUSTED"@,
            DenialCode::BudgetExhausted => "BUDGET_EXHAUSTED"@,
            DenialCode::ConstraintViolated => "CONSTRAINT_VIOLATED"@,
            DenialCode::BranchMismatch => "BRANCH_MISMATCH"@,
            DenialCode::EffectRequiresApproval => "EFFECT_REQUIRES_APPROVAL"@,
            DenialCode::StaleAuthorization => "STALE_AUTHORIZATION"@,
            DenialCode::PreconditionFailed => "PRECONDITION_FAILED"@,
            DenialCode::DuplicateCommit => "DUPLICATE_COMMIT"@,
            DenialCode::BackendUnavailable => "BACKEND_UNAVAILABLE"@,
            DenialCode::PolicyForbidden => "POLICY_FORBIDDEN"@,
        }
    }

    /// The code on the wire.
    pub fn wire(&self) -> (r: &'static str)
        ensures
            r@ == self.spec_wire(),
    {
        match self {
            DenialCode::CapabilityDenied => "CAPABILITY_DENIED",
            DenialCode::CapabilityExpired => "CAPABILITY_EXPIRED",
            DenialCode::CapabilityExhausted => "CAPABILITY_EXHAUSTED",
            DenialCode::BudgetExhausted => "BUDGET_EXHAUSTED",
            DenialCode::ConstraintViolated => "CONSTRAINT_VIOLATED",
            DenialCode::BranchMismatch => "BRANCH_MISMATCH",
            DenialCode::EffectRequiresApproval => "EFFECT_REQUIRES_APPROVAL",
            DenialCode::StaleAuthorization => "STALE_AUTHORIZATION",
            DenialCode::PreconditionFailed => "PRECONDITION_FAILED",
            DenialCode::DuplicateCommit => "DUPLICATE_COMMIT",
            DenialCode::BackendUnavailable => "BACKEND_UNAVAILABLE",
            DenialCode::PolicyForbidden => "POLICY_FORBIDDEN",
        }
    }
}

/// A scope the agent may request to unblock itself.
#[derive(Debug, PartialEq)]
pub struct RequestableScope {
    pub operation: Operation,
    /// Constraint sketch the policy would consider, e.g.
    /// `{"repository": "org/repo", "max_count": 1}`.
    pub constraints: Value,
    /// Whether granting this requires a human in the loop.
    pub requires_human: bool,
}

/// What a [`RequestableScope`] says.
pub struct ScopeView {
    pub operation: Seq<char>,
    pub constraints: Json,
    pub requires_human: bool,
}

impl RequestableScope {
    pub open spec fn view(&self) -> ScopeView {
        ScopeView {
            operation: self.operation@,
            constraints: self.constraints@,
            requires_human: self.requires_human,
        }
    }
}

impl DeepView for RequestableScope {
    type V = ScopeView;

    open spec fn deep_view(&self) -> ScopeView {
        self@
    }
}

impl Clone for RequestableScope {
    fn clone(&self) -> (r: Self)
        ensures
            r@ == self@,
    {
        RequestableScope {
            operation: self.operation.clone(),
            constraints: self.constraints.clone(),
            requires_human: self.requires_human,
        }
    }
}

/// The structured denial returned instead of a bare `Permission denied`.
///
/// The level of detail is calibrated by the caller's [`TrustLevel`]:
/// quarantined principals receive the code and safe alternatives but not scope
/// sketches or reasons that would map the policy surface.
#[derive(Debug, PartialEq)]
pub struct Denial {
    pub code: DenialCode,
    /// What the principal attempted, in canonical operation form.
    pub attempted_operation: Operation,
    /// Human- and agent-readable reason. Must help a benign agent repair
    /// itself without leaking host paths or the full policy map.
    pub reason: String,
    /// Typed operations the agent is already allowed to use instead.
    pub safe_alternatives: Vec<Operation>,
    /// Narrow scopes the agent could request.
    pub requestable_scopes: Vec<RequestableScope>,
    /// Whether this branch permits capability escalation requests at all.
    pub escalation_allowed: bool,
}

/// What a [`Denial`] says.
#[verifier::ext_equal]
pub struct DenialView {
    pub code: DenialCode,
    pub attempted_operation: Seq<char>,
    pub reason: Seq<char>,
    pub safe_alternatives: Seq<Seq<char>>,
    pub requestable_scopes: Seq<ScopeView>,
    pub escalation_allowed: bool,
}

/// A scope in JSON.
pub open spec fn scope_json(s: ScopeView) -> Json {
    Json::Object(
        map![
            "operation"@ => Json::Text(s.operation),
            "constraints"@ => s.constraints,
            "requires_human"@ => Json::Bool(s.requires_human)
        ],
    )
}

/// Scopes in JSON.
pub open spec fn scopes_json(s: Seq<ScopeView>) -> Seq<Json> {
    Seq::new(s.len(), |i: int| scope_json(s[i]))
}

/// A denial that names neither alternatives nor scopes.
pub open spec fn bare_denial(
    code: DenialCode,
    operation: Seq<char>,
    reason: Seq<char>,
    escalation_allowed: bool,
) -> DenialView {
    DenialView {
        code,
        attempted_operation: operation,
        reason,
        safe_alternatives: Seq::empty(),
        requestable_scopes: Seq::empty(),
        escalation_allowed,
    }
}

impl DenialView {
    /// The denial in JSON. Empty lists are left out.
    pub open spec fn json(self) -> Json {
        let m = map![
            "code"@ => Json::Text(self.code.spec_wire()),
            "attempted_operation"@ => Json::Text(self.attempted_operation),
            "reason"@ => Json::Text(self.reason),
            "escalation_allowed"@ => Json::Bool(self.escalation_allowed)
        ];
        let m = with_list(m, "safe_alternatives"@, texts_json(self.safe_alternatives));
        Json::Object(with_list(m, "requestable_scopes"@, scopes_json(self.requestable_scopes)))
    }

    /// What is left of a denial for a principal of the given trust.
    pub open spec fn redacted(self, trust: TrustLevel) -> DenialView {
        if trust == TrustLevel::Quarantined {
            DenialView {
                code: self.code,
                attempted_operation: self.attempted_operation,
                reason: "operation not permitted for this principal"@,
                safe_alternatives: self.safe_alternatives,
                requestable_scopes: Seq::empty(),
                escalation_allowed: false,
            }
        } else {
            self
        }
    }
}

impl Denial {
    pub open spec fn view(&self) -> DenialView {
        DenialView {
            code: self.code,
            attempted_operation: self.attempted_operation@,
            reason: self.reason@,
            safe_alternatives: self.safe_alternatives.deep_view(),
            requestable_scopes: self.requestable_scopes.deep_view(),
            escalation_allowed: self.escalation_allowed,
        }
    }

    /// Redact details not appropriate for low-trust principals.
    pub fn redact_for(&self, trust: TrustLevel) -> (r: Denial)
        ensures
            r@ == self@.redacted(trust),
    {
        match trust {
            TrustLevel::Quarantined => {
                let r = Denial {
                    code: self.code,
                    attempted_operation: self.attempted_operation.clone(),
                    reason: "operation not permitted for this principal".to_owned(),
                    safe_alternatives: clone_operations(&self.safe_alternatives),
                    requestable_scopes: Vec::new(),
                    escalation_allowed: false,
                };
                proof {
                    assert(r.requestable_scopes.deep_view() =~= Seq::<ScopeView>::empty());
                }
                r
            },
            _ => self.clone(),
        }
    }
}

impl DeepView for Denial {
    type V = DenialView;

    open spec fn deep_view(&self) -> DenialView {
        self@
    }
}

/// A copy of a list of operations.
pub fn clone_operations(v: &Vec<Operation>) -> (r: Vec<Operation>)
    ensures
        r@ == v@,
{
    let mut out: Vec<Operation> = Vec::new();
    let mut i: usize = 0;
    while i < v.len()
        invariant
            i <= v.len(),
            out@ == v@.take(i as int),
        decreases v.len() - i,
    {
        out.push(v[i].clone());
        proof {
            assert(v@.take(i + 1) == v@.take(i as int).push(v@[i as int]));
        }
        i = i + 1;
    }
    proof {
        assert(v@.take(v@.len() as int) == v@);
    }
    out
}

/// A copy of a list of scopes.
pub fn clone_scopes(v: &Vec<RequestableScope>) -> (r: Vec<RequestableScope>)
    ensures
        r.deep_view() == v.deep_view(),
{
    let mut out: Vec<RequestableScope> = Vec::new();
    let mut i: usize = 0;
    while i < v.len()
        invariant
            i <= v.len(),
            out.len() == i,
            forall|j: int| 0 <= j < i ==> #[trigger] out@[j]@ == v@[j]@,
        decreases v.len() - i,
    {
        out.push(v[i].clone());
        i = i + 1;
    }
    proof {
        assert(out.deep_view() =~= v.deep_view());
    }
    out
}

impl Denial {
    /// A denial that names neither alternatives nor scopes.
    pub fn bare(code: DenialCode, operation: &str, reason: String, escalation_allowed: bool) -> (r:
        Denial)
        ensures
            r@ == bare_denial(code, operation@, reason@, escalation_allowed),
    {
        let r = Denial {
            code,
            attempted_operation: Operation::new(operation),
            reason,
            safe_alternatives: Vec::new(),
            requestable_scopes: Vec::new(),
            escalation_allowed,
        };
        proof {
            assert(r@.safe_alternatives =~= Seq::<Seq<char>>::empty());
            assert(r@.requestable_scopes =~= Seq::<ScopeView>::empty());
        }
        r
    }
}

/// Operations as values.
pub fn operation_values(ops: &Vec<Operation>) -> (vs: Vec<Value>)
    ensures
        vs.deep_view() == texts_json(ops.deep_view()),
{
    let mut vs: Vec<Value> = Vec::new();
    let mut i: usize = 0;
    while i < ops.len()
        invariant
            i <= ops.len(),
            vs.len() == i,
            forall|j: int| 0 <= j < i ==> (#[trigger] vs@[j])@ == Json::Text(ops@[j]@),
        decreases ops.len() - i,
    {
        vs.push(Value::text(ops[i].0.as_str()));
        i = i + 1;
    }
    proof {
        assert(vs.deep_view() =~= texts_json(ops.deep_view()));
    }
    vs
}

impl RequestableScope {
    /// The scope in JSON.
    pub fn to_value(&self) -> (r: Value)
        ensures
            r@ == scope_json(self@),
    {
        let r = object3(
            "operation",
            Value::text(self.operation.0.as_str()),
            "constraints",
            self.constraints.clone(),
            "requires_human",
            Value::Bool(self.requires_human),
        );
        r
    }
}

impl Denial {
    /// The denial in JSON. Empty lists are left out.
    pub fn to_value(&self) -> (r: Value)
        ensures
            r@ == self@.json(),
    {
        let mut m = JsonMap::new();
        m.insert("code".to_owned(), Value::text(self.code.wire()));
        m.insert(
            "attempted_operation".to_owned(),
            Value::text(self.attempted_operation.0.as_str()),
        );
        m.insert("reason".to_owned(), Value::text(self.reason.as_str()));
        m.insert("escalation_allowed".to_owned(), Value::Bool(self.escalation_allowed));
        put_list(&mut m, "safe_alternatives", operation_values(&self.safe_alternatives));
        let mut scopes: Vec<Value> = Vec::new();
        let mut i: usize = 0;
        while i < self.requestable_scopes.len()
            invariant
                i <= self.requestable_scopes.len(),
                scopes.len() == i,
                forall|j: int|
                    0 <= j < i ==> (#[trigger] scopes@[j])@ == scope_json(
                        self.requestable_scopes@[j]@,
                    ),
            decreases self.requestable_scopes.len() - i,
        {
            scopes.push(self.requestable_scopes[i].to_value());
            i = i + 1;
        }
        proof {
            assert(scopes.deep_view() =~= scopes_json(self@.requestable_scopes));
        }
        put_list(&mut m, "requestable_scopes", scopes);
        Value::Object(m)
    }
}

impl Clone for Denial {
    fn clone(&self) -> (r: Self)
        ensures
            r@ == self@,
    {
        Denial {
            code: self.code,
            attempted_operation: self.attempted_operation.clone(),
            reason: self.reason.clone(),
            safe_alternatives: clone_operations(&self.safe_alternatives),
            requestable_scopes: clone_scopes(&self.requestable_scopes),
            escalation_allowed: self.escalation_allowed,
        }
    }
}

/// Redacting twice changes nothing that redacting once did not.
pub proof fn law_redaction_is_idempotent(d: DenialView, trust: TrustLevel)
    ensures
        d.redacted(trust).redacted(trust) == d.redacted(trust),
{
}

/// Whatever the trust, a denial keeps its code, its operation and its safe
/// alternatives.
pub proof fn law_redaction_keeps_recovery(d: DenialView, trust: TrustLevel)
    ensures
        d.redacted(trust).code == d.code,
        d.redacted(trust).attempted_operation == d.attempted_operation,
        d.redacted(trust).safe_alternatives == d.safe_alternatives,
{
}

/// A quarantined principal learns no reason and no way to escalate; every other one
/// gets the denial as it is.
pub proof fn law_only_quarantine_is_redacted(d: DenialView, trust: TrustLevel)
    ensures
        !(trust is Quarantined) ==> d.redacted(trust) == d,
        trust is Quarantined ==> d.redacted(trust).requestable_scopes.len() == 0 && !d.redacted(
            trust,
        ).escalation_allowed && d.redacted(trust).reason
            == "operation not permitted for this principal"@,
{
}

/// Each code has a name of its own on the wire.
pub proof fn law_codes_are_told_apart(a: DenialCode, b: DenialCode)
    ensures
        a.spec_wire() == b.spec_wire() ==> a == b,
{
    reveal_strlit("CAPABILITY_DENIED");
    reveal_strlit("CAPABILITY_EXPIRED");
    reveal_strlit("CAPABILITY_EXHAUSTED");
    reveal_strlit("BUDGET_EXHAUSTED");
    reveal_strlit("CONSTRAINT_VIOLATED");
    reveal_strlit("BRANCH_MISMATCH");
    reveal_strlit("EFFECT_REQUIRES_APPROVAL");
    reveal_strlit("STALE_AUTHORIZATION");
    reveal_strlit("PRECONDITION_FAILED");
    reveal_strlit("DUPLICATE_COMMIT");
    reveal_strlit("BACKEND_UNAVAILABLE");
    reveal_strlit("POLICY_FORBIDDEN");
    assert("CAPABILITY_DENIED"@.len() == 17 && "CAPABILITY_EXPIRED"@.len() == 18);
    assert("CAPABILITY_EXHAUSTED"@.len() == 20 && "BUDGET_EXHAUSTED"@.len() == 16);
    assert("CONSTRAINT_VIOLATED"@.len() == 19 && "BRANCH_MISMATCH"@.len() == 15);
    assert("EFFECT_REQUIRES_APPROVAL"@.len() == 24 && "STALE_AUTHORIZATION"@.len() == 19);
    assert("PRECONDITION_FAILED"@.len() == 19 && "DUPLICATE_COMMIT"@.len() == 16);
    assert("BACKEND_UNAVAILABLE"@.len() == 19 && "POLICY_FORBIDDEN"@.len() == 16);
    assert("BUDGET_EXHAUSTED"@[0] == 'B' && "DUPLICATE_COMMIT"@[0] == 'D'
        && "POLICY_FORBIDDEN"@[0] == 'P');
    assert("CONSTRAINT_VIOLATED"@[0] == 'C' && "STALE_AUTHORIZATION"@[0] == 'S'
        && "PRECONDITION_FAILED"@[0] == 'P' && "BACKEND_UNAVAILABLE"@[0] == 'B');
}

/// A denial is told in full: code, operation, reason, whether it can be escalated, and
/// every alternative and scope, with what each scope asks for.
pub proof fn law_denials_are_told_in_full(d: DenialView)
    ensures
        d.json() matches Json::Object(m) && {
            &&& m.contains_key("code"@) && m["code"@] == Json::Text(d.code.spec_wire())
            &&& m.contains_key("attempted_operation"@) && m["attempted_operation"@] == Json::Text(
                d.attempted_operation,
            )
            &&& m.contains_key("reason"@) && m["reason"@] == Json::Text(d.reason)
            &&& m.contains_key("escalation_allowed"@) && m["escalation_allowed"@] == Json::Bool(
                d.escalation_allowed,
            )
            &&& m.contains_key("safe_alternatives"@) <==> d.safe_alternatives.len() > 0
            &&& d.safe_alternatives.len() > 0 ==> (m["safe_alternatives"@] matches Json::Array(a)
                && a.len() == d.safe_alternatives.len() && forall|i: int|
                0 <= i < a.len() ==> #[trigger] a[i] == Json::Text(d.safe_alternatives[i]))
            &&& m.contains_key("requestable_scopes"@) <==> d.requestable_scopes.len() > 0
            &&& d.requestable_scopes.len() > 0 ==> (m["requestable_scopes"@] matches Json::Array(a)
                && a.len() == d.requestable_scopes.len() && forall|i: int|
                0 <= i < a.len() ==> #[trigger] a[i] == scope_json(d.requestable_scopes[i]))
        },
{
    lemma_denial_keys();
}

proof fn lemma_denial_keys()
    ensures
        "code"@ != "attempted_operation"@ && "code"@ != "reason"@ && "code"@
            != "escalation_allowed"@ && "code"@ != "safe_alternatives"@ && "code"@
            != "requestable_scopes"@,
        "attempted_operation"@ != "reason"@ && "attempted_operation"@ != "escalation_allowed"@
            && "attempted_operation"@ != "safe_alternatives"@ && "attempted_operation"@
            != "requestable_scopes"@,
        "reason"@ != "escalation_allowed"@ && "reason"@ != "safe_alternatives"@ && "reason"@
            != "requestable_scopes"@,
        "escalation_allowed"@ != "safe_alternatives"@ && "escalation_allowed"@
            != "requestable_scopes"@,
        "safe_alternatives"@ != "requestable_scopes"@,
        "operation"@ != "constraints"@ && "operation"@ != "requires_human"@ && "constraints"@
            != "requires_human"@,
{
    reveal_strlit("code");
    reveal_strlit("attempted_operation");
    reveal_strlit("reason");
    reveal_strlit("escalation_allowed");
    reveal_strlit("safe_alternatives");
    reveal_strlit("requestable_scopes");
    reveal_strlit("operation");
    reveal_strlit("constraints");
    reveal_strlit("requires_human");
    assert("code"@.len() == 4 && "attempted_operation"@.len() == 19 && "reason"@.len() == 6);
    assert("escalation_allowed"@.len() == 18 && "safe_alternatives"@.len() == 17);
    assert("requestable_scopes"@.len() == 18);
    assert("escalation_allowed"@[0] == 'e' && "requestable_scopes"@[0] == 'r');
    assert("operation"@.len() == 9 && "constraints"@.len() == 11 && "requires_human"@.len() == 14);
}

/// A scope is told with its operation, its constraints and whether a human decides.
pub proof fn law_scopes_are_told_in_full(s: ScopeView)
    ensures
        scope_json(s) matches Json::Object(m) && m.contains_key("operation"@) && m["operation"@]
            == Json::Text(s.operation) && m.contains_key("constraints"@) && m["constraints"@]
            == s.constraints && m.contains_key("requires_human"@) && m["requires_human"@]
            == Json::Bool(s.requires_human),
{
    lemma_denial_keys();
}

} // verus!
