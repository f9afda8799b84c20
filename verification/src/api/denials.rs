//! The denials of the kernel: what an agent is told when a step is refused, and
//! the scope that it can request to go on.
use vstd::prelude::*;
use crate::budget::{ResourceBudget, budget_json};
use crate::capability::{LeaseCheckFailure, LeaseFailureView, Operation};
use crate::denial::{Denial, DenialCode, DenialView, RequestableScope, ScopeView};
use crate::hash::{canonical, canonical_json};
use crate::identity::error::IdentityError;
use crate::json::{Json, Value, object1, object2};
use crate::text;

verus! {

/// A denial that offers one scope, and that can be escalated.
pub open spec fn offering(
    code: DenialCode,
    operation: Seq<char>,
    reason: Seq<char>,
    scope: ScopeView,
) -> DenialView {
    DenialView {
        code,
        attempted_operation: operation,
        reason,
        safe_alternatives: Seq::empty(),
        requestable_scopes: seq![scope],
        escalation_allowed: true,
    }
}

/// The scope of an operation with exactly these parameters.
pub open spec fn sketch(operation: Seq<char>, params: Json, requires_human: bool) -> ScopeView {
    ScopeView { operation, constraints: Json::Object(map!["params"@ => params]), requires_human }
}

/// A requestable-scope sketch for `operation` with these exact parameters: the
/// concrete recovery action an agent can take after a denial.
pub fn scope_sketch(operation: &Operation, params: &Value, requires_human: bool) -> (r:
    RequestableScope)
    ensures
        r@ == sketch(operation@, params@, requires_human),
{
    RequestableScope {
        operation: operation.clone(),
        constraints: object1("params", params.clone()),
        requires_human,
    }
}

fn offer(code: DenialCode, operation: &Operation, reason: String, scope: RequestableScope) -> (r:
    Denial)
    ensures
        r@ == offering(code, operation@, reason@, scope@),
{
    let ghost s = scope@;
    let mut scopes: Vec<RequestableScope> = Vec::new();
    scopes.push(scope);
    let r = Denial {
        code,
        attempted_operation: operation.clone(),
        reason,
        safe_alternatives: Vec::new(),
        requestable_scopes: scopes,
        escalation_allowed: true,
    };
    proof {
        assert(r@.safe_alternatives =~= Seq::<Seq<char>>::empty());
        assert(r@.requestable_scopes =~= seq![s]);
    }
    r
}

/// The denial of a step whose lease nobody issued.
pub open spec fn unknown_lease_denial(
    operation: Seq<char>,
    params: Json,
    lease: Seq<char>,
    error: Seq<char>,
) -> DenialView {
    offering(
        DenialCode::CapabilityDenied,
        operation,
        "lease `"@ + lease + "` is unknown: "@ + error
            + ". Recover by requesting a fresh lease for this operation via capability.request (POST /v1/capabilities/request), or use steps/execute_auto to have the kernel resolve leases for you"@,
        sketch(operation, params, false),
    )
}

/// The denial of a step whose lease nobody issued.
pub fn denial_of_unknown_lease(operation: &Operation, params: &Value, lease: &str, error: &str) -> (r:
    Denial)
    ensures
        r@ == unknown_lease_denial(operation@, params@, lease@, error@),
{
    let reason = text::cat5(
        "lease `",
        lease,
        "` is unknown: ",
        error,
        ". Recover by requesting a fresh lease for this operation via capability.request (POST /v1/capabilities/request), or use steps/execute_auto to have the kernel resolve leases for you",
    );
    offer(
        DenialCode::CapabilityDenied,
        operation,
        reason,
        scope_sketch(operation, params, false),
    )
}

/// The code of a lease failure.
pub open spec fn failure_code(failure: LeaseFailureView) -> DenialCode {
    match failure {
        LeaseFailureView::Revoked => DenialCode::CapabilityDenied,
        LeaseFailureView::Expired(_) => DenialCode::CapabilityExpired,
        LeaseFailureView::Exhausted => DenialCode::CapabilityExhausted,
        LeaseFailureView::WrongPrincipal => DenialCode::CapabilityDenied,
        LeaseFailureView::WrongOperation(_) => DenialCode::CapabilityDenied,
        LeaseFailureView::WrongBranch(_) => DenialCode::BranchMismatch,
        LeaseFailureView::ConstraintViolated(_) => DenialCode::ConstraintViolated,
    }
}

/// What is wrong with a lease, in words.
pub open spec fn failure_text(failure: LeaseFailureView) -> Seq<char> {
    match failure {
        LeaseFailureView::Revoked => "the presented lease has been revoked"@,
        LeaseFailureView::Expired(at) => "the presented lease expired at "@ + at.message_text(),
        LeaseFailureView::Exhausted => "the presented lease has no remaining uses"@,
        LeaseFailureView::WrongPrincipal => "the presented lease belongs to a different principal"@,
        LeaseFailureView::WrongOperation(granted) => "the presented lease grants `"@ + granted
            + "`, not this operation"@,
        LeaseFailureView::WrongBranch(bound) => "the presented lease is bound to branch `"@ + bound
            + "`; authority does not follow the agent across branches — request a lease bound to the current branch"@,
        LeaseFailureView::ConstraintViolated(parameter) => "parameter `"@ + parameter
            + "` violates the lease constraints"@,
    }
}

/// The denial for a lease that does not authorize the step.
pub open spec fn lease_failure_denial(
    operation: Seq<char>,
    params: Json,
    failure: LeaseFailureView,
) -> DenialView {
    offering(
        failure_code(failure),
        operation,
        failure_text(failure)
            + ". Recover by requesting the scope below (capability.request), or use steps/execute_auto to have the kernel resolve leases automatically"@,
        sketch(operation, params, false),
    )
}

/// Map a deterministic lease-check failure to a machine-readable denial
/// carrying the concrete scope to re-request.
pub fn denial_from_lease_failure(
    operation: &Operation,
    params: &Value,
    failure: &LeaseCheckFailure,
) -> (r: Denial)
    ensures
        r@ == lease_failure_denial(operation@, params@, failure@),
{
    let (code, why) = match failure {
        LeaseCheckFailure::Revoked => (
            DenialCode::CapabilityDenied,
            "the presented lease has been revoked".to_owned(),
        ),
        LeaseCheckFailure::Expired { expired_at } => {
            let at = expired_at.to_message();
            (
                DenialCode::CapabilityExpired,
                text::cat2("the presented lease expired at ", at.as_str()),
            )
        },
        LeaseCheckFailure::Exhausted => (
            DenialCode::CapabilityExhausted,
            "the presented lease has no remaining uses".to_owned(),
        ),
        LeaseCheckFailure::WrongPrincipal => (
            DenialCode::CapabilityDenied,
            "the presented lease belongs to a different principal".to_owned(),
        ),
        LeaseCheckFailure::WrongOperation { granted } => (
            DenialCode::CapabilityDenied,
            text::cat3(
                "the presented lease grants `",
                granted.0.as_str(),
                "`, not this operation",
            ),
        ),
        LeaseCheckFailure::WrongBranch { bound } => (
            DenialCode::BranchMismatch,
            text::cat3(
                "the presented lease is bound to branch `",
                bound.as_str(),
                "`; authority does not follow the agent across branches — request a lease bound to the current branch",
            ),
        ),
        LeaseCheckFailure::ConstraintViolated { parameter } => (
            DenialCode::ConstraintViolated,
            text::cat3(
                "parameter `",
                parameter.as_str(),
                "` violates the lease constraints",
            ),
        ),
    };
    let reason = text::cat2(
        why.as_str(),
        ". Recover by requesting the scope below (capability.request), or use steps/execute_auto to have the kernel resolve leases automatically",
    );
    offer(code, operation, reason, scope_sketch(operation, params, false))
}

/// The code of a use that could not be consumed.
pub open spec fn consume_code(e: IdentityError) -> DenialCode {
    match e {
        IdentityError::LeaseUnusable { reason, .. } => if reason@ == "expired"@ {
            DenialCode::CapabilityExpired
        } else if reason@ == "revoked"@ {
            DenialCode::CapabilityDenied
        } else {
            DenialCode::CapabilityExhausted
        },
        _ => DenialCode::CapabilityDenied,
    }
}

/// Why a use could not be consumed, in words.
pub open spec fn consume_text(e: IdentityError) -> Seq<char> {
    match e {
        IdentityError::LeaseUnusable { reason, .. } => if reason@ == "expired"@ {
            "the presented lease expired before the use could be consumed"@
        } else if reason@ == "revoked"@ {
            "the presented lease was revoked before the use could be consumed"@
        } else {
            "the presented lease has no remaining uses (a concurrent step may have consumed the last one)"@
        },
        _ => "lease could not be consumed: "@ + e.spec_message(),
    }
}

/// The denial for a use that could not be consumed.
pub open spec fn consume_denial(operation: Seq<char>, params: Json, e: IdentityError) -> DenialView {
    offering(
        consume_code(e),
        operation,
        consume_text(e) + ". Recover by requesting a fresh lease for this operation"@,
        sketch(operation, params, false),
    )
}

/// Map an atomic consume-use refusal (lost race, revoked, expired, exhausted)
/// to a machine-readable denial with a concrete recovery scope.
pub fn denial_from_consume_failure(operation: &Operation, params: &Value, err: &IdentityError) -> (r:
    Denial)
    ensures
        r@ == consume_denial(operation@, params@, *err),
{
    let (code, why) = match err {
        IdentityError::LeaseUnusable { reason, .. } => if text::str_eq(
            reason.as_str(),
            "expired",
        ) {
            (
                DenialCode::CapabilityExpired,
                "the presented lease expired before the use could be consumed".to_owned(),
            )
        } else if text::str_eq(reason.as_str(), "revoked") {
            (
                DenialCode::CapabilityDenied,
                "the presented lease was revoked before the use could be consumed".to_owned(),
            )
        } else {
            (
                DenialCode::CapabilityExhausted,
                "the presented lease has no remaining uses (a concurrent step may have consumed the last one)".to_owned(),
            )
        },
        other => {
            let m = other.message();
            (
                DenialCode::CapabilityDenied,
                text::cat2("lease could not be consumed: ", m.as_str()),
            )
        },
    };
    let reason = text::cat2(
        why.as_str(),
        ". Recover by requesting a fresh lease for this operation",
    );
    offer(code, operation, reason, scope_sketch(operation, params, false))
}

/// The names of the dimensions in which a budget exceeds another.
pub open spec fn over_list(names: Seq<&'static str>) -> Seq<Seq<char>> {
    Seq::new(names.len(), |i: int| names[i]@)
}

/// The denial of a step whose budget does not fit its lease.
pub open spec fn over_budget_denial(
    operation: Seq<char>,
    params: Json,
    budget: ResourceBudget,
    lease: ResourceBudget,
) -> DenialView {
    offering(
        DenialCode::BudgetExhausted,
        operation,
        "the action budget exceeds the lease budget envelope in: "@ + text::joined(
            over_list(budget.over_names(lease)),
            ", "@,
        )
            + ". Recover by lowering the action budget to fit the lease, or request a lease with a larger envelope"@,
        ScopeView {
            operation,
            constraints: Json::Object(
                map!["params"@ => params, "budget"@ => budget_json(budget)],
            ),
            requires_human: false,
        },
    )
}

/// The denial of a step whose budget does not fit its lease.
pub fn denial_of_over_budget(
    operation: &Operation,
    params: &Value,
    budget: &ResourceBudget,
    lease: &ResourceBudget,
) -> (r: Denial)
    ensures
        r@ == over_budget_denial(operation@, params@, *budget, *lease),
{
    let over = budget.exceeding_dimensions(lease);
    let mut names: Vec<String> = Vec::new();
    let mut i: usize = 0;
    while i < over.len()
        invariant
            i <= over.len(),
            names.len() == i,
            forall|j: int| 0 <= j < i ==> (#[trigger] names@[j])@ == over@[j]@,
        decreases over.len() - i,
    {
        names.push(over[i].to_owned());
        i = i + 1;
    }
    proof {
        assert(names.deep_view() =~= over_list(over@));
    }
    let list = text::join(&names, ", ");
    let reason = text::cat3(
        "the action budget exceeds the lease budget envelope in: ",
        list.as_str(),
        ". Recover by lowering the action budget to fit the lease, or request a lease with a larger envelope",
    );
    let scope = RequestableScope {
        operation: operation.clone(),
        constraints: object2("params", params.clone(), "budget", budget.to_value()),
        requires_human: false,
    };
    offer(DenialCode::BudgetExhausted, operation, reason, scope)
}

/// The denial of a step that waits for an approval.
pub open spec fn step_approval_denial(
    operation: Seq<char>,
    params: Json,
    rule_id: Seq<char>,
) -> DenialView {
    offering(
        DenialCode::EffectRequiresApproval,
        operation,
        "rule `"@ + rule_id
            + "` requires out-of-band approval; a human (or an approver-role principal) must grant this scope before it can run"@,
        sketch(operation, params, true),
    )
}

/// The denial of a step that waits for an approval.
pub fn denial_of_unapproved_step(operation: &Operation, params: &Value, rule_id: &str) -> (r:
    Denial)
    ensures
        r@ == step_approval_denial(operation@, params@, rule_id@),
{
    let reason = text::cat3(
        "rule `",
        rule_id,
        "` requires out-of-band approval; a human (or an approver-role principal) must grant this scope before it can run",
    );
    offer(
        DenialCode::EffectRequiresApproval,
        operation,
        reason,
        scope_sketch(operation, params, true),
    )
}

/// The denial of a capability request that waits for an approval.
pub open spec fn request_approval_denial(
    operation: Seq<char>,
    rule_id: Seq<char>,
    constraints: Json,
    policy_epoch: u64,
) -> DenialView {
    offering(
        DenialCode::EffectRequiresApproval,
        operation,
        "rule `"@ + rule_id + "` requires out-of-band approval (policy epoch "@ + text::decimal(
            policy_epoch as nat,
        ) + "); approved constraint sketch: "@ + canonical(constraints),
        ScopeView { operation, constraints, requires_human: true },
    )
}

/// The denial of a capability request that waits for an approval.
pub fn denial_of_unapproved_request(
    operation: &Operation,
    rule_id: &str,
    constraints: &Value,
    policy_epoch: u64,
) -> (r: Denial)
    ensures
        r@ == request_approval_denial(operation@, rule_id@, constraints@, policy_epoch),
{
    let epoch = text::to_decimal(policy_epoch);
    let list = canonical_json(constraints);
    let head = text::cat5(
        "rule `",
        rule_id,
        "` requires out-of-band approval (policy epoch ",
        epoch.as_str(),
        "); approved constraint sketch: ",
    );
    let reason = text::cat2(head.as_str(), list.as_str());
    let scope = RequestableScope {
        operation: operation.clone(),
        constraints: constraints.clone(),
        requires_human: true,
    };
    offer(DenialCode::EffectRequiresApproval, operation, reason, scope)
}

/// What is wrong with a lease decides the code of the denial: an expired and a used-up
/// lease, a foreign branch and a violated constraint are told apart, and everything
/// else is a missing capability.
pub proof fn law_lease_failures_have_their_codes(failure: LeaseFailureView)
    ensures
        failure_code(failure) is CapabilityExpired <==> failure is Expired,
        failure_code(failure) is CapabilityExhausted <==> failure is Exhausted,
        failure_code(failure) is BranchMismatch <==> failure is WrongBranch,
        failure_code(failure) is ConstraintViolated <==> failure is ConstraintViolated,
        failure_code(failure) is CapabilityDenied <==> failure is Revoked || failure
            is WrongPrincipal || failure is WrongOperation,
{
}

/// A use that could not be taken is told by the reason the store gives.
pub proof fn law_unused_leases_have_their_codes(e: IdentityError)
    ensures
        e matches IdentityError::LeaseUnusable { reason, .. } ==> {
            &&& reason@ == "expired"@ ==> consume_code(e) is CapabilityExpired
            &&& reason@ == "revoked"@ ==> consume_code(e) is CapabilityDenied
            &&& reason@ == "exhausted"@ ==> consume_code(e) is CapabilityExhausted
        },
        !(e is LeaseUnusable) ==> consume_code(e) is CapabilityDenied,
{
    reveal_strlit("expired");
    reveal_strlit("revoked");
    reveal_strlit("exhausted");
    assert("expired"@.len() == 7 && "revoked"@.len() == 7 && "exhausted"@.len() == 9);
    assert("expired"@[0] != "revoked"@[0]);
}

/// A denial for want of a lease offers exactly what was attempted: the operation with
/// its parameters, without a human where no rule asks for one. All of them can be
/// escalated.
pub proof fn law_denials_offer_what_was_attempted(
    operation: Seq<char>,
    params: Json,
    lease: Seq<char>,
    error: Seq<char>,
    failure: LeaseFailureView,
    e: IdentityError,
    budget: ResourceBudget,
    envelope: ResourceBudget,
    rule: Seq<char>,
)
    ensures
        ({
            let unknown = unknown_lease_denial(operation, params, lease, error);
            let failed = lease_failure_denial(operation, params, failure);
            let unused = consume_denial(operation, params, e);
            let over = over_budget_denial(operation, params, budget, envelope);
            let waits = step_approval_denial(operation, params, rule);
            let scope = Json::Object(map!["params"@ => params]);
            &&& unknown.code is CapabilityDenied
            &&& unknown.attempted_operation == operation && unknown.escalation_allowed
            &&& unknown.requestable_scopes.len() == 1
            &&& unknown.requestable_scopes[0].operation == operation
            &&& unknown.requestable_scopes[0].constraints == scope
            &&& !unknown.requestable_scopes[0].requires_human
            &&& failed.code == failure_code(failure)
            &&& failed.attempted_operation == operation && failed.escalation_allowed
            &&& failed.requestable_scopes.len() == 1
            &&& failed.requestable_scopes[0].operation == operation
            &&& failed.requestable_scopes[0].constraints == scope
            &&& !failed.requestable_scopes[0].requires_human
            &&& unused.code == consume_code(e)
            &&& unused.attempted_operation == operation && unused.escalation_allowed
            &&& unused.requestable_scopes.len() == 1
            &&& unused.requestable_scopes[0].operation == operation
            &&& unused.requestable_scopes[0].constraints == scope
            &&& !unused.requestable_scopes[0].requires_human
            &&& over.code is BudgetExhausted
            &&& over.attempted_operation == operation && over.escalation_allowed
            &&& over.requestable_scopes.len() == 1
            &&& over.requestable_scopes[0].operation == operation
            &&& !over.requestable_scopes[0].requires_human
            &&& over.requestable_scopes[0].constraints == Json::Object(
                map!["params"@ => params, "budget"@ => budget_json(budget)],
            )
            &&& waits.code is EffectRequiresApproval
            &&& waits.attempted_operation == operation && waits.escalation_allowed
            &&& waits.requestable_scopes.len() == 1
            &&& waits.requestable_scopes[0].operation == operation
            &&& waits.requestable_scopes[0].constraints == scope
            &&& waits.requestable_scopes[0].requires_human
        }),
{
}

/// A request that waits for approval is told so, with the rule, the policy epoch and
/// the constraints that would be approved, and that a human has to.
pub proof fn law_requests_that_wait_say_for_whom(
    operation: Seq<char>,
    rule: Seq<char>,
    constraints: Json,
    epoch: u64,
)
    ensures
        ({
            let d = request_approval_denial(operation, rule, constraints, epoch);
            &&& d.code is EffectRequiresApproval
            &&& d.attempted_operation == operation && d.escalation_allowed
            &&& d.requestable_scopes.len() == 1
            &&& d.requestable_scopes[0].operation == operation
            &&& d.requestable_scopes[0].constraints == constraints
            &&& d.requestable_scopes[0].requires_human
            &&& d.reason == "rule `"@ + rule + "` requires out-of-band approval (policy epoch "@
                + text::decimal(epoch as nat) + "); approved constraint sketch: "@ + canonical(
                constraints,
            )
        }),
{
}

/// A failed lease is explained with what stands in the way: the branch it is bound to,
/// the operation it grants, the parameter that violates it or the instant it expired.
pub proof fn law_lease_failures_are_explained(at: crate::time::Timestamp, named: Seq<char>)
    ensures
        failure_text(LeaseFailureView::WrongBranch(named)) == "the presented lease is bound to branch `"@
            + named
            + "`; authority does not follow the agent across branches — request a lease bound to the current branch"@,
        failure_text(LeaseFailureView::WrongOperation(named)) == "the presented lease grants `"@ + named
            + "`, not this operation"@,
        failure_text(LeaseFailureView::ConstraintViolated(named)) == "parameter `"@ + named
            + "` violates the lease constraints"@,
        failure_text(LeaseFailureView::Expired(at)) == "the presented lease expired at "@
            + at.message_text(),
{
}

} // verus!
