//! One step on a branch: the checks before it runs, the denial when one fails,
//! and the chain of events that it leaves.
use vstd::prelude::*;
use crate::action::{Action, ActionKind};
use crate::api::branch::{Branch, BranchStatus, discarded_error};
use crate::api::denials::{
    consume_denial, denial_from_consume_failure, denial_from_lease_failure, denial_of_over_budget,
    denial_of_unapproved_step, denial_of_unknown_lease, lease_failure_denial, over_budget_denial,
    step_approval_denial, unknown_lease_denial,
};
use crate::api::kernel::{Kernel, same_but_leases_and_ledger, same_but_ledger};
use crate::budget::{ResourceBudget, budget_json};
use crate::capability::{LeaseView, law_refusal_iff_not_authorized};
use crate::delta::DeltaView;
use crate::denial::{Denial, DenialView};
use crate::error::{KernelError, KernelResult};
use crate::hash::ContentHash;
use crate::identity::error::IdentityError;
use crate::ids::{BranchId, PrincipalId, StateId, StepId, generated};
use crate::json::{Json, Value, object2, object3};
use crate::ledger::event::{EventKind, EventView};
use crate::ledger::store::{Attribution, EventWriter, Ledger, grown, next_seq, room_for};
use crate::observation::{Observation, ObservationView};
use crate::policy::compiler::{CompiledConfinement, ConfinementView};
use crate::policy::document::PolicyDocument;
use crate::policy::engine::{Decision, DecisionView, decide, expiry_in_range};
use crate::principal::{Principal, TrustLevel};
use crate::replay::ReplayClass;
use crate::state::{StateDelta, StateNode};
use crate::time::Timestamp;

verus! {

/// Result of one step.
#[derive(Debug)]
pub struct StepResult {
    pub step: StepId,
    /// Branch head after the step (unchanged when the step was denied).
    pub state: StateId,
    pub observation: Observation,
}

/// How a step is judged before it runs.
pub enum Verdict {
    Deny(DenialView),
    Pass(ConfinementView),
}

/// What a step asks for.
pub struct StepRequest {
    pub principal: Seq<char>,
    pub branch: Seq<char>,
    pub operation: Seq<char>,
    pub params: Json,
    pub lease: Seq<char>,
    pub budget: ResourceBudget,
}

/// What an action asks for.
pub open spec fn request_of(principal: Seq<char>, branch: Seq<char>, action: Action) -> StepRequest {
    StepRequest {
        principal,
        branch,
        operation: action.kind.spec_required_operation(),
        params: action.kind.spec_params(),
        lease: action.lease@,
        budget: action.budget,
    }
}

/// The judgement of a step: the lease has to be known and to authorize the
/// invocation, its envelope has to hold the budget of the action, and the
/// policy has to allow the operation. The first check that fails decides.
pub open spec fn verdict(
    doc: &PolicyDocument,
    who: &Principal,
    leases: Map<Seq<char>, LeaseView>,
    q: StepRequest,
    now: Timestamp,
) -> Verdict {
    if !leases.contains_key(q.lease) {
        Verdict::Deny(
            unknown_lease_denial(
                q.operation,
                q.params,
                q.lease,
                "unknown lease `"@ + q.lease + "`"@,
            ),
        )
    } else {
        let lease = leases[q.lease];
        match lease.refusal(q.principal, q.operation, q.params, Some(q.branch), now) {
            Some(failure) => Verdict::Deny(lease_failure_denial(q.operation, q.params, failure)),
            None => if !q.budget.within(lease.budget) {
                Verdict::Deny(over_budget_denial(q.operation, q.params, q.budget, lease.budget))
            } else {
                match decide(
                    doc,
                    who,
                    q.operation,
                    q.params,
                    Some(q.branch),
                    now,
                    Seq::empty(),
                ) {
                    DecisionView::Allow { confinement, .. } => Verdict::Pass(confinement),
                    DecisionView::RequireApproval { rule_id, .. } => Verdict::Deny(
                        step_approval_denial(q.operation, q.params, rule_id),
                    ),
                    DecisionView::Deny { denial } => Verdict::Deny(denial),
                }
            },
        }
    }
}

/// What the events of a step are attributed to.
pub open spec fn step_attribution(branch: Branch, step: Seq<char>, principal: Seq<char>) -> Attribution {
    Attribution {
        episode: branch.episode@,
        branch: Some(branch.id@),
        step: Some(step),
        principal,
    }
}

/// The events after a denial: the denial itself, and the observation that it
/// causes.
pub open spec fn denied_log(
    events: Seq<EventView>,
    by: Attribution,
    denial: DenialView,
    now: Timestamp,
) -> Seq<EventView> {
    grown(
        grown(events, by, EventKind::DenialIssued, denial.json(), Seq::empty(), now),
        by,
        EventKind::ObservationEmitted,
        Json::Object(
            map!["kind"@ => Json::Text("denied"@), "code"@ => Json::Text(denial.code.spec_wire())],
        ),
        seq![next_seq(events) as i64],
        now,
    )
}

/// The events after a transition: the delta, caused by `cause`, and the
/// observation that it causes.
pub open spec fn transition_log(
    events: Seq<EventView>,
    by: Attribution,
    state: Seq<char>,
    delta: DeltaView,
    cause: i64,
    observation: ObservationView,
    now: Timestamp,
) -> Seq<EventView> {
    grown(
        grown(
            events,
            by,
            EventKind::StateDeltaRecorded,
            Json::Object(map!["state_id"@ => Json::Text(state), "delta"@ => delta.json()]),
            seq![cause],
            now,
        ),
        by,
        EventKind::ObservationEmitted,
        observation.json(),
        seq![next_seq(events) as i64],
        now,
    )
}

/// A step that passed every check: it may run, once.
#[derive(Debug)]
pub struct StepTicket {
    pub step: StepId,
    /// Records the events of the step.
    pub writer: EventWriter,
    /// The confinement that a backend has to apply.
    pub confinement: CompiledConfinement,
    /// Branch head before the step.
    pub head: StateId,
}

/// How a step starts.
#[derive(Debug)]
pub enum StepStart {
    /// The step was denied; nothing runs.
    Denied(StepResult),
    /// The step may run.
    Go(StepTicket),
}

/// A state to append to the branch, and the event that caused it.
#[derive(Debug)]
pub struct NodePlan {
    pub delta: StateDelta,
    pub workspace_root: ContentHash,
    pub replay_class: ReplayClass,
    pub cause: i64,
}

/// Record a denial as a full step: `DenialIssued` and `ObservationEmitted`. The
/// agent sees as much of it as its trust allows.
pub fn deny_step(
    ledger: &mut Ledger,
    writer: &EventWriter,
    head: &StateId,
    step: StepId,
    trust: TrustLevel,
    denial: &Denial,
    now: Timestamp,
) -> (r: StepResult)
    requires
        old(ledger).wf(),
        room_for(old(ledger).events(), 2),
    ensures
        final(ledger).wf(),
        final(ledger).events() == denied_log(
            old(ledger).events(),
            writer@,
            denial@.redacted(trust),
            now,
        ),
        final(ledger).raw() == old(ledger).raw(),
        final(ledger).receipts() == old(ledger).receipts(),
        r.step == step,
        r.state == *head,
        r.observation@ == (ObservationView::Denied { denial: denial@.redacted(trust) }),
{
    let denial = denial.redact_for(trust);
    let ghost ev = ledger.events();
    let issued = writer.record(ledger, EventKind::DenialIssued, denial.to_value(), now);
    let payload = object2(
        "kind",
        Value::text("denied"),
        "code",
        Value::text(denial.code.wire()),
    );
    let mut causes: Vec<i64> = Vec::new();
    causes.push(issued.body.seq);
    proof {
        assert(causes@ =~= seq![next_seq(ev) as i64]);
    }
    writer.record_caused_by(ledger, EventKind::ObservationEmitted, payload, causes, now);
    StepResult { step, state: head.clone(), observation: Observation::Denied { denial } }
}

/// Record a transition: `StateDeltaRecorded` and `ObservationEmitted`.
pub fn finish_step(
    ledger: &mut Ledger,
    ticket: StepTicket,
    state: StateId,
    delta: &StateDelta,
    cause: i64,
    observation: Observation,
    now: Timestamp,
) -> (r: StepResult)
    requires
        old(ledger).wf(),
        room_for(old(ledger).events(), 2),
    ensures
        final(ledger).wf(),
        final(ledger).events() == transition_log(
            old(ledger).events(),
            ticket.writer@,
            state@,
            delta@,
            cause,
            observation@,
            now,
        ),
        final(ledger).raw() == old(ledger).raw(),
        final(ledger).receipts() == old(ledger).receipts(),
        r.step == ticket.step,
        r.state == state,
        r.observation == observation,
{
    let ghost ev = ledger.events();
    let payload = object2("state_id", Value::text(state.as_str()), "delta", delta.to_value());
    let mut causes: Vec<i64> = Vec::new();
    causes.push(cause);
    proof {
        assert(causes@ =~= seq![cause]);
    }
    let recorded = ticket.writer.record_caused_by(
        ledger,
        EventKind::StateDeltaRecorded,
        payload,
        causes,
        now,
    );
    let mut causes: Vec<i64> = Vec::new();
    causes.push(recorded.body.seq);
    proof {
        assert(causes@ =~= seq![next_seq(ev) as i64]);
    }
    ticket.writer.record_caused_by(
        ledger,
        EventKind::ObservationEmitted,
        observation.to_value(),
        causes,
        now,
    );
    StepResult { step: ticket.step, state, observation }
}

/// What the ledger records of an invocation that only reads the kernel's own
/// records.
pub open spec fn metadata_invocation(action: Action) -> Json {
    Json::Object(
        map![
            "action"@ => action.kind.spec_json(),
            "lease"@ => Json::Text(action.lease@),
            "budget"@ => budget_json(action.budget)
        ],
    )
}

/// The state that a step appends which leaves the workspace as it is.
pub open spec fn unchanged_from(p: NodePlan, head: StateNode) -> bool {
    &&& p.delta.spec_is_empty()
    &&& p.delta.policy_epoch == head.delta.policy_epoch
    &&& p.workspace_root == head.workspace_root
    &&& p.replay_class == head.replay_class
}

/// Record the invocation of a step that changes nothing, and plan the state
/// that it appends.
pub fn begin_metadata_step(
    ledger: &mut Ledger,
    ticket: &StepTicket,
    action: &Action,
    head: &StateNode,
    now: Timestamp,
) -> (r: NodePlan)
    requires
        old(ledger).wf(),
        room_for(old(ledger).events(), 1),
    ensures
        final(ledger).wf(),
        final(ledger).events() == grown(
            old(ledger).events(),
            ticket.writer@,
            EventKind::ToolInvocation,
            metadata_invocation(*action),
            Seq::empty(),
            now,
        ),
        final(ledger).raw() == old(ledger).raw(),
        final(ledger).receipts() == old(ledger).receipts(),
        unchanged_from(r, *head),
        r.cause == next_seq(old(ledger).events()),
{
    let payload = object3(
        "action",
        action.kind.to_value(),
        "lease",
        Value::text(action.lease.as_str()),
        "budget",
        action.budget.to_value(),
    );
    let tool = ticket.writer.record(ledger, EventKind::ToolInvocation, payload, now);
    NodePlan {
        delta: StateDelta::unchanged(head.delta.policy_epoch),
        workspace_root: head.workspace_root.clone(),
        replay_class: head.replay_class,
        cause: tool.body.seq,
    }
}

/// Where a step runs.
#[derive(Debug, Clone, Copy, PartialEq, Eq, Structural)]
pub enum Plane {
    /// It becomes a proposal at the effect broker; nothing runs inline.
    Broker,
    /// A read through the egress connector.
    Egress,
    /// A tool of an MCP server: a read or a proposal, by its class.
    Mcp,
    /// A query of the ledger.
    Trace,
    /// A diff of the branch.
    Diff,
    /// A backend.
    Backend,
}

/// Where an action runs.
pub open spec fn plane_of(kind: ActionKind) -> Plane {
    match kind {
        ActionKind::ConnectorOp { .. } => Plane::Broker,
        ActionKind::HttpRead { .. } => Plane::Egress,
        ActionKind::McpInvoke { .. } => Plane::Mcp,
        ActionKind::TraceQuery { .. } => Plane::Trace,
        ActionKind::BranchDiff { .. } => Plane::Diff,
        _ => Plane::Backend,
    }
}

/// Where an action runs.
pub fn plane(kind: &ActionKind) -> (r: Plane)
    ensures
        r == plane_of(*kind),
{
    match kind {
        ActionKind::ConnectorOp { .. } => Plane::Broker,
        ActionKind::HttpRead { .. } => Plane::Egress,
        ActionKind::McpInvoke { .. } => Plane::Mcp,
        ActionKind::TraceQuery { .. } => Plane::Trace,
        ActionKind::BranchDiff { .. } => Plane::Diff,
        _ => Plane::Backend,
    }
}

/// The step was refused after it had passed: the agent sees as much of the
/// denial as its trust allows by now.
pub open spec fn refused(
    before: Kernel,
    after: Kernel,
    t: StepTicket,
    denial: DenialView,
    now: Timestamp,
    r: KernelResult<StepResult>,
) -> bool {
    &&& same_but_ledger(after, before)
    &&& if !before.registry@.contains_key(t.writer.principal@) {
        &&& after.ledger == before.ledger
        &&& r matches Err(e) && (e matches KernelError::NotFound { kind, id } && kind@
            == "principal"@ && id@ == t.writer.principal@)
    } else {
        let shown = denial.redacted(before.registry@[t.writer.principal@].trust);
        &&& r matches Ok(res) && res.step == t.step && res.state == t.head && res.observation@ == (
        ObservationView::Denied { denial: shown })
        &&& after.ledger.events() == denied_log(before.ledger.events(), t.writer@, shown, now)
        &&& after.ledger.raw() == before.ledger.raw()
        &&& after.ledger.receipts() == before.ledger.receipts()
    }
}

/// The ticket of a step that passed.
pub open spec fn ticketed(
    t: StepTicket,
    branch: Branch,
    principal: Seq<char>,
    confinement: ConfinementView,
) -> bool {
    &&& generated(t.step@, "step-"@)
    &&& t.writer@ == step_attribution(branch, t.step@, principal)
    &&& t.confinement@ == confinement
    &&& t.head == branch.head
}

/// How a step on a branch starts: a terminal branch and an unknown principal are
/// errors; the verdict decides the rest. A denied step leaves the two events of
/// its denial, and a step that passes takes one use of its lease.
pub open spec fn started(
    before: Kernel,
    after: Kernel,
    principal: Seq<char>,
    branch: Branch,
    action: Action,
    now: Timestamp,
    r: KernelResult<StepStart>,
) -> bool {
    &&& same_but_leases_and_ledger(after, before)
    &&& if branch.status != BranchStatus::Active {
        &&& r matches Err(e) && discarded_error(e, branch.id@)
        &&& after.leases@ == before.leases@
        &&& after.ledger == before.ledger
    } else if !before.registry@.contains_key(principal) {
        &&& r matches Err(e) && (e matches KernelError::NotFound { kind, id } && kind@
            == "principal"@ && id@ == principal)
        &&& after.leases@ == before.leases@
        &&& after.ledger == before.ledger
    } else {
        let who = before.registry@[principal];
        match verdict(
            &before.policy.spec_document(),
            &who,
            before.leases@,
            request_of(principal, branch.id@, action),
            now,
        ) {
            Verdict::Deny(d) => {
                &&& r matches Ok(StepStart::Denied(res)) && generated(res.step@, "step-"@)
                    && res.state == branch.head && res.observation@ == (
                ObservationView::Denied { denial: d.redacted(who.trust) })
                    && after.ledger.events() == denied_log(
                    before.ledger.events(),
                    step_attribution(branch, res.step@, principal),
                    d.redacted(who.trust),
                    now,
                )
                &&& after.leases@ == before.leases@
                &&& after.ledger.raw() == before.ledger.raw()
                &&& after.ledger.receipts() == before.ledger.receipts()
            },
            Verdict::Pass(c) => {
                &&& r matches Ok(StepStart::Go(t)) && ticketed(
                    t,
                    branch,
                    principal,
                    c,
                )
                &&& after.leases@ == before.leases@.insert(
                    action.lease@,
                    before.leases@[action.lease@].used(),
                )
                &&& after.ledger == before.ledger
            },
        }
    }
}

impl Kernel {
    /// Judge a step: lease, budget and policy, in this order.
    pub fn judge(
        &self,
        who: &Principal,
        principal: &PrincipalId,
        branch: &BranchId,
        action: &Action,
        now: Timestamp,
    ) -> (r: Result<CompiledConfinement, Denial>)
        requires
            expiry_in_range(
                &self.policy.spec_document(),
                who,
                action.kind.spec_required_operation(),
                action.kind.spec_params(),
                now,
            ),
        ensures
            match (
                r,
                verdict(
                    &self.policy.spec_document(),
                    who,
                    self.leases@,
                    request_of(principal@, branch@, *action),
                    now,
                ),
            ) {
                (Ok(c), Verdict::Pass(v)) => c@ == v,
                (Err(d), Verdict::Deny(v)) => d@ == v,
                _ => false,
            },
    {
        let operation = action.kind.required_operation();
        let params = action.kind.params();
        let lease = match self.leases.get(&action.lease) {
            Ok(l) => l,
            Err(e) => {
                let message = e.message();
                return Err(
                    denial_of_unknown_lease(
                        &operation,
                        &params,
                        action.lease.as_str(),
                        message.as_str(),
                    ),
                );
            },
        };
        if let Err(failure) = lease.check(principal, &operation, &params, Some(branch), now) {
            return Err(denial_from_lease_failure(&operation, &params, &failure));
        }
        if !action.budget.fits_within(&lease.budget) {
            return Err(
                denial_of_over_budget(&operation, &params, &action.budget, &lease.budget),
            );
        }
        match self.policy.evaluate(who, &operation, &params, Some(branch), now) {
            Decision::Allow { grant, .. } => Ok(grant.confinement),
            Decision::RequireApproval { rule_id, .. } => Err(
                denial_of_unapproved_step(&operation, &params, rule_id.as_str()),
            ),
            Decision::Deny { denial } => Err(denial),
        }
    }

    /// Take one use of the lease. When steps race for the last use, exactly one
    /// wins and the rest get a machine-readable denial here.
    pub fn consume(&mut self, action: &Action, now: Timestamp) -> (r: Result<(), Denial>)
        requires
            old(self).leases.wf(),
        ensures
            final(self).leases.wf(),
            same_but_leases_and_ledger(*final(self), *old(self)),
            final(self).ledger == old(self).ledger,
            match r {
                Ok(_) => {
                    &&& old(self).leases@.contains_key(action.lease@)
                    &&& old(self).leases@[action.lease@].active(now)
                    &&& final(self).leases@ == old(self).leases@.insert(
                        action.lease@,
                        old(self).leases@[action.lease@].used(),
                    )
                },
                Err(d) => {
                    &&& final(self).leases@ == old(self).leases@
                    &&& !(old(self).leases@.contains_key(action.lease@)
                        && old(self).leases@[action.lease@].active(now))
                    &&& exists|e: IdentityError|
                        d@ == #[trigger] consume_denial(
                            action.kind.spec_required_operation(),
                            action.kind.spec_params(),
                            e,
                        ) && unconsumed(e, old(self).leases@, action.lease@, now)
                },
            },
    {
        match self.leases.consume_use(&action.lease, now) {
            Ok(_) => Ok(()),
            Err(e) => {
                let operation = action.kind.required_operation();
                let params = action.kind.params();
                let d = denial_from_consume_failure(&operation, &params, &e);
                proof {
                    assert(unconsumed(e, old(self).leases@, action.lease@, now));
                }
                Err(d)
            },
        }
    }

    /// Refuse a step that had passed the checks.
    pub fn refuse(&mut self, ticket: &StepTicket, denial: &Denial, now: Timestamp) -> (r: KernelResult<
        StepResult,
    >)
        requires
            old(self).wf(),
            room_for(old(self).ledger.events(), 2),
        ensures
            final(self).wf(),
            refused(*old(self), *final(self), *ticket, denial@, now, r),
    {
        let who = match self.registry.get(&ticket.writer.principal) {
            Ok(w) => w,
            Err(e) => {
                return Err(e.into_kernel());
            },
        };
        Ok(
            deny_step(
                &mut self.ledger,
                &ticket.writer,
                &ticket.head,
                ticket.step.clone(),
                who.trust,
                denial,
                now,
            ),
        )
    }

    /// Start one step on `branch` as `principal`.
    ///
    /// Lease check (a failure gives a machine-readable denial and a
    /// `DenialIssued` event), deterministic policy evaluation (the compiled
    /// confinement), and one use of the lease consumed. What follows depends on
    /// the action: see [`plane`].
    pub fn execute_step(
        &mut self,
        principal: &PrincipalId,
        branch: &Branch,
        action: &Action,
        now: Timestamp,
    ) -> (r: KernelResult<StepStart>)
        requires
            old(self).wf(),
            room_for(old(self).ledger.events(), 2),
            old(self).registry@.contains_key(principal@) ==> expiry_in_range(
                &old(self).policy.spec_document(),
                &old(self).registry@[principal@],
                action.kind.spec_required_operation(),
                action.kind.spec_params(),
                now,
            ),
        ensures
            final(self).wf(),
            started(*old(self), *final(self), principal@, *branch, *action, now, r),
    {
        if let Err(e) = branch.active() {
            return Err(e);
        }
        let who = match self.registry.get(principal) {
            Ok(w) => w,
            Err(e) => {
                return Err(e.into_kernel());
            },
        };
        let step = StepId::generate();
        let writer = EventWriter {
            episode: branch.episode.clone(),
            branch: Some(branch.id.clone()),
            step: Some(step.clone()),
            principal: principal.clone(),
        };
        let confinement = match self.judge(&who, principal, &branch.id, action, now) {
            Ok(c) => c,
            Err(d) => {
                let res = deny_step(
                    &mut self.ledger,
                    &writer,
                    &branch.head,
                    step,
                    who.trust,
                    &d,
                    now,
                );
                return Ok(StepStart::Denied(res));
            },
        };
        proof {
            law_refusal_iff_not_authorized(
                self.leases@[action.lease@],
                principal@,
                action.kind.spec_required_operation(),
                action.kind.spec_params(),
                Some(branch.id@),
                now,
            );
        }
        if let Err(d) = self.consume(action, now) {
            let res = deny_step(&mut self.ledger, &writer, &branch.head, step, who.trust, &d, now);
            return Ok(StepStart::Denied(res));
        }
        Ok(
            StepStart::Go(
                StepTicket {
                    step,
                    writer,
                    confinement,
                    head: branch.head.clone(),
                },
            ),
        )
    }
}

/// The error says why no use of the lease could be taken.
pub open spec fn unconsumed(
    e: IdentityError,
    leases: Map<Seq<char>, LeaseView>,
    lease: Seq<char>,
    now: Timestamp,
) -> bool {
    if !leases.contains_key(lease) {
        crate::identity::lease_store::unknown_lease(e, lease)
    } else {
        e matches IdentityError::LeaseUnusable { lease: l, reason } && l@ == lease
            && crate::identity::lease_store::unusable(leases[lease], now) == Some(reason@)
    }
}

/// What an agent says of its intent changes nothing in the judgement of a step.
pub proof fn law_intent_never_authorizes(
    doc: &PolicyDocument,
    who: &Principal,
    leases: Map<Seq<char>, LeaseView>,
    principal: Seq<char>,
    branch: Seq<char>,
    a: Action,
    b: Action,
    now: Timestamp,
)
    requires
        a.kind == b.kind,
        a.lease == b.lease,
        a.budget == b.budget,
    ensures
        verdict(doc, who, leases, request_of(principal, branch, a), now) == verdict(
            doc,
            who,
            leases,
            request_of(principal, branch, b),
            now,
        ),
{
}

/// A step passes only under a lease that authorizes it, within that lease's
/// envelope, and under a policy that allows it.
pub proof fn law_steps_pass_only_with_authority(
    doc: &PolicyDocument,
    who: &Principal,
    leases: Map<Seq<char>, LeaseView>,
    q: StepRequest,
    now: Timestamp,
)
    requires
        verdict(doc, who, leases, q, now) is Pass,
    ensures
        leases.contains_key(q.lease),
        leases[q.lease].authorizes(q.principal, q.operation, q.params, Some(q.branch), now),
        q.budget.within(leases[q.lease].budget),
        decide(doc, who, q.operation, q.params, Some(q.branch), now, Seq::empty()) is Allow,
{
    law_refusal_iff_not_authorized(
        leases[q.lease],
        q.principal,
        q.operation,
        q.params,
        Some(q.branch),
        now,
    );
}

/// No transition is invisible: the ledger keeps what it had, and gains the delta
/// with the state that it led to, and the observation that the delta caused.
pub proof fn law_transitions_are_recorded(
    events: Seq<EventView>,
    by: Attribution,
    state: Seq<char>,
    delta: DeltaView,
    cause: i64,
    observation: ObservationView,
    now: Timestamp,
)
    ensures
        ({
            let after = transition_log(events, by, state, delta, cause, observation, now);
            let n = events.len() as int;
            &&& after.len() == n + 2
            &&& after.take(n) == events
            &&& after[n].body.kind == EventKind::StateDeltaRecorded
            &&& after[n].body.payload == Json::Object(
                map!["state_id"@ => Json::Text(state), "delta"@ => delta.json()],
            )
            &&& after[n].body.caused_by == seq![cause]
            &&& after[n + 1].body.kind == EventKind::ObservationEmitted
            &&& after[n + 1].body.payload == observation.json()
            &&& after[n + 1].body.caused_by == seq![after[n].body.seq]
        }),
{
    let after = transition_log(events, by, state, delta, cause, observation, now);
    assert(after.take(events.len() as int) =~= events);
}

/// No denial is invisible or unexplained: the ledger keeps what it had, and
/// gains the denial in full, and the observation that it caused.
pub proof fn law_denials_are_recorded(
    events: Seq<EventView>,
    by: Attribution,
    denial: DenialView,
    now: Timestamp,
)
    ensures
        ({
            let after = denied_log(events, by, denial, now);
            let n = events.len() as int;
            &&& after.len() == n + 2
            &&& after.take(n) == events
            &&& after[n].body.kind == EventKind::DenialIssued
            &&& after[n].body.payload == denial.json()
            &&& after[n + 1].body.kind == EventKind::ObservationEmitted
            &&& after[n + 1].body.caused_by == seq![after[n].body.seq]
        }),
{
    let after = denied_log(events, by, denial, now);
    assert(after.take(events.len() as int) =~= events);
}

/// A step passes exactly if its lease is known and authorizes it, its budget fits the
/// lease, and the policy allows it; then it runs under the policy's confinement.
pub proof fn law_steps_pass_iff_every_check_does(
    doc: &PolicyDocument,
    who: &Principal,
    leases: Map<Seq<char>, LeaseView>,
    q: StepRequest,
    now: Timestamp,
)
    ensures
        verdict(doc, who, leases, q, now) is Pass <==> leases.contains_key(q.lease)
            && leases[q.lease].authorizes(q.principal, q.operation, q.params, Some(q.branch), now)
            && q.budget.within(leases[q.lease].budget) && decide(
            doc,
            who,
            q.operation,
            q.params,
            Some(q.branch),
            now,
            Seq::empty(),
        ) is Allow,
        verdict(doc, who, leases, q, now) matches Verdict::Pass(c) ==> decide(
            doc,
            who,
            q.operation,
            q.params,
            Some(q.branch),
            now,
            Seq::empty(),
        )->confinement == c,
        leases.contains_key(q.lease) && leases[q.lease].authorizes(
            q.principal,
            q.operation,
            q.params,
            Some(q.branch),
            now,
        ) && q.budget.within(leases[q.lease].budget) ==> (decide(
            doc,
            who,
            q.operation,
            q.params,
            Some(q.branch),
            now,
            Seq::empty(),
        ) matches DecisionView::Deny { denial } ==> verdict(doc, who, leases, q, now)
            == Verdict::Deny(denial)),
{
    if leases.contains_key(q.lease) {
        law_refusal_iff_not_authorized(
            leases[q.lease],
            q.principal,
            q.operation,
            q.params,
            Some(q.branch),
            now,
        );
    }
}

/// A step is judged by what its action needs, under the lease and budget it names.
pub proof fn law_steps_ask_for_what_their_action_needs(
    principal: Seq<char>,
    branch: Seq<char>,
    action: Action,
)
    ensures
        request_of(principal, branch, action).principal == principal,
        request_of(principal, branch, action).branch == branch,
        request_of(principal, branch, action).lease == action.lease@,
        request_of(principal, branch, action).budget == action.budget,
        request_of(principal, branch, action).operation == action.kind.spec_required_operation(),
        request_of(principal, branch, action).params == action.kind.spec_params(),
{
}

/// Connector operations go to the broker and never run inline; reads go through the
/// egress connector, tools to their server, queries to the records, and everything
/// else to a backend.
pub proof fn law_actions_run_on_their_plane(kind: ActionKind)
    ensures
        plane_of(kind) is Broker <==> kind is ConnectorOp,
        plane_of(kind) is Egress <==> kind is HttpRead,
        plane_of(kind) is Mcp <==> kind is McpInvoke,
        plane_of(kind) is Trace <==> kind is TraceQuery,
        plane_of(kind) is Diff <==> kind is BranchDiff,
        plane_of(kind) is Backend <==> kind is Shell || kind is ReadFile || kind is WriteFile || kind
            is DeletePath || kind is ProcessStart || kind is ProcessStdin || kind is ProcessLogs
            || kind is ProcessSignal || kind is ProcessStatus,
{
}

/// A step that starts takes exactly one use of its lease, and no other lease changes;
/// a step that is denied takes none. Nothing else but the ledger changes.
pub proof fn law_started_steps_take_one_use(
    before: Kernel,
    after: Kernel,
    principal: Seq<char>,
    branch: Branch,
    action: Action,
    now: Timestamp,
    r: KernelResult<StepStart>,
    other: Seq<char>,
)
    requires
        started(before, after, principal, branch, action, now, r),
    ensures
        r matches Ok(StepStart::Go(t)) ==> {
            &&& branch.status == BranchStatus::Active
            &&& before.leases@.contains_key(action.lease@)
            &&& before.leases@[action.lease@].remaining_uses > 0
            &&& after.leases@[action.lease@].remaining_uses
                == before.leases@[action.lease@].remaining_uses - 1
            &&& other != action.lease@ ==> after.leases@[other] == before.leases@[other]
            &&& after.ledger == before.ledger
            &&& t.head == branch.head
            &&& t.writer@.principal == principal
            &&& t.writer@.branch == Some(branch.id@)
            &&& t.writer@.episode == branch.episode@
            &&& t.writer@.step == Some(t.step@)
        },
        r matches Ok(StepStart::Denied(res)) ==> {
            &&& after.leases@ == before.leases@
            &&& after.ledger.events().len() == before.ledger.events().len() + 2
            &&& after.ledger.events().take(before.ledger.events().len() as int)
                == before.ledger.events()
            &&& res.state == branch.head
            &&& res.observation@ is Denied
        },
        r is Err ==> after.leases@ == before.leases@ && after.ledger == before.ledger && (
        branch.status != BranchStatus::Active || !before.registry@.contains_key(principal)),
        branch.status != BranchStatus::Active ==> (r matches Err(KernelError::BranchDiscarded {
            branch: b,
        }) && b@ == branch.id@),
        after.broker == before.broker,
        after.policy == before.policy,
        after.registry == before.registry,
{
    if branch.status == BranchStatus::Active && before.registry@.contains_key(principal) {
        let who = before.registry@[principal];
        let q = request_of(principal, branch.id@, action);
        law_steps_pass_iff_every_check_does(
            &before.policy.spec_document(),
            &who,
            before.leases@,
            q,
            now,
        );
        if let Verdict::Deny(d) = verdict(
            &before.policy.spec_document(),
            &who,
            before.leases@,
            q,
            now,
        ) {
            let res = r->Ok_0->Denied_0;
            law_denials_are_recorded(
                before.ledger.events(),
                step_attribution(branch, res.step@, principal),
                d.redacted(who.trust),
                now,
            );
        }
    }
}

/// A step that is refused after it had passed leaves its branch where it was, shows
/// the agent as much of the denial as its trust allows, and records exactly that.
pub proof fn law_refused_steps_are_explained(
    before: Kernel,
    after: Kernel,
    t: StepTicket,
    denial: DenialView,
    now: Timestamp,
    r: KernelResult<StepResult>,
)
    requires
        refused(before, after, t, denial, now, r),
    ensures
        after.leases == before.leases && after.broker == before.broker && after.policy
            == before.policy && after.registry == before.registry,
        r is Ok <==> before.registry@.contains_key(t.writer.principal@),
        r matches Ok(res) ==> {
            let shown = denial.redacted(before.registry@[t.writer.principal@].trust);
            let n = before.ledger.events().len() as int;
            &&& res.step == t.step && res.state == t.head
            &&& res.observation@ == (ObservationView::Denied { denial: shown })
            &&& after.ledger.events().len() == n + 2
            &&& after.ledger.events()[n].body.kind == EventKind::DenialIssued
            &&& after.ledger.events()[n].body.payload == shown.json()
        },
        r is Err ==> after.ledger == before.ledger,
{
    if before.registry@.contains_key(t.writer.principal@) {
        law_denials_are_recorded(
            before.ledger.events(),
            t.writer@,
            denial.redacted(before.registry@[t.writer.principal@].trust),
            now,
        );
    }
}

/// A step that changes nothing keeps the head's workspace, epoch and replay class.
pub proof fn law_idle_steps_keep_the_workspace(p: NodePlan, head: StateNode)
    requires
        unchanged_from(p, head),
    ensures
        p.delta.files@.len() == 0,
        p.delta.effects_proposed@.len() == 0,
        p.delta.effects_committed@.len() == 0,
        p.delta.tool_sessions@.len() == 0,
        p.delta.processes_started@.len() == 0,
        p.delta.processes_exited@.len() == 0,
        p.delta.policy_epoch == head.delta.policy_epoch,
        p.workspace_root == head.workspace_root,
        p.replay_class == head.replay_class,
{
}

/// The record of a step that only reads the records names its action, its lease and
/// its budget.
pub proof fn law_metadata_steps_are_recorded_by_name(action: Action)
    ensures
        metadata_invocation(action) matches Json::Object(m) && m.contains_key("action"@)
            && m["action"@] == action.kind.spec_json() && m.contains_key("lease"@) && m["lease"@]
            == Json::Text(action.lease@) && m.contains_key("budget"@) && m["budget"@]
            == budget_json(action.budget),
{
    reveal_strlit("action");
    reveal_strlit("lease");
    reveal_strlit("budget");
    assert("action"@.len() == 6 && "lease"@.len() == 5 && "budget"@.len() == 6);
    assert("action"@[0] != "budget"@[0]);
}

} // verus!
