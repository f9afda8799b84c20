//! Looking back: what a step did, doing it again, and replaying it.
use vstd::prelude::*;
use crate::action::{Action, ActionKind};
use crate::api::connector::{optional, text_member};
use crate::api::kernel::{Kernel, same_but_broker_and_ledger};
use crate::broker::effects::{proposal_made, unknown_effect};
use crate::budget::ResourceBudget;
use crate::effect::{ContractView, EffectContract, EffectView, PendingEffect, PhaseView};
use crate::error::{KernelError, KernelResult};
use crate::hash::ContentHash;
use crate::ids::{BranchId, EffectId, EpisodeId, LeaseId, PrincipalId, StepId, generated};
use crate::json::{Json, Number, NumberView, Value, member};
use crate::ledger::event::{EventKind, EventView, LedgerEvent};
use crate::ledger::query::TraceQuery;
use crate::policy::compiler::ConfinementView;
use crate::policy::engine::{Decision, DecisionView, decide, expiry_in_range};
use crate::replay::{ReplayClass, ReplayMode};
use crate::state::StateNode;
use crate::text;
use crate::time::Timestamp;
use crate::traits::ExecutionRequest;

verus! {

/// Everything the ledger recorded about one step, decoded.
#[derive(Debug)]
pub struct StepExplanation {
    pub step: StepId,
    pub episode: EpisodeId,
    pub branch: Option<BranchId>,
    pub principal: PrincipalId,
    /// The recorded `ToolInvocation` payload (action, lease, budget).
    pub action: Option<Value>,
    /// `CapabilityRequest` and `PolicyDecision` payloads, in order.
    pub policy_decisions: Vec<Value>,
    /// The denial, when the step was refused.
    pub denial: Option<Value>,
    /// State produced by the step, when one was recorded.
    pub state: Option<String>,
    pub state_delta: Option<Value>,
    /// The emitted observation payload.
    pub observation: Option<Value>,
    /// `EffectProposed` payloads.
    pub effects_proposed: Vec<Value>,
    /// The full event chain, in sequence order.
    pub events: Vec<LedgerEvent>,
}

/// What the events of a step say.
#[verifier::ext_equal]
pub struct Findings {
    pub action: Option<Json>,
    pub policy_decisions: Seq<Json>,
    pub denial: Option<Json>,
    pub state: Option<Seq<char>>,
    pub state_delta: Option<Json>,
    pub observation: Option<Json>,
    pub effects_proposed: Seq<Json>,
}

/// What the events of a step say. Of two events of one kind the later counts,
/// but decisions and proposals are all kept.
pub open spec fn findings(events: Seq<EventView>) -> Findings
    decreases events.len(),
{
    if events.len() == 0 {
        Findings {
            action: None,
            policy_decisions: Seq::empty(),
            denial: None,
            state: None,
            state_delta: None,
            observation: None,
            effects_proposed: Seq::empty(),
        }
    } else {
        let f = findings(events.drop_last());
        let payload = events.last().body.payload;
        match events.last().body.kind {
            EventKind::ToolInvocation => Findings { action: Some(payload), ..f },
            EventKind::PolicyDecision => Findings {
                policy_decisions: f.policy_decisions.push(payload),
                ..f
            },
            EventKind::CapabilityRequest => Findings {
                policy_decisions: f.policy_decisions.push(payload),
                ..f
            },
            EventKind::DenialIssued => Findings { denial: Some(payload), ..f },
            EventKind::StateDeltaRecorded => Findings {
                state: text_member(payload, "state_id"@),
                state_delta: member(payload, "delta"@),
                ..f
            },
            EventKind::ObservationEmitted => Findings { observation: Some(payload), ..f },
            EventKind::EffectProposed => Findings {
                effects_proposed: f.effects_proposed.push(payload),
                ..f
            },
            _ => f,
        }
    }
}

impl StepExplanation {
    /// What the explanation says beyond its attribution.
    pub open spec fn found(&self) -> Findings {
        Findings {
            action: optional(self.action),
            policy_decisions: self.policy_decisions.deep_view(),
            denial: optional(self.denial),
            state: self.state.deep_view(),
            state_delta: optional(self.state_delta),
            observation: optional(self.observation),
            effects_proposed: self.effects_proposed.deep_view(),
        }
    }
}

/// The query for the events of a step.
pub open spec fn of_step(events: Seq<EventView>, step: Seq<char>) -> Seq<EventView>
    decreases events.len(),
{
    if events.len() == 0 {
        Seq::empty()
    } else {
        let rest = of_step(events.drop_last(), step);
        if events.last().body.step == Some(step) {
            rest.push(events.last())
        } else {
            rest
        }
    }
}

/// The query for the events of a range of sequence numbers.
pub open spec fn in_range(events: Seq<EventView>, from: i64, to: i64) -> Seq<EventView>
    decreases events.len(),
{
    if events.len() == 0 {
        Seq::empty()
    } else {
        let rest = in_range(events.drop_last(), from, to);
        if from <= events.last().body.seq <= to {
            rest.push(events.last())
        } else {
            rest
        }
    }
}

proof fn lemma_untimed(q: TraceQuery, events: Seq<EventView>)
    requires
        q.time_range is None,
    ensures
        crate::ledger::query::timely(q, events) == events,
    decreases events.len(),
{
    if events.len() > 0 {
        lemma_untimed(q, events.drop_last());
        assert(events.drop_last().push(events.last()) =~= events);
    }
}

proof fn lemma_of_step(q: TraceQuery, events: Seq<EventView>, step: Seq<char>)
    requires
        q.episode is None,
        q.branch is None,
        q.principal is None,
        q.seq_range is None,
        q.kinds@.len() == 0,
        q.step.deep_view() == Some(step),
    ensures
        crate::ledger::query::admitted(q, events) == of_step(events, step),
    decreases events.len(),
{
    if events.len() > 0 {
        lemma_of_step(q, events.drop_last(), step);
    }
}

proof fn lemma_in_range(q: TraceQuery, events: Seq<EventView>, from: i64, to: i64)
    requires
        q.episode is None,
        q.branch is None,
        q.principal is None,
        q.step is None,
        q.kinds@.len() == 0,
        q.seq_range == Some((from, to)),
    ensures
        crate::ledger::query::admitted(q, events) == in_range(events, from, to),
    decreases events.len(),
{
    if events.len() > 0 {
        lemma_in_range(q, events.drop_last(), from, to);
    }
}

/// The error for what the ledger does not hold of a step.
pub open spec fn not_recorded(e: KernelError, what: Seq<char>, id: Seq<char>) -> bool {
    e matches KernelError::NotFound { kind, id: i } && kind@ == what && i@ == id
}

fn explain_event(x: &mut StepExplanation, e: &LedgerEvent)
    ensures
        final(x).step == old(x).step,
        final(x).episode == old(x).episode,
        final(x).branch == old(x).branch,
        final(x).principal == old(x).principal,
        final(x).events == old(x).events,
        forall|before: Seq<EventView>|
            old(x).found() == #[trigger] findings(before) ==> final(x).found() == findings(
                before.push(e@),
            ),
{
    let payload = e.body.payload.clone();
    let ghost decisions = x.policy_decisions.deep_view();
    let ghost effects = x.effects_proposed.deep_view();
    match e.body.kind {
        EventKind::ToolInvocation => {
            x.action = Some(payload);
        },
        EventKind::PolicyDecision => {
            x.policy_decisions.push(payload);
            proof {
                assert(x.policy_decisions.deep_view() =~= decisions.push(e@.body.payload));
            }
        },
        EventKind::CapabilityRequest => {
            x.policy_decisions.push(payload);
            proof {
                assert(x.policy_decisions.deep_view() =~= decisions.push(e@.body.payload));
            }
        },
        EventKind::DenialIssued => {
            x.denial = Some(payload);
        },
        EventKind::StateDeltaRecorded => {
            x.state = match payload.get("state_id") {
                Some(v) => match v.as_str() {
                    Some(s) => Some(s.to_owned()),
                    None => None,
                },
                None => None,
            };
            x.state_delta = match payload.get("delta") {
                Some(v) => Some(v.clone()),
                None => None,
            };
        },
        EventKind::ObservationEmitted => {
            x.observation = Some(payload);
        },
        EventKind::EffectProposed => {
            x.effects_proposed.push(payload);
            proof {
                assert(x.effects_proposed.deep_view() =~= effects.push(e@.body.payload));
            }
        },
        _ => {},
    }
    proof {
        assert forall|before: Seq<EventView>|
            old(x).found() == #[trigger] findings(before) implies x.found() == findings(
            before.push(e@),
        ) by {
            assert(before.push(e@).drop_last() =~= before);
            assert(before.push(e@).last() == e@);
            assert(x.found() =~= findings(before.push(e@)));
        }
    }
}

/// What a retry presents again.
#[derive(Debug)]
pub struct RetryPlan {
    pub branch: BranchId,
    pub principal: PrincipalId,
    /// The recorded action, in JSON.
    pub action: Value,
    /// The recorded lease, in JSON.
    pub lease: Value,
    /// The recorded budget, in JSON.
    pub budget: Option<Value>,
    pub intent_hint: String,
}

/// The intent hint of a retry.
pub open spec fn retry_hint(step: Seq<char>, payload: Json) -> Seq<char> {
    match text_member(payload, "intent_hint"@) {
        Some(s) => "retry of "@ + step + ": "@ + s,
        None => "retry of "@ + step,
    }
}

/// Plan a retry of a recorded step: the same recorded action (kind, lease,
/// budget) is presented as a fresh step on the same branch. Retrying never mints
/// authority: if the recorded lease has since expired or been revoked, the retry
/// is denied like any other step.
pub fn step_retry(x: &StepExplanation) -> (r: KernelResult<RetryPlan>)
    ensures
        match (x.branch, x.found().action) {
            (None, _) => r matches Err(e) && not_recorded(e, "step_branch"@, x.step@),
            (Some(_), None) => r matches Err(e) && not_recorded(e, "tool_invocation"@, x.step@),
            (Some(b), Some(payload)) => match (
                member(payload, "action"@),
                member(payload, "lease"@),
            ) {
                (None, _) => r matches Err(e) && not_recorded(e, "recorded_action"@, x.step@),
                (Some(_), None) => r matches Err(e) && not_recorded(
                    e,
                    "recorded_lease"@,
                    x.step@,
                ),
                (Some(action), Some(lease)) => r matches Ok(p) && p.branch == b && p.principal
                    == x.principal && p.action@ == action && p.lease@ == lease && optional(
                    p.budget,
                ) == member(payload, "budget"@) && p.intent_hint@ == retry_hint(x.step@, payload),
            },
        },
{
    let branch = match &x.branch {
        Some(b) => b.clone(),
        None => {
            return Err(
                KernelError::NotFound { kind: "step_branch", id: x.step.as_str().to_owned() },
            );
        },
    };
    let payload = match &x.action {
        Some(p) => p,
        None => {
            return Err(
                KernelError::NotFound { kind: "tool_invocation", id: x.step.as_str().to_owned() },
            );
        },
    };
    let action = match payload.get("action") {
        Some(a) => a.clone(),
        None => {
            return Err(
                KernelError::NotFound { kind: "recorded_action", id: x.step.as_str().to_owned() },
            );
        },
    };
    let lease = match payload.get("lease") {
        Some(l) => l.clone(),
        None => {
            return Err(
                KernelError::NotFound { kind: "recorded_lease", id: x.step.as_str().to_owned() },
            );
        },
    };
    let budget = match payload.get("budget") {
        Some(b) => Some(b.clone()),
        None => None,
    };
    let hint = match payload.get("intent_hint") {
        Some(v) => v.as_str(),
        None => None,
    };
    let intent_hint = match hint {
        Some(s) => text::cat4("retry of ", x.step.as_str(), ": ", s),
        None => text::cat2("retry of ", x.step.as_str()),
    };
    Ok(
        RetryPlan {
            branch,
            principal: x.principal.clone(),
            action,
            lease,
            budget,
            intent_hint,
        },
    )
}

/// The action that a retry runs. A budget that cannot be read is the default
/// one.
pub fn retry_action(
    kind: ActionKind,
    lease: LeaseId,
    budget: Option<ResourceBudget>,
    intent_hint: String,
) -> (r: Action)
    ensures
        r.kind == kind,
        r.lease == lease,
        r.intent_hint == Some(intent_hint),
        r.budget == match budget {
            Some(b) => b,
            None => ResourceBudget::spec_step_default(),
        },
{
    let budget = match budget {
        Some(b) => b,
        None => ResourceBudget::step_default(),
    };
    Action { kind, lease, intent_hint: Some(intent_hint), budget }
}

/// What a sandbox replay runs again, and what it is compared with.
#[derive(Debug)]
pub struct ReplaySubject {
    /// The recorded action, in JSON.
    pub action: Value,
    /// The state that the step produced, in JSON.
    pub state: Value,
    pub original_exit_code: Option<i32>,
}

/// The first event of a kind from position `i` on.
pub open spec fn first_of(events: Seq<EventView>, kind: EventKind, i: int) -> Option<EventView>
    decreases events.len() - i,
{
    if i >= events.len() {
        None
    } else if events[i].body.kind == kind {
        Some(events[i])
    } else {
        first_of(events, kind, i + 1)
    }
}

/// The member of the payload of the first event of a kind.
pub open spec fn first_member(events: Seq<EventView>, kind: EventKind, key: Seq<char>) -> Option<Json> {
    match first_of(events, kind, 0) {
        Some(e) => member(e.body.payload, key),
        None => None,
    }
}

/// The exit code that a JSON number stands for, in 32 bits.
pub open spec fn exit_code_of(j: Option<Json>) -> Option<i32> {
    match j {
        Some(Json::Number(NumberView::PosInt(n))) => if n <= i64::MAX {
            Some(n as i64 as i32)
        } else {
            None
        },
        Some(Json::Number(NumberView::NegInt(n))) => Some(n as i32),
        _ => None,
    }
}

fn find_member(events: &Vec<LedgerEvent>, kind: EventKind, key: &str) -> (r: Option<Value>)
    ensures
        optional(r) == first_member(events.deep_view(), kind, key@),
{
    let ghost ev = events.deep_view();
    let mut i: usize = 0;
    while i < events.len()
        invariant
            i <= events.len(),
            ev == events.deep_view(),
            first_of(ev, kind, 0) == first_of(ev, kind, i as int),
        decreases events.len() - i,
    {
        proof {
            assert(ev[i as int] == events@[i as int]@);
        }
        if events[i].body.kind == kind {
            return match events[i].body.payload.get(key) {
                Some(v) => Some(v.clone()),
                None => None,
            };
        }
        i = i + 1;
    }
    None
}

fn read_exit_code(v: &Option<Value>) -> (r: Option<i32>)
    ensures
        r == exit_code_of(optional(*v)),
{
    match v {
        Some(Value::Number(n)) => match n {
            Number::PosInt(n) => if *n <= i64::MAX as u64 {
                Some(#[verifier::truncate] (*n as i64 as i32))
            } else {
                None
            },
            Number::NegInt(n) => Some(#[verifier::truncate] (*n as i32)),
            _ => None,
        },
        _ => None,
    }
}

/// Result of a sandbox replay.
#[derive(Debug)]
pub struct ReplaySandboxReport {
    pub step: StepId,
    /// Exit code recorded in the original observation (when available).
    pub original_exit_code: Option<i32>,
    pub rerun_exit_code: i32,
    /// Whether the re-run produced a byte-identical workspace tree.
    pub workspace_match: bool,
    pub replay_class: ReplayClass,
}

/// Compare a replay with what was recorded.
pub fn replay_report(
    step: &StepId,
    original_exit_code: Option<i32>,
    rerun_exit_code: i32,
    root: &ContentHash,
    recorded: &StateNode,
) -> (r: ReplaySandboxReport)
    ensures
        r.step == *step,
        r.original_exit_code == original_exit_code,
        r.rerun_exit_code == rerun_exit_code,
        r.workspace_match == (root@ == recorded.workspace_root@),
        r.replay_class == recorded.replay_class,
{
    ReplaySandboxReport {
        step: step.clone(),
        original_exit_code,
        rerun_exit_code,
        workspace_match: text::str_eq(root.as_str(), recorded.workspace_root.as_str()),
        replay_class: recorded.replay_class,
    }
}

/// The error for a step that cannot be replayed in a sandbox.
pub open spec fn unreplayable(e: KernelError, step: Seq<char>) -> bool {
    e matches KernelError::Other(m) && m@ == "step "@ + step
        + " was recorded at replay class AuditOnly, which does not support sandbox replay"@
}

/// The backend is asked to run the recorded action on the recorded parent state,
/// under the confinement that the policy compiles now.
pub open spec fn reruns(
    q: ExecutionRequest,
    recorded: StateNode,
    kind: ActionKind,
    c: ConfinementView,
) -> bool {
    &&& generated(q.branch@, "br-"@)
    &&& Some(q.base_state) == recorded.parent
    &&& q.actor == recorded.actor
    &&& q.action.spec_json() == kind.spec_json()
    &&& q.budget == ResourceBudget::spec_step_default()
    &&& q.writable_prefixes.deep_view() == c.writable_prefixes
    &&& q.readable_prefixes.deep_view() == c.readable_prefixes
    &&& q.egress_domains.deep_view() == c.egress_domains
}

/// A contract under the idempotency key of its replay.
pub open spec fn replayed(original: ContractView, millis: i64) -> ContractView {
    ContractView {
        idempotency_key: original.idempotency_key + "-replay-"@ + text::signed_decimal(
            millis as int,
        ),
        ..original
    }
}

/// A replay never falls under the idempotency key of what it replays, so the
/// receipt of the one does not answer for the other. Everything else of the
/// contract is as it was.
pub proof fn law_replays_take_a_key_of_their_own(original: ContractView, millis: i64)
    ensures
        replayed(original, millis).idempotency_key != original.idempotency_key,
        (ContractView {
            idempotency_key: original.idempotency_key,
            ..replayed(original, millis)
        }) == original,
{
    reveal_strlit("-replay-");
    assert(replayed(original, millis).idempotency_key.len() > original.idempotency_key.len());
}

/// The contract of a live replay: the recorded one under a fresh idempotency
/// key. It guarantees the contract, never the outcome.
pub fn replay_contract(original: &EffectContract, millis: i64) -> (r: EffectContract)
    ensures
        r@ == replayed(original@, millis),
{
    let stamp = text::to_signed_decimal(millis);
    let key = text::cat3(original.idempotency_key.as_str(), "-replay-", stamp.as_str());
    let mut contract = original.clone();
    contract.idempotency_key = key;
    contract
}

impl Kernel {
    /// Explain a recorded step: decode its ledger events into the action, policy
    /// decisions, denial, state delta, observation and proposed effects.
    pub fn step_explain(&self, step: &StepId) -> (r: KernelResult<StepExplanation>)
        ensures
            ({
                let events = of_step(self.ledger.events(), step@);
                if events.len() == 0 {
                    r matches Err(e) && not_recorded(e, "step"@, step@)
                } else {
                    r matches Ok(x) && x.step == *step && x.episode@ == events[0].body.episode
                        && x.branch.deep_view() == events[0].body.branch && x.principal@
                        == events[0].body.principal && x.events.deep_view() == events && x.found()
                        == findings(events)
                }
            }),
    {
        let q = TraceQuery { step: Some(step.clone()), ..TraceQuery::default() };
        let events = self.ledger.query(&q);
        let ghost ev = events.deep_view();
        proof {
            lemma_of_step(q, self.ledger.events(), step@);
            lemma_untimed(q, of_step(self.ledger.events(), step@));
            assert(ev == of_step(self.ledger.events(), step@));
        }
        if events.len() == 0 {
            return Err(KernelError::NotFound { kind: "step", id: step.as_str().to_owned() });
        }
        proof {
            assert(ev[0] == events@[0]@);
        }
        let branch = match &events[0].body.branch {
            Some(b) => Some(b.clone()),
            None => None,
        };
        let mut x = StepExplanation {
            step: step.clone(),
            episode: events[0].body.episode.clone(),
            branch,
            principal: events[0].body.principal.clone(),
            action: None,
            policy_decisions: Vec::new(),
            denial: None,
            state: None,
            state_delta: None,
            observation: None,
            effects_proposed: Vec::new(),
            events: Vec::new(),
        };
        let mut i: usize = 0;
        proof {
            assert(ev.take(0) =~= Seq::<EventView>::empty());
            assert(x.found() =~= findings(ev.take(0)));
        }
        while i < events.len()
            invariant
                i <= events.len(),
                ev == events.deep_view(),
                ev.len() > 0,
                x.step == *step,
                x.episode@ == ev[0].body.episode,
                x.branch.deep_view() == ev[0].body.branch,
                x.principal@ == ev[0].body.principal,
                x.found() == findings(ev.take(i as int)),
            decreases events.len() - i,
        {
            explain_event(&mut x, &events[i]);
            proof {
                assert(ev.take(i + 1) =~= ev.take(i as int).push(events@[i as int]@));
            }
            i = i + 1;
        }
        proof {
            assert(ev.take(ev.len() as int) =~= ev);
        }
        x.events = events;
        Ok(x)
    }

    /// Audit replay: recorded ledger events for an inclusive sequence range.
    /// Never re-executes anything; available for every step.
    pub fn replay_audit(&self, seq_from: i64, seq_to: i64) -> (r: Vec<LedgerEvent>)
        ensures
            r.deep_view() == in_range(self.ledger.events(), seq_from, seq_to),
    {
        let q = TraceQuery { seq_range: Some((seq_from, seq_to)), ..TraceQuery::default() };
        proof {
            lemma_in_range(q, self.ledger.events(), seq_from, seq_to);
            lemma_untimed(q, in_range(self.ledger.events(), seq_from, seq_to));
        }
        self.ledger.query(&q)
    }

    /// What a sandbox replay of a step runs again.
    pub fn replay_subject(&self, step: &StepId) -> (r: KernelResult<ReplaySubject>)
        ensures
            ({
                let events = of_step(self.ledger.events(), step@);
                match (
                    first_member(events, EventKind::ToolInvocation, "action"@),
                    first_member(events, EventKind::StateDeltaRecorded, "state_id"@),
                ) {
                    (None, _) => r matches Err(e) && not_recorded(e, "tool_invocation"@, step@),
                    (Some(_), None) => r matches Err(e) && not_recorded(e, "state_delta"@, step@),
                    (Some(action), Some(state)) => r matches Ok(s) && s.action@ == action
                        && s.state@ == state && s.original_exit_code == exit_code_of(
                        first_member(events, EventKind::ObservationEmitted, "exit_code"@),
                    ),
                }
            }),
    {
        let q = TraceQuery { step: Some(step.clone()), ..TraceQuery::default() };
        let events = self.ledger.query(&q);
        proof {
            lemma_of_step(q, self.ledger.events(), step@);
            lemma_untimed(q, of_step(self.ledger.events(), step@));
        }
        let action = match find_member(&events, EventKind::ToolInvocation, "action") {
            Some(a) => a,
            None => {
                return Err(
                    KernelError::NotFound { kind: "tool_invocation", id: step.as_str().to_owned() },
                );
            },
        };
        let state = match find_member(&events, EventKind::StateDeltaRecorded, "state_id") {
            Some(s) => s,
            None => {
                return Err(
                    KernelError::NotFound { kind: "state_delta", id: step.as_str().to_owned() },
                );
            },
        };
        let code = find_member(&events, EventKind::ObservationEmitted, "exit_code");
        Ok(ReplaySubject { action, state, original_exit_code: read_exit_code(&code) })
    }

    /// Live replay: propose the recorded effect's contract again under a fresh
    /// idempotency key. It starts over as a proposal: preparation, approval and
    /// commit follow with full revalidation. `arguments` is what the connector makes
    /// of the recorded arguments.
    pub fn replay_live(
        &mut self,
        effect: &EffectId,
        arguments: Value,
        millis: i64,
        now: Timestamp,
    ) -> (r: KernelResult<PendingEffect>)
        requires
            old(self).wf(),
        ensures
            final(self).wf(),
            same_but_broker_and_ledger(*final(self), *old(self)),
            final(self).ledger == old(self).ledger,
            final(self).broker.spec_signer() == old(self).broker.spec_signer(),
            if !old(self).broker@.effects.contains_key(effect@) {
                &&& final(self).broker@ == old(self).broker@
                &&& r matches Err(e) && unknown_effect(e, effect@)
            } else {
                let original = old(self).broker@.effects[effect@].effect;
                let contract = ContractView {
                    arguments: arguments@,
                    ..replayed(original.contract, millis)
                };
                proposal_made(
                    old(self).broker@,
                    final(self).broker@,
                    EffectView {
                        contract,
                        contract_hash: contract.hash(),
                        phase: PhaseView::Proposed,
                        proposed_at: now,
                        ..original
                    },
                    r,
                )
            },
    {
        let original = match self.broker.effect(effect) {
            Ok(e) => e,
            Err(e) => {
                return Err(e);
            },
        };
        let mut contract = replay_contract(&original.contract, millis);
        contract.arguments = arguments;
        self.broker.propose(
            contract,
            original.proposer,
            original.branch,
            original.step,
            original.lease,
            now,
        )
    }

    /// Authorize a sandbox replay: the recorded class has to support it, the
    /// recorded actor has to pass the current policy for this action, and the
    /// replay runs under the compiled confinement, not an empty one.
    pub fn replay_sandbox(
        &self,
        step: &StepId,
        recorded: &StateNode,
        kind: &ActionKind,
        now: Timestamp,
    ) -> (r: KernelResult<ExecutionRequest>)
        requires
            self.registry@.contains_key(recorded.actor@) ==> expiry_in_range(
                &self.policy.spec_document(),
                &self.registry@[recorded.actor@],
                kind.spec_required_operation(),
                kind.spec_params(),
                now,
            ),
        ensures
            if !recorded.replay_class.honors(ReplayMode::Sandbox) {
                r matches Err(e) && unreplayable(e, step@)
            } else if recorded.parent is None {
                r matches Err(e) && not_recorded(e, "parent_state"@, recorded.id@)
            } else if !self.registry@.contains_key(recorded.actor@) {
                r matches Err(e) && not_recorded(e, "principal"@, recorded.actor@)
            } else {
                match decide(
                    &self.policy.spec_document(),
                    &self.registry@[recorded.actor@],
                    kind.spec_required_operation(),
                    kind.spec_params(),
                    Some(recorded.branch@),
                    now,
                    Seq::empty(),
                ) {
                    DecisionView::Allow { confinement, .. } => r matches Ok(q) && reruns(
                        q,
                        *recorded,
                        *kind,
                        confinement,
                    ),
                    DecisionView::RequireApproval { rule_id, .. } => r matches Err(e) && (
                    e matches KernelError::Other(m) && m@ == "sandbox replay refused: rule `"@
                        + rule_id + "` now requires approval"@),
                    DecisionView::Deny { denial } => r matches Err(e) && (
                    e matches KernelError::Denied(d) && d@ == denial),
                }
            },
    {
        if !recorded.replay_class.supports(ReplayMode::Sandbox) {
            return Err(
                KernelError::Other(
                    text::cat3(
                        "step ",
                        step.as_str(),
                        " was recorded at replay class AuditOnly, which does not support sandbox replay",
                    ),
                ),
            );
        }
        let parent = match &recorded.parent {
            Some(p) => p.clone(),
            None => {
                return Err(
                    KernelError::NotFound {
                        kind: "parent_state",
                        id: recorded.id.as_str().to_owned(),
                    },
                );
            },
        };
        let who = match self.registry.get(&recorded.actor) {
            Ok(w) => w,
            Err(e) => {
                return Err(e.into_kernel());
            },
        };
        let operation = kind.required_operation();
        let params = kind.params();
        match self.policy.evaluate(&who, &operation, &params, Some(&recorded.branch), now) {
            Decision::Allow { grant, .. } => Ok(
                ExecutionRequest {
                    branch: BranchId::generate(),
                    base_state: parent,
                    actor: recorded.actor.clone(),
                    action: kind.clone(),
                    budget: ResourceBudget::step_default(),
                    writable_prefixes: grant.confinement.writable_prefixes,
                    readable_prefixes: grant.confinement.readable_prefixes,
                    egress_domains: grant.confinement.egress_domains,
                },
            ),
            Decision::RequireApproval { rule_id, .. } => Err(
                KernelError::Other(
                    text::cat3(
                        "sandbox replay refused: rule `",
                        rule_id.as_str(),
                        "` now requires approval",
                    ),
                ),
            ),
            Decision::Deny { denial } => Err(KernelError::Denied(Box::new(denial))),
        }
    }
}

/// One more event adds to what is known of a step what its kind says, and nothing
/// else: of actions, denials, states and observations the last counts, decisions and
/// proposals are all kept in order.
pub proof fn law_each_event_adds_its_finding(events: Seq<EventView>, e: EventView)
    ensures
        ({
            let f = findings(events);
            let g = findings(events.push(e));
            let p = e.body.payload;
            let k = e.body.kind;
            &&& g.action == if k is ToolInvocation {
                Some(p)
            } else {
                f.action
            }
            &&& g.policy_decisions == if k is PolicyDecision || k is CapabilityRequest {
                f.policy_decisions.push(p)
            } else {
                f.policy_decisions
            }
            &&& g.denial == if k is DenialIssued {
                Some(p)
            } else {
                f.denial
            }
            &&& g.state == if k is StateDeltaRecorded {
                text_member(p, "state_id"@)
            } else {
                f.state
            }
            &&& g.state_delta == if k is StateDeltaRecorded {
                member(p, "delta"@)
            } else {
                f.state_delta
            }
            &&& g.observation == if k is ObservationEmitted {
                Some(p)
            } else {
                f.observation
            }
            &&& g.effects_proposed == if k is EffectProposed {
                f.effects_proposed.push(p)
            } else {
                f.effects_proposed
            }
        }),
        findings(Seq::empty()).action is None,
        findings(Seq::empty()).denial is None,
        findings(Seq::empty()).state is None,
        findings(Seq::empty()).state_delta is None,
        findings(Seq::empty()).observation is None,
        findings(Seq::empty()).policy_decisions.len() == 0,
        findings(Seq::empty()).effects_proposed.len() == 0,
{
    assert(events.push(e).drop_last() =~= events);
}

/// The events of a step are all that name it, in order; those of a range are all
/// whose number lies in it, both ends counted.
pub proof fn law_steps_and_ranges_are_complete(
    events: Seq<EventView>,
    e: EventView,
    step: Seq<char>,
    from: i64,
    to: i64,
)
    ensures
        of_step(Seq::empty(), step).len() == 0,
        in_range(Seq::empty(), from, to).len() == 0,
        e.body.step == Some(step) ==> of_step(events.push(e), step) == of_step(events, step).push(e),
        e.body.step != Some(step) ==> of_step(events.push(e), step) == of_step(events, step),
        from <= e.body.seq && e.body.seq <= to ==> in_range(events.push(e), from, to) == in_range(
            events,
            from,
            to,
        ).push(e),
        e.body.seq < from || e.body.seq > to ==> in_range(events.push(e), from, to) == in_range(
            events,
            from,
            to,
        ),
{
    assert(events.push(e).drop_last() =~= events);
}

/// The first event of a kind is of that kind, and none before it is; there is none
/// only where no event is of that kind.
pub proof fn law_first_event_of_a_kind(events: Seq<EventView>, kind: EventKind, i: int)
    requires
        0 <= i,
    ensures
        first_of(events, kind, i) matches Some(e) ==> exists|k: int|
            i <= k < events.len() && #[trigger] events[k] == e && e.body.kind == kind && forall|j: int|
                i <= j < k ==> (#[trigger] events[j]).body.kind != kind,
        first_of(events, kind, i) is None ==> forall|j: int|
            i <= j < events.len() ==> (#[trigger] events[j]).body.kind != kind,
    decreases events.len() - i,
{
    if i < events.len() {
        if events[i].body.kind == kind {
            assert(events[i] == events[i]);
        } else {
            law_first_event_of_a_kind(events, kind, i + 1);
        }
    }
}

/// What is read from the first event of a kind is the member of its payload.
pub proof fn law_first_payload_is_read(events: Seq<EventView>, kind: EventKind, key: Seq<char>)
    ensures
        first_of(events, kind, 0) matches Some(e) ==> (e.body.payload matches Json::Object(m) ==> (
        m.contains_key(key) ==> first_member(events, kind, key) == Some(m[key])) && (
        !m.contains_key(key) ==> first_member(events, kind, key) is None)),
        first_of(events, kind, 0) is None ==> first_member(events, kind, key) is None,
{
}

/// An exit code is a whole number; what fits in 32 bits is read as it is, and nothing
/// but a whole number is read.
pub proof fn law_exit_codes_are_whole_numbers(n: u64, m: i64, t: Seq<char>, b: bool)
    ensures
        n <= i32::MAX ==> exit_code_of(Some(Json::Number(NumberView::PosInt(n)))) == Some(n as i32),
        n > i64::MAX ==> exit_code_of(Some(Json::Number(NumberView::PosInt(n)))) is None,
        i32::MIN <= m <= i32::MAX ==> exit_code_of(Some(Json::Number(NumberView::NegInt(m))))
            == Some(m as i32),
        exit_code_of(Some(Json::Text(t))) is None,
        exit_code_of(Some(Json::Bool(b))) is None,
        exit_code_of(Some(Json::Null)) is None,
        exit_code_of(None) is None,
{
}

/// A retry says what it is a retry of, and what the step was meant for.
pub proof fn law_retries_say_what_of(step: Seq<char>, payload: Json)
    ensures
        "retry of "@.is_prefix_of(retry_hint(step, payload)),
        text_member(payload, "intent_hint"@) is None ==> retry_hint(step, payload) == "retry of "@
            + step,
        text_member(payload, "intent_hint"@) matches Some(s) ==> retry_hint(step, payload)
            == "retry of "@ + step + ": "@ + s,
{
    let p = "retry of "@;
    let h = retry_hint(step, payload);
    assert(h.subrange(0, p.len() as int) =~= p);
}

/// A replay runs the recorded action on the state before it, as the recorded actor,
/// under the confinement that is given, within the budget of one step.
pub proof fn law_replays_start_from_the_recorded_parent(
    q: ExecutionRequest,
    recorded: StateNode,
    kind: ActionKind,
    c: ConfinementView,
)
    requires
        reruns(q, recorded, kind, c),
    ensures
        recorded.parent == Some(q.base_state),
        q.actor == recorded.actor,
        q.action.spec_json() == kind.spec_json(),
        q.budget == ResourceBudget::spec_step_default(),
        q.writable_prefixes.deep_view() == c.writable_prefixes,
        q.readable_prefixes.deep_view() == c.readable_prefixes,
        q.egress_domains.deep_view() == c.egress_domains,
{
}

/// What cannot be looked back at is named, and what cannot be replayed says why.
pub proof fn law_unreplayable_steps_are_told_so(e: KernelError, what: Seq<char>, id: Seq<char>)
    ensures
        not_recorded(e, what, id) ==> e is NotFound && e.spec_message() == "unknown object: "@ + what
            + " `"@ + id + "`"@,
        unreplayable(e, id) ==> e.spec_message() == "step "@ + id
            + " was recorded at replay class AuditOnly, which does not support sandbox replay"@,
{
}

} // verus!
