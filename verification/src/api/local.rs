//! Steps that a backend runs: what it is asked, where it may run, and what is
//! recorded of what it did.
use vstd::prelude::*;
use crate::action::{Action, ActionKind};
use crate::api::branch::Branch;
use crate::api::kernel::{Kernel, same_but_ledger};
use crate::api::step::{
    NodePlan, StepResult, StepTicket, finish_step, refused, transition_log,
};
use crate::api::workspace::{delta_denial, delta_fault, paths_of, validate_workspace_delta};
use crate::bytes;
use crate::denial::{Denial, DenialCode, DenialView, bare_denial};
use crate::error::{KernelError, KernelResult};
use crate::hash::hash_text;
use crate::ids::StateId;
use crate::json::{Json, Value};
use crate::ledger::event::EventKind;
use crate::ledger::store::{grown, next_seq, room_for};
use crate::lines::{lossy_text, read_lossy};
use crate::observation::{
    Observation, ObservationView, causal_line, distill_output, extract_causal_failure, head_text,
    tail_text,
};
use crate::replay::ReplayClass;
use crate::scheduler::router::{Needs, RiskTier};
use crate::state::{StateDelta, StateNode};
use crate::text;
use crate::time::Timestamp;
use crate::traits::{BackendProfile, ExecutionOutcome, ExecutionRequest};

verus! {

/// The risk tier of a risk weight.
pub open spec fn tier_of(weight: u32) -> RiskTier {
    if weight <= 2 {
        RiskTier::Low
    } else if weight <= 6 {
        RiskTier::Medium
    } else {
        RiskTier::High
    }
}

/// Map a policy rule's risk weight to the scheduler's risk tier (and so an
/// isolation floor): up to 2 low, up to 6 medium, above that high. The tier is
/// decided by policy, never by the agent's own hints.
pub fn risk_tier_of(weight: u32) -> (r: RiskTier)
    ensures
        r == tier_of(weight),
{
    if weight <= 2 {
        RiskTier::Low
    } else if weight <= 6 {
        RiskTier::Medium
    } else {
        RiskTier::High
    }
}

/// The needs of an action: a workspace, unless it is a plain shell command.
pub open spec fn implied_needs(kind: ActionKind) -> Needs {
    Needs {
        full_linux: false,
        gui: false,
        fork: false,
        workspace: !(kind is Shell),
        replay_at_least: None,
    }
}

/// Compatibility needs implied by the action itself. Anything whose effects the
/// state DAG must snapshot (file actions, process sessions) requires a backend
/// that either shares the kernel workspace or syncs state back. A plain shell
/// command may route to any backend satisfying the risk floor; when a backend
/// with neither capability runs it, the step is recorded as an audit-only
/// excursion.
pub fn needs_of(kind: &ActionKind) -> (r: Needs)
    ensures
        r == implied_needs(*kind),
{
    let workspace = match kind {
        ActionKind::Shell { .. } => false,
        _ => true,
    };
    Needs { full_linux: false, gui: false, fork: false, workspace, replay_at_least: None }
}

/// A step that waits for a backend.
#[derive(Debug)]
pub struct LocalRun {
    pub request: ExecutionRequest,
    pub risk: RiskTier,
    pub needs: Needs,
    /// The event that the transition cites.
    pub cause: i64,
}

/// The backend is asked for exactly this: the action at the branch head, under
/// the confinement that was compiled for it.
pub open spec fn asks(q: ExecutionRequest, t: StepTicket, branch: Branch, action: Action) -> bool {
    &&& q.branch == branch.id
    &&& q.base_state == branch.head
    &&& q.actor == t.writer.principal
    &&& q.action.spec_json() == action.kind.spec_json()
    &&& q.budget == action.budget
    &&& q.writable_prefixes.deep_view() == t.confinement@.writable_prefixes
    &&& q.readable_prefixes.deep_view() == t.confinement@.readable_prefixes
    &&& q.egress_domains.deep_view() == t.confinement@.egress_domains
}

/// A backend reports its state plane as it promised: it shares the workspace,
/// or it syncs a delta back, or it does neither.
pub open spec fn plane_kept(shares: bool, syncs: bool, returned: bool) -> bool {
    ||| shares && !syncs && !returned
    ||| !shares && syncs && returned
    ||| !shares && !syncs && !returned
}

/// How a truth value reads.
pub open spec fn bool_text(b: bool) -> Seq<char> {
    if b {
        "true"@
    } else {
        "false"@
    }
}

fn write_bool(b: bool) -> (r: &'static str)
    ensures
        r@ == bool_text(b),
{
    if b {
        "true"
    } else {
        "false"
    }
}

/// The denial for a backend that broke its promise.
pub open spec fn plane_denial(
    operation: Seq<char>,
    backend: Seq<char>,
    shares: bool,
    syncs: bool,
    returned: bool,
) -> DenialView {
    bare_denial(
        DenialCode::BackendUnavailable,
        operation,
        "backend `"@ + backend + "` violated its state-plane contract (shares_workspace="@
            + bool_text(shares) + ", syncs_state="@ + bool_text(syncs) + ", returned_delta="@
            + bool_text(returned)
            + "); its branch resources were discarded and the branch head is unchanged"@,
        false,
    )
}

fn denial_of_plane(operation: &str, backend: &BackendProfile, returned: bool) -> (d: Denial)
    ensures
        d@ == plane_denial(
            operation@,
            backend.name@,
            backend.shares_workspace,
            backend.syncs_state,
            returned,
        ),
{
    let head = text::cat5(
        "backend `",
        backend.name.as_str(),
        "` violated its state-plane contract (shares_workspace=",
        write_bool(backend.shares_workspace),
        ", syncs_state=",
    );
    let reason = text::cat5(
        head.as_str(),
        write_bool(backend.syncs_state),
        ", returned_delta=",
        write_bool(returned),
        "); its branch resources were discarded and the branch head is unchanged",
    );
    Denial::bare(DenialCode::BackendUnavailable, operation, reason, false)
}

/// The denial when no backend satisfies the isolation floor.
pub open spec fn floor_denial(operation: Seq<char>, reason: Seq<char>) -> DenialView {
    bare_denial(
        DenialCode::BackendUnavailable,
        operation,
        reason
            + ". The policy rule's risk_weight demands this isolation floor; register a stronger backend (KernelConfig.backends) or lower the rule's risk_weight"@,
        false,
    )
}

/// How a step goes on after a backend ran it.
#[derive(Debug)]
pub enum Transition {
    /// The outcome is refused and the step denied; the backend's branch
    /// resources are to be discarded.
    Refused(StepResult),
    /// The backend worked on the kernel's own tree: snapshot it.
    Snapshot,
    /// The delta passed: materialize the base state, apply the delta, and
    /// snapshot.
    ApplyAndSnapshot,
    /// The local tree is untouched: append a state that says so.
    AuditOnly(NodePlan),
}

/// Standard output and standard error in one stream.
pub open spec fn combined(stdout: Seq<u8>, stderr: Seq<u8>) -> Seq<u8> {
    if stderr.len() == 0 {
        stdout
    } else {
        stdout + stderr_mark() + stderr
    }
}

/// The line that parts standard output from standard error:
/// `--- stderr ---`, on a line of its own.
pub open spec fn stderr_mark() -> Seq<u8> {
    seq![10u8, 45, 45, 45, 32, 115, 116, 100, 101, 114, 114, 32, 45, 45, 45, 10]
}

fn combine(stdout: &Vec<u8>, stderr: &Vec<u8>) -> (r: Vec<u8>)
    ensures
        r@ == combined(stdout@, stderr@),
{
    let mut raw = bytes::copy(stdout.as_slice());
    if stderr.len() > 0 {
        let mark: [u8; 16] = [
            10,
            45,
            45,
            45,
            32,
            115,
            116,
            100,
            101,
            114,
            114,
            32,
            45,
            45,
            45,
            10,
        ];
        proof {
            assert(mark@ =~= stderr_mark());
        }
        bytes::push_all(&mut raw, mark.as_slice());
        bytes::push_all(&mut raw, stderr.as_slice());
    }
    raw
}

/// Which backend ran a step, when it was not the kernel's own tree.
pub open spec fn via(backend: BackendProfile) -> Seq<char> {
    if backend.shares_workspace {
        ""@
    } else if backend.syncs_state {
        " via `"@ + backend.name@ + "` (state-synced)"@
    } else {
        " via `"@ + backend.name@ + "` (audit-only excursion)"@
    }
}

/// Where the last `limit` bytes start.
pub open spec fn last_bytes(raw: Seq<u8>, limit: int) -> Seq<u8> {
    raw.skip(
        if raw.len() > limit {
            raw.len() - limit
        } else {
            0
        },
    )
}

/// The last kilobyte of an output, as text.
pub open spec fn output_tail(raw: Seq<u8>) -> Option<Seq<char>> {
    if raw.len() == 0 {
        None
    } else {
        Some(lossy_text(last_bytes(raw, 1024)))
    }
}

/// What the agent sees of a step that a backend ran.
pub open spec fn local_view(
    operation: Seq<char>,
    backend: BackendProfile,
    exit_code: i32,
    stdout: Seq<u8>,
    stderr: Seq<u8>,
    files: nat,
) -> ObservationView {
    let raw = combined(stdout, stderr);
    if exit_code == 0 {
        ObservationView::Success {
            summary: operation + " exited 0 ("@ + text::decimal(files) + " file(s) changed)"@ + via(
                backend,
            ),
            data: None,
            stdout_head: head_text(raw, 2048),
            stdout_tail: tail_text(raw, 2048, 1024),
            exit_code: 0,
            full_output: hash_text(raw),
            truncated: raw.len() > 2048,
        }
    } else {
        ObservationView::Failure {
            summary: operation + " exited "@ + text::signed_decimal(exit_code as int),
            exit_code,
            first_causal_failure: match causal_line(lossy_text(stderr)) {
                Some(line) => Some(line),
                None => causal_line(lossy_text(stdout)),
            },
            output_tail: output_tail(raw),
            full_output: hash_text(raw),
        }
    }
}

/// The raw outputs with one more.
pub open spec fn with_raw(raw: Map<Seq<char>, Seq<u8>>, bytes: Seq<u8>) -> Map<Seq<char>, Seq<u8>> {
    if raw.contains_key(hash_text(bytes)) {
        raw
    } else {
        raw.insert(hash_text(bytes), bytes)
    }
}

impl Kernel {
    /// Start a step on a backend: record the invocation, and say what the
    /// backend is asked and where it may run. Policy decides the isolation
    /// floor; the action decides the compatibility needs. Neither is influenced
    /// by agent hints.
    pub fn execute_local(
        &mut self,
        ticket: &StepTicket,
        branch: &Branch,
        action: &Action,
        now: Timestamp,
    ) -> (r: LocalRun)
        requires
            old(self).wf(),
            room_for(old(self).ledger.events(), 1),
        ensures
            final(self).wf(),
            same_but_ledger(*final(self), *old(self)),
            final(self).ledger.events() == grown(
                old(self).ledger.events(),
                ticket.writer@,
                EventKind::ToolInvocation,
                Json::Object(action.spec_invocation()),
                Seq::empty(),
                now,
            ),
            final(self).ledger.raw() == old(self).ledger.raw(),
            final(self).ledger.receipts() == old(self).ledger.receipts(),
            r.cause == next_seq(old(self).ledger.events()),
            r.risk == tier_of(ticket.confinement.risk_weight),
            r.needs == implied_needs(action.kind),
            asks(r.request, *ticket, *branch, *action),
    {
        let tool = ticket.writer.record(
            &mut self.ledger,
            EventKind::ToolInvocation,
            Value::Object(action.invocation()),
            now,
        );
        LocalRun {
            request: ExecutionRequest {
                branch: branch.id.clone(),
                base_state: branch.head.clone(),
                actor: ticket.writer.principal.clone(),
                action: action.kind.clone(),
                budget: action.budget,
                writable_prefixes: text::clone_texts(&ticket.confinement.writable_prefixes),
                readable_prefixes: text::clone_texts(&ticket.confinement.readable_prefixes),
                egress_domains: text::clone_texts(&ticket.confinement.egress_domains),
            },
            risk: risk_tier_of(ticket.confinement.risk_weight),
            needs: needs_of(&action.kind),
            cause: tool.body.seq,
        }
    }

    /// What becomes of a step that no backend ran. A denial by the scheduler is
    /// recorded as the step's. So is a routing failure, with a recovery path:
    /// the agent (or operator) can see exactly which floor was unsatisfiable.
    /// Everything else is an error.
    pub fn local_failed(
        &mut self,
        ticket: &StepTicket,
        action: &Action,
        error: KernelError,
        now: Timestamp,
    ) -> (r: KernelResult<StepResult>)
        requires
            old(self).wf(),
            room_for(old(self).ledger.events(), 2),
        ensures
            final(self).wf(),
            match error {
                KernelError::Denied(d) => refused(*old(self), *final(self), *ticket, d@, now, r),
                KernelError::BackendUnavailable { backend, reason } => if backend@ == "router"@ {
                    refused(
                        *old(self),
                        *final(self),
                        *ticket,
                        floor_denial(action.kind.spec_required_operation(), reason@),
                        now,
                        r,
                    )
                } else {
                    r == Err::<StepResult, _>(error) && *final(self) == *old(self)
                },
                _ => r == Err::<StepResult, _>(error) && *final(self) == *old(self),
            },
    {
        match error {
            KernelError::Denied(d) => self.refuse(ticket, &*d, now),
            KernelError::BackendUnavailable { backend, reason } => {
                if text::str_eq(backend.as_str(), "router") {
                    let operation = action.kind.required_operation();
                    let why = text::cat2(
                        reason.as_str(),
                        ". The policy rule's risk_weight demands this isolation floor; register a stronger backend (KernelConfig.backends) or lower the rule's risk_weight",
                    );
                    let d = Denial::bare(
                        DenialCode::BackendUnavailable,
                        operation.0.as_str(),
                        why,
                        false,
                    );
                    self.refuse(ticket, &d, now)
                } else {
                    Err(KernelError::BackendUnavailable { backend, reason })
                }
            },
            e => Err(e),
        }
    }

    /// Decide how a step goes on after a backend ran it. The profile and the
    /// outcome form a strict state-plane contract: a backend may share the local
    /// tree, sync a remote tree, or do neither, never more than one, and a
    /// syncing backend must return a delta even when it is empty. A returned
    /// delta has to pass [`validate_workspace_delta`].
    pub fn judge_outcome(
        &mut self,
        ticket: &StepTicket,
        action: &Action,
        backend: &BackendProfile,
        outcome: &ExecutionOutcome,
        head: &StateNode,
        cause: i64,
        now: Timestamp,
    ) -> (r: KernelResult<Transition>)
        requires
            old(self).wf(),
            room_for(old(self).ledger.events(), 2),
        ensures
            final(self).wf(),
            if !plane_kept(
                backend.shares_workspace,
                backend.syncs_state,
                outcome.workspace_delta is Some,
            ) {
                outcome_refused(
                    *old(self),
                    *final(self),
                    *ticket,
                    plane_denial(
                        action.kind.spec_required_operation(),
                        backend.name@,
                        backend.shares_workspace,
                        backend.syncs_state,
                        outcome.workspace_delta is Some,
                    ),
                    now,
                    r,
                )
            } else if backend.shares_workspace {
                r == Ok::<_, KernelError>(Transition::Snapshot) && *final(self) == *old(self)
            } else if backend.syncs_state {
                match delta_fault(
                    paths_of(outcome.workspace_delta->0.upserts@),
                    outcome.workspace_delta->0.deletes.deep_view(),
                    ticket.confinement@.writable_prefixes,
                ) {
                    Some(f) => outcome_refused(
                        *old(self),
                        *final(self),
                        *ticket,
                        delta_denial(backend.name@, f),
                        now,
                        r,
                    ),
                    None => r == Ok::<_, KernelError>(Transition::ApplyAndSnapshot) && *final(self)
                        == *old(self),
                }
            } else {
                &&& *final(self) == *old(self)
                &&& r matches Ok(Transition::AuditOnly(p)) && p.delta.spec_is_empty()
                    && p.delta.policy_epoch == head.delta.policy_epoch && p.workspace_root
                    == head.workspace_root && p.replay_class == ReplayClass::AuditOnly && p.cause
                    == cause
            },
    {
        let returned = outcome.workspace_delta.is_some();
        let kept = if backend.shares_workspace {
            !backend.syncs_state && !returned
        } else {
            backend.syncs_state == returned
        };
        if !kept {
            let operation = action.kind.required_operation();
            let d = denial_of_plane(operation.0.as_str(), backend, returned);
            return match self.refuse(ticket, &d, now) {
                Ok(res) => Ok(Transition::Refused(res)),
                Err(e) => Err(e),
            };
        }
        if backend.shares_workspace {
            return Ok(Transition::Snapshot);
        }
        match &outcome.workspace_delta {
            Some(delta) => {
                match validate_workspace_delta(
                    delta,
                    &ticket.confinement.writable_prefixes,
                    backend.name.as_str(),
                ) {
                    Ok(_) => Ok(Transition::ApplyAndSnapshot),
                    Err(d) => match self.refuse(ticket, &d, now) {
                        Ok(res) => Ok(Transition::Refused(res)),
                        Err(e) => Err(e),
                    },
                }
            },
            None => Ok(
                Transition::AuditOnly(
                    NodePlan {
                        delta: StateDelta::unchanged(head.delta.policy_epoch),
                        workspace_root: head.workspace_root.clone(),
                        replay_class: ReplayClass::AuditOnly,
                        cause,
                    },
                ),
            ),
        }
    }

    /// Record what a backend did: the transition, the full output in the raw
    /// store, and the distilled observation.
    pub fn finish_local(
        &mut self,
        ticket: StepTicket,
        action: &Action,
        backend: &BackendProfile,
        outcome: &ExecutionOutcome,
        state: StateId,
        delta: &StateDelta,
        cause: i64,
        now: Timestamp,
    ) -> (r: StepResult)
        requires
            old(self).wf(),
            room_for(old(self).ledger.events(), 2),
        ensures
            final(self).wf(),
            same_but_ledger(*final(self), *old(self)),
            r.step == ticket.step,
            r.state == state,
            r.observation@ == local_view(
                action.kind.spec_required_operation(),
                *backend,
                outcome.exit_code,
                outcome.stdout@,
                outcome.stderr@,
                delta@.files.len(),
            ),
            final(self).ledger.events() == transition_log(
                old(self).ledger.events(),
                ticket.writer@,
                state@,
                delta@,
                cause,
                r.observation@,
                now,
            ),
            final(self).ledger.raw() == with_raw(
                old(self).ledger.raw(),
                combined(outcome.stdout@, outcome.stderr@),
            ),
            final(self).ledger.receipts() == old(self).ledger.receipts(),
    {
        let raw = combine(&outcome.stdout, &outcome.stderr);
        let operation = action.kind.required_operation();
        let full_output = self.ledger.store_raw(raw.as_slice());
        let observation = if outcome.exit_code == 0 {
            let d = distill_output(raw.as_slice(), 2048, 1024);
            let count = text::to_decimal(delta.files.len() as u64);
            let by = if backend.shares_workspace {
                "".to_owned()
            } else if backend.syncs_state {
                text::cat3(" via `", backend.name.as_str(), "` (state-synced)")
            } else {
                text::cat3(" via `", backend.name.as_str(), "` (audit-only excursion)")
            };
            Observation::Success {
                summary: text::cat5(
                    operation.0.as_str(),
                    " exited 0 (",
                    count.as_str(),
                    " file(s) changed)",
                    by.as_str(),
                ),
                data: None,
                stdout_head: d.head,
                stdout_tail: d.tail,
                exit_code: 0,
                full_output,
                truncated: d.truncated,
            }
        } else {
            let code = text::to_signed_decimal(outcome.exit_code as i64);
            let first_causal_failure = match extract_causal_failure(outcome.stderr.as_slice()) {
                Some(line) => Some(line),
                None => extract_causal_failure(outcome.stdout.as_slice()),
            };
            Observation::Failure {
                summary: text::cat3(operation.0.as_str(), " exited ", code.as_str()),
                exit_code: outcome.exit_code,
                first_causal_failure,
                output_tail: write_tail(&raw),
                full_output,
            }
        };
        finish_step(&mut self.ledger, ticket, state, delta, cause, observation, now)
    }
}

/// The step was refused after a backend had run it.
pub open spec fn outcome_refused(
    before: Kernel,
    after: Kernel,
    t: StepTicket,
    denial: DenialView,
    now: Timestamp,
    r: KernelResult<Transition>,
) -> bool {
    match r {
        Ok(Transition::Refused(res)) => refused(before, after, t, denial, now, Ok(res)),
        Ok(_) => false,
        Err(e) => refused(before, after, t, denial, now, Err(e)),
    }
}

fn write_tail(raw: &Vec<u8>) -> (r: Option<String>)
    ensures
        r.deep_view() == output_tail(raw@),
{
    let n = raw.len();
    if n == 0 {
        return None;
    }
    let start: usize = if n > 1024 {
        n - 1024
    } else {
        0
    };
    let t = vstd::slice::slice_subrange(raw.as_slice(), start, n);
    proof {
        assert(t@ =~= last_bytes(raw@, 1024));
    }
    Some(read_lossy(t))
}

/// The error of a step whose delta could not be applied: the failure itself, or
/// both failures when the mirror could not be put back either.
pub fn apply_error(error: KernelError, base_state: &StateId, rollback: Option<KernelError>) -> (e:
    KernelError)
    ensures
        match rollback {
            Some(second) => e matches KernelError::Storage(m) && m@ == "state-sync apply failed ("@
                + error.spec_message() + "); restoring the branch mirror to "@ + base_state@
                + " also failed ("@ + second.spec_message() + ")"@,
            None => e == error,
        },
{
    match rollback {
        Some(second) => {
            let first = error.message();
            let second = second.message();
            KernelError::Storage(
                text::cat7(
                    "state-sync apply failed (",
                    first.as_str(),
                    "); restoring the branch mirror to ",
                    base_state.as_str(),
                    " also failed (",
                    second.as_str(),
                    ")",
                ),
            )
        },
        None => error,
    }
}

/// The heavier the risk, the higher the tier: two is still low, six still medium.
pub proof fn law_tiers_rise_with_the_weight(weight: u32)
    ensures
        tier_of(weight) is Low <==> weight < 3,
        tier_of(weight) is Medium <==> 3 <= weight && weight < 7,
        tier_of(weight) is High <==> weight >= 7,
{
}

/// Every action but a plain shell command needs the workspace; none asks for more.
pub proof fn law_all_but_shell_commands_need_the_workspace(kind: ActionKind)
    ensures
        implied_needs(kind).workspace <==> !(kind is Shell),
        !implied_needs(kind).full_linux,
        !implied_needs(kind).gui,
        !implied_needs(kind).fork,
        implied_needs(kind).replay_at_least is None,
{
}

/// A backend is asked for the action at the branch head, by the actor of the step, in
/// the confinement that was compiled for it and no wider.
pub proof fn law_backends_are_asked_for_the_step(
    q: ExecutionRequest,
    t: StepTicket,
    branch: Branch,
    action: Action,
)
    requires
        asks(q, t, branch, action),
    ensures
        q.branch == branch.id,
        q.base_state == branch.head,
        q.actor == t.writer.principal,
        q.action.spec_json() == action.kind.spec_json(),
        q.budget == action.budget,
        q.writable_prefixes.deep_view() == t.confinement@.writable_prefixes,
        q.readable_prefixes.deep_view() == t.confinement@.readable_prefixes,
        q.egress_domains.deep_view() == t.confinement@.egress_domains,
{
}

/// A delta comes back exactly from a backend that syncs, and none both shares and
/// syncs.
pub proof fn law_deltas_come_back_only_from_syncing_backends(
    shares: bool,
    syncs: bool,
    returned: bool,
)
    ensures
        plane_kept(shares, syncs, returned) <==> !(shares && syncs) && returned == syncs,
{
}

/// A backend that broke its promise, and a floor that none reaches, are denied without
/// appeal, with what went wrong.
pub proof fn law_backend_denials_say_what_went_wrong(
    operation: Seq<char>,
    backend: Seq<char>,
    shares: bool,
    syncs: bool,
    returned: bool,
    reason: Seq<char>,
)
    ensures
        plane_denial(operation, backend, shares, syncs, returned).code is BackendUnavailable,
        plane_denial(operation, backend, shares, syncs, returned).attempted_operation == operation,
        !plane_denial(operation, backend, shares, syncs, returned).escalation_allowed,
        floor_denial(operation, reason).code is BackendUnavailable,
        floor_denial(operation, reason).attempted_operation == operation,
        !floor_denial(operation, reason).escalation_allowed,
        reason.is_prefix_of(floor_denial(operation, reason).reason),
        bool_text(true) == "true"@,
        bool_text(false) == "false"@,
{
    let r = floor_denial(operation, reason).reason;
    assert(r.subrange(0, reason.len() as int) =~= reason);
}

/// Nothing of the output is lost: it is standard output, and where there is any,
/// standard error behind a mark.
pub proof fn law_all_output_is_kept(stdout: Seq<u8>, stderr: Seq<u8>)
    ensures
        stderr.len() == 0 ==> combined(stdout, stderr) == stdout,
        stderr.len() > 0 ==> combined(stdout, stderr) == stdout + vstd::utf8::encode_utf8(
            "\n--- stderr ---\n"@,
        ) + stderr,
        combined(stdout, stderr).len() <= stdout.len() + 16 + stderr.len(),
{
    reveal_strlit("\n--- stderr ---\n");
    let t = "\n--- stderr ---\n"@;
    assert(t.len() == 16);
    let e = vstd::utf8::encode_utf8(t);
    assert(e =~= stderr_mark()) by {
        vstd::utf8::is_ascii_chars_encode_utf8(t);
    }
}

/// The tail of an output is its last kilobyte, all of it where it is shorter, and
/// nothing where there is none.
pub proof fn law_tails_are_the_last_bytes(raw: Seq<u8>)
    ensures
        output_tail(raw) is None <==> raw.len() == 0,
        0 < raw.len() <= 1024 ==> output_tail(raw) == Some(lossy_text(raw)),
        raw.len() > 1024 ==> output_tail(raw) == Some(lossy_text(raw.skip(raw.len() - 1024))),
{
    assert(raw.skip(0) =~= raw);
}

/// A step succeeded exactly if it exited with zero; a failure names the cause found in
/// standard error, and only then in standard output.
pub proof fn law_steps_succeed_iff_they_exit_with_zero(
    operation: Seq<char>,
    backend: BackendProfile,
    exit_code: i32,
    stdout: Seq<u8>,
    stderr: Seq<u8>,
    files: nat,
)
    ensures
        ({
            let v = local_view(operation, backend, exit_code, stdout, stderr, files);
            let raw = combined(stdout, stderr);
            &&& v is Success <==> exit_code == 0
            &&& v is Failure <==> exit_code != 0
            &&& v matches ObservationView::Success {
                exit_code: c,
                full_output,
                truncated,
                stdout_head,
                stdout_tail,
                data,
                ..
            } ==> c == 0 && full_output == hash_text(raw) && truncated == (raw.len() > 2048)
                && stdout_head == head_text(raw, 2048) && stdout_tail == tail_text(raw, 2048, 1024)
                && data is None
            &&& v matches ObservationView::Failure {
                exit_code: c,
                full_output,
                first_causal_failure,
                output_tail: tail,
                ..
            } ==> c == exit_code && full_output == hash_text(raw) && tail == output_tail(raw) && (
            causal_line(lossy_text(stderr)) is Some ==> first_causal_failure == causal_line(
                lossy_text(stderr),
            )) && (causal_line(lossy_text(stderr)) is None ==> first_causal_failure == causal_line(
                lossy_text(stdout),
            ))
        }),
{
}

/// An output is kept under its hash; what is kept already stays.
pub proof fn law_outputs_are_kept_under_their_hash(
    raw: Map<Seq<char>, Seq<u8>>,
    bytes: Seq<u8>,
    key: Seq<char>,
)
    ensures
        with_raw(raw, bytes).contains_key(hash_text(bytes)),
        !raw.contains_key(hash_text(bytes)) ==> with_raw(raw, bytes)[hash_text(bytes)] == bytes,
        raw.contains_key(key) ==> with_raw(raw, bytes).contains_key(key) && with_raw(raw, bytes)[key]
            == raw[key],
        key != hash_text(bytes) ==> (with_raw(raw, bytes).contains_key(key) <==> raw.contains_key(
            key,
        )),
{
}

/// A step says where it ran unless it ran on the kernel's own tree.
pub proof fn law_foreign_backends_are_named(backend: BackendProfile)
    ensures
        backend.shares_workspace ==> via(backend) == ""@,
        !backend.shares_workspace && backend.syncs_state ==> via(backend) == " via `"@
            + backend.name@ + "` (state-synced)"@,
        !backend.shares_workspace && !backend.syncs_state ==> via(backend) == " via `"@
            + backend.name@ + "` (audit-only excursion)"@,
{
}

} // verus!
