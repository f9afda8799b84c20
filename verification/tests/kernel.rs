//! The kernel: steps on every plane, effects, exploration, and what the ledger
//! keeps of them.
use agent_kernel::action::{Action, ActionKind};
use agent_kernel::api::audit::{replay_report, retry_action, step_retry};
use agent_kernel::api::branch::{merge_order, Branch, BranchStatus, DiscardPlan};
use agent_kernel::api::capabilities::EnvelopeRequest;
use agent_kernel::api::connector::{
    arguments_of, connector_contract, connector_plane, denial_of_manifest, fetch_params, host_of,
    judge_http_read, read_contract, shape_read_response, ConnectorPlane,
};
use agent_kernel::api::episodes::{EpisodeHandle, EpisodeInfo, EpisodeRecord, Episodes};
use agent_kernel::api::explore::{
    explore_report, losers, merge_candidate, CandidateRun, ExploreCandidate, ExploreMove,
    ExploreOptions,
};
use agent_kernel::api::http::{raw_grep, raw_page, status_of, step_response};
use agent_kernel::api::kernel::Kernel;
use agent_kernel::api::local::Transition;
use agent_kernel::api::open::Saved;
use agent_kernel::api::step::{finish_step, plane, NodePlan, Plane, StepResult, StepStart, StepTicket};
use agent_kernel::api::workspace::{delete_order, masked_mode};
use agent_kernel::broker::effects::{CommitOutcome, CommitStart, InDoubtResolution};
use agent_kernel::budget::ResourceBudget;
use agent_kernel::capability::Operation;
use agent_kernel::denial::DenialCode;
use agent_kernel::effect::{EffectClass, Receipt};
use agent_kernel::error::{KernelError, KernelResult};
use agent_kernel::hash::{canonical_json, hash_bytes};
use agent_kernel::identity::keys::KernelKeypair;
use agent_kernel::ids::{BranchId, EffectId, EpisodeId, LeaseId, PrincipalId, StateId, StepId};
use agent_kernel::json::{object1, object2, JsonMap, Number, Value};
use agent_kernel::ledger::event::EventKind;
use agent_kernel::ledger::query::TraceQuery;
use agent_kernel::observation::Observation;
use agent_kernel::policy::document::{
    PathPolicy, PolicyDocument, PolicyRule, PrincipalSelector, RuleEffect,
};
use agent_kernel::policy::engine::PolicyEngine;
use agent_kernel::principal::Principal;
use agent_kernel::replay::ReplayClass;
use agent_kernel::scheduler::router::BackendRouter;
use agent_kernel::scheduler::step::{SchedulerConfig, StepRecord, StepScheduler};
use agent_kernel::state::{StateDelta, StateNode};
use agent_kernel::time::Timestamp;
use agent_kernel::traits::{
    BackendProfile, CommitProbe, CommitResult, ExecutionOutcome, PreparedEffect, SyncedFile, WorkspaceDelta,
};
use indexmap::IndexMap;

const NOW: Timestamp = Timestamp { secs: 1_700_000_000, nanos: 0 };

fn empty() -> Value {
    Value::Object(JsonMap::new())
}

fn rule(id: &str, ops: &[&str], risk_weight: u32) -> PolicyRule {
    PolicyRule {
        id: id.to_string(),
        principals: PrincipalSelector::default(),
        operations: ops.iter().map(|s| s.to_string()).collect(),
        effect: RuleEffect::Allow,
        constraints: IndexMap::new(),
        max_uses: 100,
        ttl_seconds: 3600,
        budget: None,
        risk_weight,
        note: None,
    }
}

fn test_policy() -> PolicyDocument {
    PolicyDocument {
        rules: vec![
            rule("shell", &["proc.shell"], 0),
            rule("sessions", &["proc.*"], 0),
            rule("fs", &["fs.*"], 0),
            rule("net", &["net.http_read"], 0),
            rule("mcp", &["mcp.invoke"], 0),
            rule("http-effect", &["http.*"], 0),
            rule("notes-effect", &["notes.*"], 0),
            rule("mock", &["mock.*"], 0),
            rule("meta", &["trace.query", "state.diff"], 0),
        ],
        egress_domains: vec!["127.0.0.1".to_string(), "docs.example".to_string()],
        ..PolicyDocument::default()
    }
}

/// Shell demands High isolation; file ops stay Low.
fn risky_shell_policy() -> PolicyDocument {
    PolicyDocument {
        rules: vec![rule("shell", &["proc.shell"], 8), rule("fs", &["fs.*"], 0)],
        ..PolicyDocument::default()
    }
}

fn profile(name: &str, iso: u8, shares: bool, syncs: bool) -> BackendProfile {
    BackendProfile {
        name: name.to_string(),
        isolation_strength: iso,
        cold_start_ms: 50,
        replay_class: ReplayClass::FilesystemOnly,
        supports_fork: false,
        supports_gui: false,
        full_linux: true,
        shares_workspace: shares,
        syncs_state: syncs,
    }
}

fn local() -> BackendProfile {
    profile("local", 40, true, false)
}

fn outcome(stdout: &str, stderr: &str, exit_code: i32) -> ExecutionOutcome {
    ExecutionOutcome {
        exit_code,
        stdout: stdout.as_bytes().to_vec(),
        stderr: stderr.as_bytes().to_vec(),
        usage: ResourceBudget::zero(),
        paths_written: vec![],
        replay_class: ReplayClass::FilesystemOnly,
        workspace_delta: None,
    }
}

fn file(path: &str) -> SyncedFile {
    SyncedFile { path: path.to_string(), contents: b"evil".to_vec(), mode: 0o644 }
}

fn shell(command: &str) -> ActionKind {
    ActionKind::Shell { command: command.to_string(), cwd: None, env: vec![] }
}

fn action(kind: ActionKind, lease: &LeaseId) -> Action {
    Action {
        kind,
        lease: lease.clone(),
        intent_hint: None,
        budget: ResourceBudget::step_default(),
    }
}

/// A kernel with one episode, and a world around it that does what a test says.
struct Rig {
    kernel: Kernel,
    scheduler: StepScheduler,
    episodes: Episodes,
    who: Principal,
    branch: Branch,
    head: StateNode,
    /// What the next backend run comes to.
    next: ExecutionOutcome,
    /// How often a backend ran.
    runs: usize,
    /// How often the branch's backend resources were discarded.
    discards: usize,
}

struct Auto {
    result: StepResult,
    lease: LeaseId,
    lease_minted: bool,
}

fn rig_with(doc: PolicyDocument, backends: Vec<BackendProfile>) -> Rig {
    let mut kernel = Kernel::new(PolicyEngine::new(doc), KernelKeypair::generate());
    let mut router = BackendRouter::new();
    for b in backends {
        router.register(b);
    }
    let mut scheduler = StepScheduler::new(router, SchedulerConfig::default());
    let mut episodes = Episodes::new();
    let who = Principal::new_agent("test-agent");
    kernel.register_principal(&who).unwrap();
    let handle = EpisodeHandle {
        episode: EpisodeId::generate(),
        branch: BranchId::generate(),
        root: StateId::generate(),
    };
    kernel.create_episode(&mut episodes, &mut scheduler, &who.id, &handle, "a test", NOW);
    let head = StateNode {
        id: handle.root.clone(),
        episode: handle.episode.clone(),
        branch: handle.branch.clone(),
        parent: None,
        produced_by: None,
        merge_parent: None,
        actor: who.id.clone(),
        delta: StateDelta::default(),
        workspace_root: hash_bytes(b"root"),
        replay_class: ReplayClass::FilesystemOnly,
        created_at: NOW,
    };
    let branch = Branch {
        id: handle.branch.clone(),
        episode: handle.episode.clone(),
        base_state: handle.root.clone(),
        head: handle.root.clone(),
        status: BranchStatus::Active,
    };
    Rig {
        kernel,
        scheduler,
        episodes,
        who,
        branch,
        head,
        next: outcome("", "", 0),
        runs: 0,
        discards: 0,
    }
}

fn rig() -> Rig {
    rig_with(test_policy(), vec![local()])
}

impl Rig {
    fn append(&mut self, plan: NodePlan) -> StateId {
        let id = StateId::generate();
        self.head.parent = Some(self.head.id.clone());
        self.head.id = id.clone();
        self.head.delta = plan.delta;
        self.head.workspace_root = plan.workspace_root;
        self.head.replay_class = plan.replay_class;
        self.branch.head = id.clone();
        id
    }

    fn finish(&mut self, ticket: StepTicket, plan: NodePlan, observation: Observation) -> StepResult {
        let cause = plan.cause;
        let delta = StateDelta { policy_epoch: plan.delta.policy_epoch, ..StateDelta::default() };
        let state = self.append(plan);
        finish_step(&mut self.kernel.ledger, ticket, state, &delta, cause, observation, NOW)
    }

    fn run_backend(&mut self, ticket: StepTicket, action: &Action) -> KernelResult<StepResult> {
        let run = self.kernel.execute_local(&ticket, &self.branch, action, NOW);
        let operation = action.kind.required_operation();
        let reserved = self.scheduler.execute_step(
            &self.branch.episode,
            &self.branch.id,
            &operation.0,
            &action.budget,
        );
        let reservation = match reserved {
            Ok(r) => r,
            Err(e) => return self.kernel.local_failed(&ticket, action, e, NOW),
        };
        let i = match self.scheduler.route(&reservation, run.risk, &run.needs) {
            Ok(i) => i,
            Err(e) => return self.kernel.local_failed(&ticket, action, e, NOW),
        };
        let p = &self.scheduler.backend_profiles()[i];
        let backend =
            profile(&p.name, p.isolation_strength, p.shares_workspace, p.syncs_state);
        self.runs += 1;
        let record = StepRecord {
            step: ticket.step.clone(),
            branch: self.branch.id.clone(),
            backend: backend.name.clone(),
            queue_ms: 0,
            exec_ms: 1,
            usage: self.next.usage,
            recorded_at: NOW,
        };
        self.scheduler.complete(&reservation, record);
        let judged = self.kernel.judge_outcome(
            &ticket, action, &backend, &self.next, &self.head, run.cause, NOW,
        )?;
        let plan = match judged {
            Transition::Refused(r) => {
                self.discards += 1;
                return Ok(r);
            }
            Transition::Snapshot | Transition::ApplyAndSnapshot => NodePlan {
                delta: StateDelta::default(),
                workspace_root: hash_bytes(b"after"),
                replay_class: ReplayClass::FilesystemOnly,
                cause: run.cause,
            },
            Transition::AuditOnly(plan) => plan,
        };
        let cause = plan.cause;
        let state = self.append(plan);
        Ok(self.kernel.finish_local(
            ticket,
            action,
            &backend,
            &self.next,
            state,
            &StateDelta::default(),
            cause,
            NOW,
        ))
    }

    /// Carries a step on that may run. `class` and `canon` are what the
    /// connector says of it, `read` what a read through it comes to.
    fn carry_on(
        &mut self,
        ticket: StepTicket,
        action: &Action,
        class: EffectClass,
        canon: KernelResult<Value>,
        read: Value,
    ) -> KernelResult<StepResult> {
        match (plane(&action.kind), &action.kind) {
            (Plane::Backend, _) => self.run_backend(ticket, action),
            (Plane::Trace, ActionKind::TraceQuery { query }) => {
                let (plan, o) =
                    self.kernel.trace_step(&ticket, action, query, &self.head, NOW);
                Ok(self.finish(ticket, plan, o))
            }
            (Plane::Egress, ActionKind::HttpRead { url }) => {
                if let Err(d) = self.kernel.require_http() {
                    return self.kernel.refuse(&ticket, &d, NOW);
                }
                let domains = ticket.confinement.egress_domains.clone();
                let host = match judge_http_read(url, &canon, &domains) {
                    Ok(h) => h,
                    Err(d) => return self.kernel.refuse(&ticket, &d, NOW),
                };
                let params = fetch_params(canon?, &host);
                self.connector_call(ticket, action, "http", "get", params, class, read)
            }
            (Plane::Mcp, ActionKind::McpInvoke { server, tool, .. }) => {
                if let Err(d) = self.kernel.require_server(server) {
                    return self.kernel.refuse(&ticket, &d, NOW);
                }
                match canon {
                    Err(e) => {
                        let d = denial_of_manifest(server, &e);
                        self.kernel.refuse(&ticket, &d, NOW)
                    }
                    Ok(args) => self.connector_call(ticket, action, server, tool, args, class, read),
                }
            }
            (Plane::Broker, ActionKind::ConnectorOp { connector, operation, params }) => {
                let args = arguments_of(params);
                let c = connector_contract(&ticket, connector, operation, params, args, class);
                let (plan, o) = self
                    .kernel
                    .propose_connector_op(&ticket, &self.branch, action, c, &self.head, NOW)?;
                Ok(self.finish(ticket, plan, o))
            }
            other => panic!("not driven here: {other:?}"),
        }
    }

    #[allow(clippy::too_many_arguments)]
    fn connector_call(
        &mut self,
        ticket: StepTicket,
        action: &Action,
        connector: &str,
        op: &str,
        params: Value,
        class: EffectClass,
        read: Value,
    ) -> KernelResult<StepResult> {
        match connector_plane(class) {
            ConnectorPlane::Observation => {
                let cause = self.kernel.begin_read(&ticket, action, NOW);
                let full = format!("{connector}.{op}");
                let _ = read_contract(&ticket, &full, connector, params);
                let (plan, o) = self.kernel.observe_read(&full, Ok(read), 5, &self.head, cause);
                Ok(self.finish(ticket, plan, o))
            }
            ConnectorPlane::Effect => {
                let args = arguments_of(&params);
                let c = connector_contract(&ticket, connector, op, &params, args, class);
                let (plan, o) = self
                    .kernel
                    .propose_connector_op(&ticket, &self.branch, action, c, &self.head, NOW)?;
                Ok(self.finish(ticket, plan, o))
            }
        }
    }

    fn execute(&mut self, action: &Action) -> KernelResult<StepResult> {
        match self.kernel.execute_step(&self.who.id, &self.branch, action, NOW)? {
            StepStart::Denied(r) => Ok(r),
            StepStart::Go(t) => {
                self.carry_on(t, action, EffectClass::OpaqueExternal, Ok(empty()), empty())
            }
        }
    }

    fn auto_via(
        &mut self,
        kind: ActionKind,
        class: EffectClass,
        canon: KernelResult<Value>,
        read: Value,
    ) -> KernelResult<Auto> {
        let a = self.kernel.execute_step_auto(&self.who.id, &self.branch, kind, None, None, NOW)?;
        let result = match a.start {
            StepStart::Denied(r) => r,
            StepStart::Go(t) => self.carry_on(t, &a.action, class, canon, read)?,
        };
        Ok(Auto { result, lease: a.lease, lease_minted: a.lease_minted })
    }

    fn auto(&mut self, kind: ActionKind) -> KernelResult<Auto> {
        self.auto_via(kind, EffectClass::OpaqueExternal, Ok(empty()), empty())
    }

    fn request(&mut self, operation: &str, branch: &Branch) -> LeaseId {
        self.kernel
            .request_capability(&self.who.id, &Operation::new(operation), &empty(), Some(branch), NOW)
            .unwrap()
            .id
    }

    fn fork(&mut self) -> Branch {
        let fork = self.branch.fork().unwrap();
        self.episodes.add_fork(&fork);
        fork
    }

    fn kinds(&self) -> Vec<EventKind> {
        let q = TraceQuery { episode: Some(self.branch.episode.clone()), ..Default::default() };
        self.kernel.trace_query(&q).iter().map(|e| e.body.kind).collect()
    }
}

fn denial_of(o: &Observation) -> (DenialCode, String, Vec<(String, Value)>) {
    match o {
        Observation::Denied { denial } => (
            denial.code,
            denial.reason.clone(),
            denial
                .requestable_scopes
                .iter()
                .map(|s| (s.operation.0.clone(), s.constraints.clone()))
                .collect(),
        ),
        other => panic!("expected a denial, got {other:?}"),
    }
}

// ------------------------------------------------------------------- steps

#[test]
fn denied_step_returns_structured_denial() {
    let mut r = rig();
    // No lease at all → structured denial, not an error.
    let result = r.execute(&action(shell("id"), &LeaseId::generate())).unwrap();
    match &result.observation {
        Observation::Denied { denial } => {
            assert_eq!(denial.code, DenialCode::CapabilityDenied);
            assert_eq!(denial.attempted_operation.0, "proc.shell");
            assert!(!denial.reason.is_empty());
        }
        other => panic!("expected denial, got {other:?}"),
    }
    // A DenialIssued event is in the ledger.
    let events = r.kernel.trace_query(&TraceQuery {
        episode: Some(r.branch.episode.clone()),
        kinds: vec![EventKind::DenialIssued],
        ..Default::default()
    });
    assert_eq!(events.len(), 1);
    // Lease bound to a different branch → BranchMismatch.
    let other = r.fork();
    let lease = r.request("proc.shell", &other);
    let result = r.execute(&action(shell("id"), &lease)).unwrap();
    assert_eq!(denial_of(&result.observation).0, DenialCode::BranchMismatch);
    assert_eq!(r.runs, 0);
    assert_eq!(r.kernel.ledger.verify_chain().unwrap() as usize, r.kinds().len());
}

#[test]
fn denials_carry_concrete_recovery_scopes() {
    let mut r = rig();
    // Unknown lease → scope sketch for exactly this operation and params.
    let result = r.execute(&action(shell("id"), &LeaseId::generate())).unwrap();
    match &result.observation {
        Observation::Denied { denial } => {
            assert_eq!(denial.requestable_scopes.len(), 1);
            assert_eq!(denial.requestable_scopes[0].operation.0, "proc.shell");
            assert!(!denial.requestable_scopes[0].requires_human);
        }
        other => panic!("expected denial, got {other:?}"),
    }
    // Branch-mismatched lease → recovery scope present too.
    let other = r.fork();
    let lease = r.request("proc.shell", &other);
    let result = r.execute(&action(shell("id"), &lease)).unwrap();
    let (code, _, scopes) = denial_of(&result.observation);
    assert_eq!(code, DenialCode::BranchMismatch);
    assert_eq!(scopes.len(), 1);
    // Over-budget action → the scope carries the budget that would fit.
    let branch = r.branch.clone();
    let lease = r.request("proc.shell", &branch);
    let mut huge = action(shell("id"), &lease);
    huge.budget.cpu_ms = u64::MAX;
    let result = r.execute(&huge).unwrap();
    let (code, _, scopes) = denial_of(&result.observation);
    assert_eq!(code, DenialCode::BudgetExhausted);
    assert_eq!(scopes.len(), 1);
    assert!(matches!(
        scopes[0].1.get("budget").and_then(|b| b.get("cpu_ms")),
        Some(Value::Number(_))
    ));
}

#[test]
fn execute_auto_mints_then_reuses_leases_and_propagates_denials() {
    let mut r = rig();
    let first = r.auto(shell("printf a > a.txt")).unwrap();
    assert!(first.lease_minted, "no lease existed; one must be minted");
    let second = r.auto(shell("printf b > b.txt")).unwrap();
    assert!(!second.lease_minted, "the active lease must be reused");
    assert_eq!(first.lease.as_str(), second.lease.as_str());
    assert_eq!(r.kernel.leases.get(&first.lease).unwrap().remaining_uses, 98);
    // Policy-denied operations propagate the structured denial.
    let err = r.auto(ActionKind::ConnectorOp {
        connector: "payments".to_string(),
        operation: "transfer".to_string(),
        params: empty(),
    });
    assert!(matches!(err, Err(KernelError::Denied(_))));
}

#[test]
fn a_revoked_lease_stops_a_retry() {
    let mut r = rig();
    let a = r.auto(shell("true")).unwrap();
    let explained = r.kernel.step_explain(&a.result.step).unwrap();
    let plan = step_retry(&explained).unwrap();
    assert_eq!(plan.branch.as_str(), r.branch.id.as_str());
    assert_eq!(plan.lease.as_str(), Some(a.lease.as_str()));
    let again = retry_action(shell("true"), a.lease.clone(), None, plan.intent_hint);
    let ok = r.execute(&again).unwrap();
    assert!(matches!(ok.observation, Observation::Success { .. }));
    assert_eq!(r.kernel.revoke(&a.lease).unwrap().len(), 1);
    let refused = r.execute(&again).unwrap();
    assert_eq!(denial_of(&refused.observation).0, DenialCode::CapabilityDenied);
}

#[test]
fn failure_observations_extract_the_causal_line_and_keep_the_tail() {
    let mut r = rig();
    r.next = outcome(
        "compiling\n",
        "warning: minor\nerror: the real cause\nsummary at end\n",
        3,
    );
    let a = r.auto(shell("make")).unwrap();
    match &a.result.observation {
        Observation::Failure { exit_code, first_causal_failure, output_tail, .. } => {
            assert_eq!(*exit_code, 3);
            assert_eq!(
                first_causal_failure.as_deref(),
                Some("error: the real cause"),
                "the causal line is mid-stream, not line one"
            );
            assert!(output_tail.as_deref().unwrap().contains("summary at end"));
        }
        other => panic!("expected failure, got {other:?}"),
    }
}

#[test]
fn trace_query_action_applies_its_query_string() {
    let mut r = rig();
    // Produce one denial and a few successes.
    r.execute(&action(shell("id"), &LeaseId::generate())).unwrap();
    r.auto(shell("true")).unwrap();
    let a = r
        .auto(ActionKind::TraceQuery { query: "kind=denial_issued limit=10".to_string() })
        .unwrap();
    match &a.result.observation {
        Observation::Success { data, .. } => assert_eq!(
            canonical_json(data.as_ref().unwrap()),
            "{\"applied\":{\"branch\":null,\"kinds\":[\"denial_issued\"],\"limit\":10,\
             \"principal\":null,\"step\":null},\"count\":1}"
        ),
        other => panic!("expected success, got {other:?}"),
    }
}

// ---------------------------------------------------------------- backends

#[test]
fn high_risk_shell_routes_to_strong_backend_as_audit_only_excursion() {
    let mut r = rig_with(
        risky_shell_policy(),
        vec![local(), profile("strongbox", 90, false, false)],
    );
    r.auto(ActionKind::WriteFile {
        path: "local.txt".to_string(),
        contents_b64: "bG9jYWwtc3RhdGU=".to_string(),
    })
    .unwrap();
    let seeded = r.head.workspace_root.clone();
    r.next = outcome("ran-remotely", "", 0);
    let a = r.auto(shell("hostile-build")).unwrap();
    match &a.result.observation {
        Observation::Success { summary, full_output, .. } => {
            let raw = r.kernel.ledger.fetch_raw(full_output).unwrap();
            assert!(String::from_utf8_lossy(raw).contains("ran-remotely"));
            assert!(
                summary.contains("strongbox") && summary.contains("audit-only"),
                "the observation must name the excursion: {summary}"
            );
        }
        other => panic!("expected success via the strong backend, got {other:?}"),
    }
    // Recorded honestly: the local workspace root is unchanged.
    assert_eq!(r.head.replay_class, ReplayClass::AuditOnly);
    assert!(r.head.delta.files.is_empty());
    assert_eq!(r.head.workspace_root.as_str(), seeded.as_str());
}

#[test]
fn unsatisfiable_isolation_floor_is_a_recorded_denial() {
    // High-risk shell, but no strong backend registered.
    let mut r = rig_with(risky_shell_policy(), vec![local()]);
    let a = r.auto(shell("echo hi")).unwrap();
    let (code, reason, _) = denial_of(&a.result.observation);
    assert_eq!(code, DenialCode::BackendUnavailable);
    assert!(
        reason.contains("isolation") && reason.contains("risk_weight"),
        "the denial must explain the floor and the recovery: {reason}"
    );
}

#[test]
fn file_actions_never_route_off_the_workspace() {
    // Even with a strong backend registered, a high-risk *file* action has no
    // satisfying candidate.
    let doc = PolicyDocument {
        rules: vec![rule("fs", &["fs.*"], 8)],
        ..PolicyDocument::default()
    };
    let mut r = rig_with(doc, vec![local(), profile("strongbox", 90, false, false)]);
    let a = r
        .auto(ActionKind::WriteFile { path: "x.txt".to_string(), contents_b64: "eA==".to_string() })
        .unwrap();
    assert_eq!(denial_of(&a.result.observation).0, DenialCode::BackendUnavailable);
    assert_eq!(r.runs, 0);
}

#[test]
fn high_risk_file_actions_route_to_a_syncing_backend() {
    let doc = PolicyDocument {
        rules: vec![rule("fs", &["fs.*"], 8)],
        ..PolicyDocument::default()
    };
    let mut r = rig_with(doc, vec![local(), profile("syncedbox", 90, false, true)]);
    r.next = outcome("ran-remotely-with-sync", "", 0);
    r.next.workspace_delta =
        Some(WorkspaceDelta { upserts: vec![file("out/result.txt")], deletes: vec![] });
    let a = r
        .auto(ActionKind::WriteFile { path: "x.txt".to_string(), contents_b64: "eA==".to_string() })
        .unwrap();
    assert!(matches!(a.result.observation, Observation::Success { .. }));
    assert_eq!(r.runs, 1);
    assert_eq!(r.discards, 0);
}

#[test]
fn hostile_sync_deltas_are_rejected_and_the_sandbox_discarded() {
    let deltas: Vec<(&str, Vec<&str>, Vec<&str>)> = vec![
        ("path traversal", vec!["../escape.txt"], vec![]),
        ("cache-tier ambush", vec!["node_modules/evil.js"], vec![]),
        ("outside writable prefixes", vec!["forbidden/x.txt"], vec![]),
        ("non-canonical path", vec!["./allowed/x.txt"], vec![]),
        ("duplicate upsert", vec!["allowed/x.txt", "allowed/x.txt"], vec![]),
        ("write-delete conflict", vec!["allowed/x.txt"], vec!["allowed/x.txt"]),
        ("file ancestor conflict", vec!["allowed/a", "allowed/a/b"], vec![]),
    ];
    for (case, upserts, deletes) in deltas {
        let mut doc = risky_shell_policy();
        doc.paths = PathPolicy {
            readable_prefixes: vec![],
            writable_prefixes: vec![
                "allowed/".to_string(),
                "local.txt".to_string(),
                "out/".to_string(),
            ],
        };
        let mut r = rig_with(doc, vec![local(), profile("syncedbox", 90, false, true)]);
        r.next.workspace_delta = Some(WorkspaceDelta {
            upserts: upserts.into_iter().map(file).collect(),
            deletes: deletes.into_iter().map(|s| s.to_string()).collect(),
        });
        let before = r.branch.head.clone();
        let a = r.auto(shell("evil-build")).unwrap();
        let (code, reason, _) = denial_of(&a.result.observation);
        assert_eq!(code, DenialCode::ConstraintViolated, "{case}");
        assert!(reason.contains("workspace delta"), "{case}: {reason}");
        assert_eq!(r.branch.head.as_str(), before.as_str(), "{case}: head unchanged");
        assert_eq!(r.discards, 1, "{case}: the poisoned remote sandbox must be discarded");
    }
}

#[test]
fn profile_outcome_state_contract_is_enforced() {
    for (advertises_sync, returns_delta) in [(true, false), (false, true)] {
        let liar = profile("liar", 90, false, advertises_sync);
        let mut r = rig_with(risky_shell_policy(), vec![local(), liar]);
        r.next.workspace_delta = if returns_delta {
            Some(WorkspaceDelta { upserts: vec![], deletes: vec![] })
        } else {
            None
        };
        let before = r.branch.head.clone();
        let a = r.auto(shell("contract-lie")).unwrap();
        let (code, reason, _) = denial_of(&a.result.observation);
        assert_eq!(code, DenialCode::BackendUnavailable);
        assert!(reason.contains("state-plane contract"), "{reason}");
        assert_eq!(r.branch.head.as_str(), before.as_str());
        assert_eq!(r.discards, 1);
    }
}

#[test]
fn deletes_go_deepest_first_and_modes_are_masked() {
    let deletes = vec!["a".to_string(), "a/b/c".to_string(), "a/b".to_string()];
    assert_eq!(delete_order(&deletes), vec!["a/b/c", "a/b", "a"]);
    assert_eq!(masked_mode(0o4755), 0o755);
    assert_eq!(masked_mode(0o644), 0o644);
}

#[test]
fn terminal_branches_never_reenter_a_backend_or_fork() {
    for status in [BranchStatus::Merged, BranchStatus::Discarded] {
        let mut r = rig_with(risky_shell_policy(), vec![local()]);
        r.branch.status = status;
        assert!(matches!(
            r.auto(shell("must-not-run")),
            Err(KernelError::BranchDiscarded { .. })
        ));
        assert!(matches!(r.branch.active(), Err(KernelError::BranchDiscarded { .. })));
        assert_eq!(r.runs, 0);
    }
}

#[test]
fn merged_branch_cleanup_can_retry_without_changing_lifecycle_state() {
    let mut r = rig();
    assert_eq!(r.branch.discard_plan().unwrap(), DiscardPlan::TearDownAndMark);
    r.branch.status = BranchStatus::Merged;
    assert_eq!(r.branch.discard_plan().unwrap(), DiscardPlan::CleanUpOnly);
    r.branch.status = BranchStatus::Discarded;
    assert!(matches!(r.branch.discard_plan(), Err(KernelError::BranchDiscarded { .. })));
}

#[test]
fn merges_lock_the_lesser_branch_first() {
    let a = BranchId("br-a".to_string());
    let b = BranchId("br-b".to_string());
    for (target, source) in [(&a, &b), (&b, &a)] {
        let (first, second) = merge_order(target, source).unwrap();
        assert_eq!((first.as_str(), second.as_str()), ("br-a", "br-b"));
    }
    assert!(matches!(
        merge_order(&a, &a),
        Err(KernelError::Storage(ref m)) if m == "cannot merge branch `br-a` into itself"
    ));
}

// -------------------------------------------------------------- connectors

#[test]
fn http_read_pure_target_executes_inline_with_head_tail_and_raw() {
    let mut r = rig();
    r.kernel.register_connector(
        "http",
        vec![("http.get".to_string(), EffectClass::OpaqueExternal)],
    );
    let doc = format!("{}MARKER-MIDDLE{}THE-END", "x".repeat(3000), "y".repeat(1500));
    let response =
        object2("status", Value::from_u64(200), "body", Value::text(&doc));
    let url = "http://127.0.0.1:80/doc";
    let a = r
        .auto_via(
            ActionKind::HttpRead { url: url.to_string() },
            EffectClass::Pure,
            Ok(object1("url", Value::text(url))),
            response,
        )
        .unwrap();
    match &a.result.observation {
        Observation::Success { data, stdout_head, stdout_tail, truncated, full_output, .. } => {
            assert!(*truncated);
            assert_eq!(
                canonical_json(data.as_ref().unwrap().get("status").unwrap()),
                "200"
            );
            assert!(stdout_head.as_deref().unwrap().starts_with("xxx"));
            assert!(
                stdout_tail.as_deref().unwrap().ends_with("THE-END"),
                "the tail must carry the end of the document"
            );
            // The FULL body is retrievable from the raw store.
            let raw = r.kernel.ledger.fetch_raw(full_output).unwrap();
            assert_eq!(raw.as_slice(), doc.as_bytes());
        }
        other => panic!("expected inline success, got {other:?}"),
    }
    // No pending effects were created for a pure read.
    assert!(r.kernel.broker.list_effects(Some("proposed")).is_empty());
}

#[test]
fn http_read_non_allowlisted_target_goes_through_effect_plane() {
    let mut r = rig();
    r.kernel.register_connector(
        "http",
        vec![("http.get".to_string(), EffectClass::OpaqueExternal)],
    );
    let url = "http://127.0.0.1/doc";
    let a = r
        .auto_via(
            ActionKind::HttpRead { url: url.to_string() },
            EffectClass::OpaqueExternal,
            Ok(object1("url", Value::text(url))),
            empty(),
        )
        .unwrap();
    match &a.result.observation {
        Observation::EffectPending { effect, class, .. } => {
            assert_eq!(*class, EffectClass::OpaqueExternal);
            assert_eq!(r.kernel.broker.effect(effect).unwrap().contract.operation, "http.get");
        }
        other => panic!("expected pending effect, got {other:?}"),
    }
}

#[test]
fn http_read_boundaries_egress_guard_and_missing_connector() {
    let mut r = rig();
    r.kernel.register_connector(
        "http",
        vec![("http.get".to_string(), EffectClass::OpaqueExternal)],
    );
    // Host outside the compiled egress allowlist → policy denial with a
    // concrete requestable scope.
    let url = "http://not-allowed.test/x";
    let a = r
        .auto_via(
            ActionKind::HttpRead { url: url.to_string() },
            EffectClass::Pure,
            Ok(object1("url", Value::text(url))),
            empty(),
        )
        .unwrap();
    let (code, _, scopes) = denial_of(&a.result.observation);
    assert_eq!(code, DenialCode::PolicyForbidden);
    assert_eq!(scopes.len(), 1);
    assert_eq!(scopes[0].1.get("domain").and_then(|d| d.as_str()), Some("not-allowed.test"));
    // Guard-refused scheme → constraint denial.
    let a = r
        .auto_via(
            ActionKind::HttpRead { url: "ftp://docs.example/x".to_string() },
            EffectClass::Pure,
            Err(KernelError::Connector("scheme `ftp` is refused".to_string())),
            empty(),
        )
        .unwrap();
    assert_eq!(denial_of(&a.result.observation).0, DenialCode::ConstraintViolated);
    // A kernel without an http connector refuses honestly.
    let mut bare = rig();
    let a = bare
        .auto(ActionKind::HttpRead { url: "http://docs.example/x".to_string() })
        .unwrap();
    assert_eq!(denial_of(&a.result.observation).0, DenialCode::BackendUnavailable);
}

#[test]
fn mcp_invoke_pure_tool_runs_inline_and_writes_route_through_effects() {
    let mut r = rig();
    r.kernel.register_connector(
        "notes",
        vec![
            ("notes.read".to_string(), EffectClass::Pure),
            ("notes.append".to_string(), EffectClass::Compensatable),
        ],
    );
    let invoke = |server: &str, tool: &str, args: Value| ActionKind::McpInvoke {
        server: server.to_string(),
        tool: tool.to_string(),
        arguments: args,
    };
    // Pure tool → inline observation, one step, no effect machinery.
    let args = object1("id", Value::text("n1"));
    let class = r.kernel.effect_class_of("notes.read");
    assert_eq!(class, EffectClass::Pure);
    let echo = object2("tool", Value::text("notes.read"), "echo", args.clone());
    let a = r.auto_via(invoke("notes", "read", args.clone()), class, Ok(args), echo).unwrap();
    match &a.result.observation {
        Observation::Success { stdout_head, full_output, .. } => {
            assert!(stdout_head.as_deref().unwrap().contains("notes.read"));
            let raw = r.kernel.ledger.fetch_raw(full_output).unwrap();
            assert!(String::from_utf8_lossy(raw).contains("\"id\": \"n1\""));
        }
        other => panic!("expected inline mcp success, got {other:?}"),
    }
    // Side-effecting tool → pending effect with the declared class.
    let args = object2("id", Value::text("n1"), "text", Value::text("hello"));
    let class = r.kernel.effect_class_of("notes.append");
    let a = r.auto_via(invoke("notes", "append", args.clone()), class, Ok(args), empty()).unwrap();
    assert!(matches!(
        a.result.observation,
        Observation::EffectPending { class: EffectClass::Compensatable, .. }
    ));
    // Unknown server → honest denial naming the registered connectors.
    let a = r.auto(invoke("ghost", "read", empty())).unwrap();
    let (code, reason, _) = denial_of(&a.result.observation);
    assert_eq!(code, DenialCode::BackendUnavailable);
    assert!(reason.contains("notes"));
    // Manifest-refused arguments → constraint denial before the server.
    let refused = KernelError::Connector(
        "parameter `forbidden` is not declared in the manifest".to_string(),
    );
    let a = r
        .auto_via(
            invoke("notes", "read", object1("forbidden", Value::Bool(true))),
            EffectClass::Pure,
            Err(refused),
            empty(),
        )
        .unwrap();
    assert_eq!(denial_of(&a.result.observation).0, DenialCode::ConstraintViolated);
    assert_eq!(r.kernel.effect_class_of("notes.unknown"), EffectClass::OpaqueExternal);
}

#[test]
fn hosts_and_response_bodies_are_taken_apart() {
    assert_eq!(host_of("http://user@docs.rs:443/x").as_deref(), Some("docs.rs"));
    assert_eq!(host_of("http://[::1]:80/x").as_deref(), Some("[::1]"));
    assert_eq!(host_of("nonsense"), None);
    let (bytes, data) = shape_read_response(&object2(
        "status",
        Value::from_u64(200),
        "body",
        Value::text("hello"),
    ));
    assert_eq!(bytes, b"hello");
    assert_eq!(canonical_json(&data.unwrap()), "{\"status\":200}");
    let (bytes, _) = shape_read_response(&object1("a", Value::from_u64(1)));
    assert_eq!(bytes, b"{\n  \"a\": 1\n}");
}

#[test]
fn json_is_laid_out_over_lines() {
    for text in [
        "null",
        "[]",
        "{}",
        "-7",
        "1.5",
        "[1,[],{},[[2]],{\"b\":[true,null],\"a\":\"x\\n\\\"\"}]",
        "{\"k\":{\"l\":{\"m\":[{\"n\":0.1}]}},\"j\":[\"\",\"\u{e9}\"],\"\\u0001\":{}}",
    ] {
        let parsed: serde_json::Value = serde_json::from_str(text).unwrap();
        let expected = serde_json::to_string_pretty(&parsed).unwrap();
        let (bytes, data) = shape_read_response(&from_serde(&parsed));
        assert_eq!(String::from_utf8(bytes).unwrap(), expected);
        assert!(data.is_none());
    }
    // A number is written as it is held, and nesting has no bound of its own.
    let (bytes, _) =
        shape_read_response(&Value::Number(Number::Float("0.40284083203217996".to_string())));
    assert_eq!(bytes, b"0.40284083203217996");
    let mut deep = Value::Null;
    for _ in 0..300 {
        deep = Value::Array(vec![deep]);
    }
    let (bytes, _) = shape_read_response(&deep);
    let lines: Vec<&[u8]> = bytes.split(|b| *b == b'\n').collect();
    assert_eq!(lines.len(), 601);
    assert_eq!(lines[300].len(), 604);
    assert!(lines[300].ends_with(b"null"));
}

fn from_serde(v: &serde_json::Value) -> Value {
    match v {
        serde_json::Value::Null => Value::Null,
        serde_json::Value::Bool(b) => Value::Bool(*b),
        serde_json::Value::Number(n) => Value::Number(match (n.as_u64(), n.as_i64()) {
            (Some(u), _) => Number::PosInt(u),
            (None, Some(i)) => Number::NegInt(i),
            _ => Number::Float(n.to_string()),
        }),
        serde_json::Value::String(s) => Value::text(s),
        serde_json::Value::Array(items) => Value::Array(items.iter().map(from_serde).collect()),
        serde_json::Value::Object(m) => {
            let mut out = JsonMap::new();
            for (k, x) in m {
                out.insert(k.clone(), from_serde(x));
            }
            Value::Object(out)
        }
    }
}

// ----------------------------------------------------------------- effects

fn prepared() -> PreparedEffect {
    PreparedEffect {
        preview: object1("action", Value::text("create a widget")),
        observed_preconditions: object1("widget_slot", Value::text("empty")),
    }
}

fn commit(r: &mut Rig, id: &EffectId) -> KernelResult<Receipt> {
    let episode = r.branch.episode.clone();
    let effect = r.kernel.broker.effect(id).unwrap();
    let result = match r.kernel.commit_effect(id, NOW)? {
        CommitStart::Done(receipt) => return Ok(receipt),
        CommitStart::Observe(ticket) => {
            r.kernel.broker.claim_commit(&ticket, &prepared(), NOW)?;
            let done = CommitResult { response: object1("created", Value::text("w1")) };
            r.kernel.broker.finish_commit(ticket, CommitOutcome::Executed(done), NOW)
        }
    };
    let plan = r.kernel.record_commit(&effect, &result, &episode, &r.head, NOW);
    assert!(plan.is_some());
    result
}

#[test]
fn effect_lifecycle_with_signed_receipt() {
    let mut r = rig();
    r.kernel.register_connector(
        "mock",
        vec![("mock.create_widget".to_string(), EffectClass::Compensatable)],
    );
    let a = r
        .auto_via(
            ActionKind::ConnectorOp {
                connector: "mock".to_string(),
                operation: "create_widget".to_string(),
                params: object1("name", Value::text("w1")),
            },
            EffectClass::Compensatable,
            Ok(empty()),
            empty(),
        )
        .unwrap();
    let id = match &a.result.observation {
        Observation::EffectPending { effect, class, .. } => {
            assert_eq!(*class, EffectClass::Compensatable);
            effect.clone()
        }
        other => panic!("expected pending effect, got {other:?}"),
    };
    let episode = r.branch.episode.clone();
    r.kernel.prepare_effect(&id, &prepared(), &episode, NOW).unwrap();
    let who = r.who.id.clone();
    r.kernel.approve_effect(&id, &who, &episode, NOW).unwrap();
    let receipt = commit(&mut r, &id).unwrap();
    assert_eq!(receipt.body.operation, "mock.create_widget");
    // Verify the signature against the kernel public key.
    assert!(r.kernel.verify_receipt(&receipt).unwrap());
    let mut tampered = receipt.clone();
    tampered.body.resource = "someone/else".to_string();
    assert!(!r.kernel.verify_receipt(&tampered).unwrap());
    // Full effect chain is in the ledger.
    let kinds = r.kinds();
    for k in [
        EventKind::EffectProposed,
        EventKind::EffectPrepared,
        EventKind::EffectApproved,
        EventKind::EffectCommitted,
    ] {
        assert!(kinds.contains(&k), "missing {k:?} in {kinds:?}");
    }
    // A second commit returns the original receipt.
    assert_eq!(commit(&mut r, &id).unwrap().id.as_str(), receipt.id.as_str());
    // Compensation produces a second signed receipt.
    let undone = CommitResult { response: object1("deleted", Value::Bool(true)) };
    let comp = r.kernel.compensate_effect(&id, &undone, &episode, NOW).unwrap();
    assert!(comp.body.operation.ends_with(".compensate"));
    assert!(r.kernel.verify_receipt(&comp).unwrap());
    assert!(r.kernel.ledger.verify_chain().is_ok());
}

#[test]
fn revoked_leases_stop_a_commit() {
    let mut r = rig();
    r.kernel.register_connector(
        "mock",
        vec![("mock.create_widget".to_string(), EffectClass::Compensatable)],
    );
    let a = r
        .auto_via(
            ActionKind::ConnectorOp {
                connector: "mock".to_string(),
                operation: "create_widget".to_string(),
                params: object1("name", Value::text("w1")),
            },
            EffectClass::Compensatable,
            Ok(empty()),
            empty(),
        )
        .unwrap();
    let id = match &a.result.observation {
        Observation::EffectPending { effect, .. } => effect.clone(),
        other => panic!("expected pending effect, got {other:?}"),
    };
    let episode = r.branch.episode.clone();
    r.kernel.prepare_effect(&id, &prepared(), &episode, NOW).unwrap();
    assert!(r.kernel.lease_is_live(&a.lease, NOW));
    r.kernel.revoke(&a.lease).unwrap();
    assert!(!r.kernel.lease_is_live(&a.lease, NOW));
    assert!(matches!(
        r.kernel.commit_effect(&id, NOW),
        Err(KernelError::StaleAuthorization { .. })
    ));
}

/// A widget proposed through the `mock` connector.
fn propose_widget(r: &mut Rig) -> EffectId {
    r.kernel.register_connector(
        "mock",
        vec![("mock.create_widget".to_string(), EffectClass::Compensatable)],
    );
    let a = r
        .auto_via(
            ActionKind::ConnectorOp {
                connector: "mock".to_string(),
                operation: "create_widget".to_string(),
                params: object1("name", Value::text("w1")),
            },
            EffectClass::Compensatable,
            Ok(empty()),
            empty(),
        )
        .unwrap();
    match &a.result.observation {
        Observation::EffectPending { effect, .. } => effect.clone(),
        other => panic!("expected pending effect, got {other:?}"),
    }
}

#[test]
fn a_live_replay_is_a_proposal_under_its_own_key() {
    let mut r = rig();
    let id = propose_widget(&mut r);
    let episode = r.branch.episode.clone();
    let who = r.who.id.clone();
    r.kernel.prepare_effect(&id, &prepared(), &episode, NOW).unwrap();
    r.kernel.approve_effect(&id, &who, &episode, NOW).unwrap();
    let receipt = commit(&mut r, &id).unwrap();
    let original = r.kernel.broker.effect(&id).unwrap();
    let arguments = object1("name", Value::text("W1"));
    let again = r.kernel.replay_live(&id, arguments.clone(), 1_700_000_000_123, NOW).unwrap();
    assert_eq!(canonical_json(&again.contract.arguments), "{\"name\":\"W1\"}");
    assert_eq!(
        again.contract.idempotency_key,
        format!("{}-replay-1700000000123", original.contract.idempotency_key)
    );
    assert_eq!(again.contract.operation, original.contract.operation);
    assert_eq!(again.phase.name(), "proposed");
    assert_eq!(again.step.as_str(), original.step.as_str());
    // It runs the whole lifecycle again and gets a receipt of its own.
    assert!(commit(&mut r, &again.id).is_err());
    r.kernel.prepare_effect(&again.id, &prepared(), &episode, NOW).unwrap();
    r.kernel.approve_effect(&again.id, &who, &episode, NOW).unwrap();
    let second = commit(&mut r, &again.id).unwrap();
    assert_ne!(second.id.as_str(), receipt.id.as_str());
    // Under the same instant the key is taken by then.
    assert!(matches!(
        r.kernel.replay_live(&id, arguments.clone(), 1_700_000_000_123, NOW),
        Err(KernelError::DuplicateCommit { .. })
    ));
    assert!(matches!(
        r.kernel.replay_live(&EffectId::generate(), arguments, 0, NOW),
        Err(KernelError::NotFound { .. })
    ));
}

#[test]
fn recovery_follows_the_connector_and_leaves_an_event() {
    for (probe, phase, kind) in [
        (
            Some(CommitProbe::Committed(CommitResult { response: empty() })),
            "committed",
            Some(EventKind::EffectCommitted),
        ),
        (Some(CommitProbe::NotCommitted), "aborted", Some(EventKind::EffectAborted)),
        (Some(CommitProbe::Unknown), "committing", None),
        (None, "committing", None),
    ] {
        let mut r = rig();
        let id = propose_widget(&mut r);
        let episode = r.branch.episode.clone();
        let who = r.who.id.clone();
        r.kernel.prepare_effect(&id, &prepared(), &episode, NOW).unwrap();
        r.kernel.approve_effect(&id, &who, &episode, NOW).unwrap();
        match r.kernel.commit_effect(&id, NOW).unwrap() {
            CommitStart::Observe(t) => {
                r.kernel.broker.claim_commit(&t, &prepared(), NOW).unwrap()
            }
            CommitStart::Done(_) => panic!("nothing was committed yet"),
        }
        assert_eq!(r.kernel.broker.in_doubt_effects().len(), 1);
        let before = r.kinds().len();
        let resolution = r.kernel.recover_in_doubt_effect(&id, probe, &episode, NOW);
        assert_eq!(r.kernel.broker.effect(&id).unwrap().phase.name(), phase);
        let events = r.kernel.replay_audit(before as i64 + 1, i64::MAX);
        assert_eq!(events.iter().map(|e| e.body.kind).next(), kind);
        let Some(event) = events.first() else { continue };
        assert_eq!(events.len(), 1);
        let text = |key: &str| event.body.payload.get(key).and_then(|v| v.as_str());
        assert_eq!(text("effect_id"), Some(id.as_str()));
        assert!(matches!(event.body.payload.get("recovery"), Some(Value::Bool(true))));
        match &resolution {
            InDoubtResolution::Committed { receipt } => {
                assert_eq!(text("receipt_id"), Some(receipt.as_str()));
                assert_eq!(text("class"), Some("compensatable"));
                assert_eq!(
                    canonical_json(event.body.payload.get("resolution").unwrap()),
                    format!(
                        "{{\"receipt\":\"{}\",\"resolution\":\"committed\"}}",
                        receipt.as_str()
                    )
                );
            }
            InDoubtResolution::Aborted => {
                assert_eq!(
                    text("reason"),
                    Some("crash recovery: connector confirmed the external effect never executed")
                );
                assert_eq!(
                    canonical_json(event.body.payload.get("resolution").unwrap()),
                    "{\"resolution\":\"aborted\"}"
                );
            }
            InDoubtResolution::StillInDoubt => panic!("nothing is recorded of it"),
        }
    }
    // An effect that is not being committed is left alone.
    let mut r = rig();
    let id = propose_widget(&mut r);
    let episode = r.branch.episode.clone();
    let before = r.kinds().len();
    let probe = Some(CommitProbe::Committed(CommitResult { response: empty() }));
    let resolution = r.kernel.recover_in_doubt_effect(&id, probe, &episode, NOW);
    assert!(matches!(resolution, InDoubtResolution::StillInDoubt));
    assert_eq!(r.kernel.broker.effect(&id).unwrap().phase.name(), "proposed");
    assert_eq!(r.kinds().len(), before);
    // An unknown effect leaves no event.
    let mut r = rig();
    let before = r.kinds().len();
    let episode = r.branch.episode.clone();
    r.kernel.recover_in_doubt_effect(&EffectId::generate(), None, &episode, NOW);
    assert_eq!(r.kinds().len(), before);
}

#[test]
fn forks_start_at_the_head_of_an_active_branch() {
    let mut r = rig();
    let fork = r.fork();
    assert_eq!(fork.base_state.as_str(), r.branch.head.as_str());
    assert_eq!(fork.head.as_str(), r.branch.head.as_str());
    assert_ne!(fork.id.as_str(), r.branch.id.as_str());
    r.branch.status = BranchStatus::Merged;
    assert!(matches!(r.branch.fork(), Err(KernelError::BranchDiscarded { .. })));
}

// ------------------------------------------------------------ capabilities

#[test]
fn an_envelope_grants_what_policy_allows() {
    let mut r = rig();
    let requests = vec![
        EnvelopeRequest { operation: "proc.shell".to_string(), params: empty() },
        EnvelopeRequest { operation: "payments.transfer".to_string(), params: empty() },
    ];
    let branch = r.branch.clone();
    let who = r.who.id.clone();
    let report = r.kernel.compile_envelope(&who, Some(&branch), &requests, NOW).unwrap();
    assert_eq!((report.granted, report.needs_human, report.refused), (1, 0, 1));
    assert!(report.items[0].lease.is_some() && report.items[0].denial.is_none());
    assert!(report.items[1].lease.is_none() && report.items[1].denial.is_some());
    assert!(r.kernel.compile_envelope(&who, Some(&branch), &vec![], NOW).is_err());
    assert!(matches!(
        r.kernel.compile_envelope(&PrincipalId::generate(), Some(&branch), &requests, NOW),
        Err(KernelError::NotFound { kind: "principal", .. })
    ));
}

// ------------------------------------------------------------- exploration

fn options(n: usize) -> ExploreOptions {
    ExploreOptions {
        candidates: (0..n)
            .map(|i| ExploreCandidate { name: None, actions: vec![shell(&format!("echo {i}"))] })
            .collect(),
        evaluator: None,
        max_parallel: None,
        early_stop: true,
        merge_winner: false,
        discard_losers: true,
        step_budget: None,
    }
}

#[test]
fn explore_rejects_empty_and_oversized_candidate_sets() {
    assert!(options(0).parallel(8).is_err());
    assert!(options(17).parallel(8).is_err());
    assert_eq!(options(16).parallel(8).unwrap(), 4);
    assert_eq!(options(1).parallel(0).unwrap(), 1);
}

fn stepped(exit_code: i32) -> StepResult {
    let observation = if exit_code == 0 {
        Observation::Success {
            summary: "ok".to_string(),
            data: None,
            stdout_head: None,
            stdout_tail: None,
            exit_code,
            full_output: hash_bytes(b""),
            truncated: false,
        }
    } else {
        Observation::Failure {
            summary: "failed".to_string(),
            exit_code,
            first_causal_failure: None,
            output_tail: None,
            full_output: hash_bytes(b""),
        }
    };
    StepResult { step: StepId::generate(), state: StateId::generate(), observation }
}

#[test]
fn explore_runs_candidates_in_parallel_merges_winner_discards_losers() {
    let source = BranchId::generate();
    let mut reports = Vec::new();
    let mut branches = Vec::new();
    // Only the second of three candidates passes the evaluator.
    for (index, code) in [(0usize, 1), (1, 0), (2, 1)] {
        let mut run = CandidateRun::new(index, Some(format!("c{index}")), 1, true, false);
        assert!(matches!(run.begin(false), ExploreMove::Fork));
        let branch = BranchId::generate();
        branches.push(branch.clone());
        assert!(matches!(run.forked(Ok(branch), false), ExploreMove::Step(0)));
        assert!(matches!(run.stepped(Ok(stepped(0)), false), ExploreMove::Evaluate));
        assert!(matches!(run.judged(Ok(stepped(code))), ExploreMove::Done));
        reports.push(run.report);
    }
    let lost = losers(&reports, Some(1), true);
    assert!(losers(&reports, Some(1), false).is_empty());
    assert_eq!(lost.len(), 2, "losers are torn down");
    let winning = merge_candidate(&reports, Some(1), true).unwrap();
    assert_eq!(winning.as_str(), branches[1].as_str());
    assert!(merge_candidate(&reports, Some(1), false).is_none());
    // The reports may come in any order; each finds its place.
    reports.rotate_left(1);
    let merged = Some(Ok(StateId::generate()));
    let report = explore_report(&source, &exploring(3, true, true), reports, merged, &lost).unwrap();
    assert_eq!(report.winner, Some(1), "only the second passes the evaluator");
    assert!(report.merged_state.is_some());
    assert!(report.merge_error.is_none());
    assert_eq!(report.candidates.len(), 3);
    assert!(report.candidates[1].passed);
    assert!(!report.candidates[0].passed);
    assert!(!report.candidates[2].passed);
    assert_eq!(report.discarded.len(), 2);
    let places: Vec<usize> = report.candidates.iter().map(|c| c.index).collect();
    assert_eq!(places, vec![0, 1, 2]);
}

/// Options for `n` candidates of one action each.
fn exploring(n: usize, merge_winner: bool, discard_losers: bool) -> ExploreOptions {
    ExploreOptions {
        candidates: (0..n)
            .map(|_| ExploreCandidate { name: None, actions: vec![shell("true")] })
            .collect(),
        evaluator: None,
        max_parallel: None,
        early_stop: false,
        merge_winner,
        discard_losers,
        step_budget: None,
    }
}

/// The report of a candidate whose one action ended with `code`.
fn candidate(index: usize, code: i32) -> CandidateRun {
    let mut run = CandidateRun::new(index, None, 1, true, false);
    run.begin(false);
    run.forked(Ok(BranchId::generate()), false);
    run.stepped(Ok(stepped(0)), false);
    run.judged(Ok(stepped(code)));
    run
}

#[test]
fn an_exploration_report_keeps_to_its_options() {
    let source = BranchId::generate();
    let state = || Some(Ok(StateId::generate()));
    // Nobody won: nothing is merged, whatever is said of a merge.
    let reports = vec![candidate(0, 1).report, candidate(1, 1).report];
    let gone: Vec<BranchId> = reports.iter().filter_map(|r| r.branch.clone()).collect();
    let r = explore_report(&source, &exploring(2, true, false), reports, state(), &gone).unwrap();
    assert_eq!(r.winner, None);
    assert!(r.merged_state.is_none());
    assert!(r.discarded.is_empty(), "discarding was not asked for");
    // Merging was not asked for; of the branches torn down only the loser's counts.
    let reports = vec![candidate(0, 1).report, candidate(1, 0).report];
    let gone: Vec<BranchId> = reports.iter().filter_map(|r| r.branch.clone()).collect();
    let r = explore_report(&source, &exploring(2, false, true), reports, state(), &gone).unwrap();
    assert_eq!(r.winner, Some(1));
    assert!(r.merged_state.is_none());
    assert_eq!(r.discarded.len(), 1);
    assert_eq!(r.discarded[0].as_str(), gone[0].as_str());
    // A failed merge is told.
    let failed = Some(Err(KernelError::Other("conflict".to_string())));
    let reports = vec![candidate(0, 0).report];
    let r = explore_report(&source, &exploring(1, true, true), reports, failed, &vec![]).unwrap();
    assert_eq!(r.merge_error.as_deref(), Some("conflict"));
    // Every candidate has to report once, and their number has to be accepted.
    for (n, reports) in [
        (2, vec![candidate(0, 0).report]),
        (2, vec![candidate(0, 0).report, candidate(0, 1).report]),
        (0, vec![]),
        (17, vec![]),
    ] {
        let options = exploring(n, true, true);
        assert!(explore_report(&source, &options, reports, None, &vec![]).is_err());
    }
}

#[test]
fn a_won_exploration_skips_what_is_left() {
    let mut run = CandidateRun::new(0, None, 2, false, true);
    assert!(matches!(run.begin(true), ExploreMove::Done));
    assert!(run.report.skipped && !run.report.passed);
    let mut run = CandidateRun::new(0, None, 1, false, true);
    assert!(matches!(run.begin(false), ExploreMove::Fork));
    assert!(matches!(
        run.forked(Err(KernelError::Other("no space".to_string())), false),
        ExploreMove::Done
    ));
    assert_eq!(run.report.error.as_deref(), Some("fork failed: no space"));
}

// ----------------------------------------------------------- audit, replay

#[test]
fn sandbox_replay_reproduces_a_recorded_step() {
    let mut r = rig();
    let a = r.auto(shell("printf deterministic > out.txt")).unwrap();
    let subject = r.kernel.replay_subject(&a.result.step).unwrap();
    assert_eq!(subject.original_exit_code, Some(0));
    assert_eq!(subject.state.as_str(), Some(a.result.state.as_str()));
    let request = r
        .kernel
        .replay_sandbox(&a.result.step, &r.head, &shell("printf deterministic > out.txt"), NOW)
        .unwrap();
    assert_eq!(request.actor.as_str(), r.who.id.as_str());
    let same = replay_report(&a.result.step, Some(0), 0, &r.head.workspace_root, &r.head);
    assert!(same.workspace_match, "deterministic step must replay byte-identically");
    assert_eq!(same.rerun_exit_code, 0);
    let other = replay_report(&a.result.step, Some(0), 0, &hash_bytes(b"other"), &r.head);
    assert!(!other.workspace_match);
    assert_eq!(r.kernel.replay_audit(1, 2).len(), 2);
}

// ---------------------------------------------------------------- episodes

#[test]
fn episodes_are_described_owned_and_restored() {
    let mut r = rig();
    let ep = r.branch.episode.clone();
    assert_eq!(r.kinds(), vec![EventKind::Objective]);
    let fork = r.fork();
    assert_eq!(r.episodes.branches_of(&ep).unwrap().len(), 2);
    assert_eq!(r.episodes.branch_owner(&fork).unwrap().as_str(), r.who.id.as_str());
    let d = r.episodes.describe_episode(&ep, vec![], &r.scheduler).unwrap();
    assert_eq!(d.root_branch.as_str(), r.branch.id.as_str());
    assert_eq!(d.remaining_budget, r.scheduler.default_episode_budget());
    let stranger = EpisodeId::generate();
    assert!(matches!(
        r.episodes.episode_owner(&stranger),
        Err(KernelError::NotFound { kind: "episode", .. })
    ));
    assert!(r.episodes.describe_episode(&stranger, vec![], &r.scheduler).is_err());
    // After a restart, records without an owner stay unlisted.
    let record = |id: &EpisodeId, owner: &str| EpisodeRecord {
        id: id.clone(),
        info: EpisodeInfo {
            root_branch: fork.id.clone(),
            root_state: fork.head.clone(),
            branches: vec![fork.id.clone()],
            created_by: PrincipalId(owner.to_string()),
        },
        remaining: ResourceBudget { cpu_ms: 70, ..ResourceBudget::zero() },
        spent: ResourceBudget { cpu_ms: 30, ..ResourceBudget::zero() },
    };
    let mut scheduler = StepScheduler::new(BackendRouter::new(), SchedulerConfig::default());
    let restored =
        Episodes::restore(vec![record(&ep, "pr-x"), record(&stranger, "")], &mut scheduler);
    assert_eq!(restored.episode_owner(&ep).unwrap().as_str(), "pr-x");
    assert!(restored.episode_owner(&stranger).is_err());
    // The account stands at the persisted totals: a restart refills nothing.
    let account = scheduler.budget_account(&ep).unwrap();
    assert_eq!(account.remaining, ResourceBudget { cpu_ms: 70, ..ResourceBudget::zero() });
    assert_eq!(account.spent, ResourceBudget { cpu_ms: 30, ..ResourceBudget::zero() });
    assert!(scheduler.remaining_budget(&stranger).is_none());
}

#[test]
fn a_restart_keeps_budgets_effects_and_claims() {
    let mut r = rig();
    let ep = r.branch.episode.clone();
    let id = propose_widget(&mut r);
    let who = r.who.id.clone();
    r.kernel.prepare_effect(&id, &prepared(), &ep, NOW).unwrap();
    r.kernel.approve_effect(&id, &who, &ep, NOW).unwrap();
    match r.kernel.commit_effect(&id, NOW).unwrap() {
        CommitStart::Observe(t) => r.kernel.broker.claim_commit(&t, &prepared(), NOW).unwrap(),
        CommitStart::Done(_) => panic!("nothing was committed yet"),
    }
    // Some of the budget is spent, and some reserved and settled.
    let before = r.scheduler.budget_account(&ep).unwrap();
    let amount = ResourceBudget { cpu_ms: 5, ..ResourceBudget::zero() };
    let reservation = r.scheduler.execute_step(&ep, &r.branch.id, "proc.shell", &amount).unwrap();
    let record = StepRecord {
        step: StepId::generate(),
        branch: r.branch.id.clone(),
        backend: "local".to_string(),
        queue_ms: 0,
        exec_ms: 1,
        usage: ResourceBudget { cpu_ms: 3, ..ResourceBudget::zero() },
        recorded_at: NOW,
    };
    r.scheduler.complete(&reservation, record);
    let account = r.scheduler.budget_account(&ep).unwrap();
    assert_eq!(account.remaining.cpu_ms + 3, before.remaining.cpu_ms);

    let saved = |r: &Rig| Saved {
        events: r.kernel.replay_audit(1, i64::MAX),
        receipts: vec![],
        effects: vec![r.kernel.broker.row(&id).unwrap()],
        claims: r.kernel.broker.claims(),
        episodes: r.episodes.records(&r.scheduler),
    };
    let (signer, _) = KernelKeypair::load_or_generate(None).unwrap();
    let mut o = Kernel::open(saved(&r), test_policy(), signer, SchedulerConfig::default()).unwrap();
    let again = o.scheduler.budget_account(&ep).unwrap();
    assert_eq!(again.remaining, account.remaining);
    assert_eq!(again.spent, account.spent);
    assert_eq!(o.episodes.episode_owner(&ep).unwrap().as_str(), who.as_str());
    assert_eq!(
        o.episodes.branches_of(&ep).unwrap().len(),
        r.episodes.branches_of(&ep).unwrap().len()
    );
    assert_eq!(
        o.kernel.ledger.verify_chain().unwrap(),
        r.kernel.ledger.verify_chain().unwrap()
    );
    assert!(matches!(
        o.kernel.commit_effect(&id, NOW),
        Err(KernelError::CommitInDoubt { .. })
    ));
    assert_eq!(o.kernel.broker.claims()[0].1.as_str(), id.as_str());

    // Rows that contradict each other, and events out of sequence, are refused.
    let (signer, _) = KernelKeypair::load_or_generate(None).unwrap();
    let mut twice = saved(&r);
    twice.effects.push(r.kernel.broker.row(&id).unwrap());
    assert!(matches!(
        Kernel::open(twice, test_policy(), signer, SchedulerConfig::default()),
        Err(KernelError::Storage(_))
    ));
    let (signer, _) = KernelKeypair::load_or_generate(None).unwrap();
    let mut reversed = saved(&r);
    reversed.events.reverse();
    assert!(matches!(
        Kernel::open(reversed, test_policy(), signer, SchedulerConfig::default()),
        Err(KernelError::Storage(_))
    ));
}

// -------------------------------------------------------------------- wire

#[test]
fn raw_output_is_paged_and_searched() {
    let text: String = (1..=300).map(|i| format!("{i}\n")).collect();
    let page1 = raw_page(text.as_bytes(), Some(0), Some(100));
    assert_eq!(page1.returned_bytes, 100);
    let page2 = raw_page(text.as_bytes(), page1.next_offset, Some(1_000_000));
    assert!(page2.next_offset.is_none(), "page 2 reaches the end");
    assert_eq!(100 + page2.returned_bytes, page1.total_bytes, "pages tile the blob exactly");
    assert_eq!(format!("{}{}", page1.data, page2.data), text);
    let hits = raw_grep(text.as_bytes(), "299");
    assert_eq!(hits.matches.len(), 1);
    assert_eq!(hits.matches[0].line, "299");
    assert_eq!(hits.matches[0].offset as usize, text.find("299").unwrap());
    // Offsets are bytes of the output, also behind what is no UTF-8.
    let hits = raw_grep(b"\xff\nhit\n", "hit");
    assert_eq!(hits.total_bytes, 6);
    assert_eq!(hits.matches.len(), 1);
    assert_eq!((hits.matches[0].offset, hits.matches[0].line.as_str()), (2, "hit"));
    assert!(!hits.matches_truncated);
    let page = raw_page(b"\xff\nhit\n", Some(hits.matches[0].offset), None);
    assert_eq!(page.data, "hit\n");
    assert_eq!(raw_grep(b"a\nhit\nb", "hit\n").matches.len(), 1);
}

#[test]
fn errors_and_denied_steps_have_their_status() {
    let missing = KernelError::NotFound { kind: "raw_output", id: "x".to_string() };
    assert_eq!(status_of(&missing), 404);
    assert_eq!(status_of(&KernelError::Other("x".to_string())), 500);
    let mut r = rig();
    let denied = r.execute(&action(shell("id"), &LeaseId::generate())).unwrap();
    let (status, body) = step_response(&denied, None);
    assert_eq!(status, 403);
    assert_eq!(
        body.get("observation").and_then(|o| o.get("kind")).and_then(|k| k.as_str()),
        Some("denied")
    );
    let ok = r.auto(shell("true")).unwrap();
    let (status, body) = step_response(&ok.result, Some((ok.lease.as_str(), ok.lease_minted)));
    assert_eq!(status, 200);
    assert!(matches!(body.get("lease_minted"), Some(Value::Bool(true))));
}
