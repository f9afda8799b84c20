//! The scheduler: budgets, pauses, routing and hints.
use agent_kernel::budget::ResourceBudget;
use agent_kernel::denial::DenialCode;
use agent_kernel::error::{KernelError, KernelResult};
use agent_kernel::ids::{BranchId, EpisodeId, StepId};
use agent_kernel::replay::ReplayClass;
use agent_kernel::scheduler::router::{BackendRouter, Needs, RiskTier};
use agent_kernel::scheduler::step::{SchedulerConfig, StepRecord, StepScheduler, WarmPool};
use agent_kernel::time::Timestamp;
use agent_kernel::traits::BackendProfile;

const NOW: Timestamp = Timestamp { secs: 1_700_000_000, nanos: 0 };

fn profile(name: &str, iso: u8, cold: u64, fork: bool) -> BackendProfile {
    BackendProfile {
        name: name.to_string(),
        isolation_strength: iso,
        cold_start_ms: cold,
        replay_class: ReplayClass::FilesystemOnly,
        supports_fork: fork,
        supports_gui: false,
        full_linux: true,
        shares_workspace: name == "local",
        syncs_state: false,
    }
}

fn cpu(cpu_ms: u64) -> ResourceBudget {
    ResourceBudget { cpu_ms, ..ResourceBudget::zero() }
}

fn scheduler_over(p: BackendProfile, permits: usize, budget: ResourceBudget) -> (StepScheduler, EpisodeId) {
    let mut router = BackendRouter::new();
    router.register(p);
    let mut scheduler = StepScheduler::new(
        router,
        SchedulerConfig { max_concurrent_branches: permits, episode_budget: budget },
    );
    let ep = EpisodeId::generate();
    scheduler.register_episode_default(&ep);
    (scheduler, ep)
}

fn scheduler_with_slow(permits: usize, budget: ResourceBudget) -> (StepScheduler, EpisodeId) {
    scheduler_over(profile("slow", 90, 10, true), permits, budget)
}

/// Admits a step, routes it, and records that it used `usage`.
fn run(
    s: &mut StepScheduler,
    ep: &EpisodeId,
    branch: &str,
    cpu_ms: u64,
    usage: ResourceBudget,
) -> KernelResult<()> {
    let branch = BranchId(branch.to_string());
    let reservation = s.execute_step(ep, &branch, "proc.shell", &cpu(cpu_ms))?;
    let i = s.route(&reservation, RiskTier::High, &Needs::default())?;
    let backend = s.backend_profiles()[i].name.clone();
    let record = StepRecord {
        step: StepId::generate(),
        branch,
        backend,
        queue_ms: 0,
        exec_ms: 80,
        usage,
        recorded_at: NOW,
    };
    s.complete(&reservation, record);
    Ok(())
}

#[test]
fn fan_out_has_at_least_one_permit() {
    assert_eq!(scheduler_with_slow(2, cpu(1)).0.permits(), 2);
    assert_eq!(scheduler_with_slow(0, cpu(1)).0.permits(), 1);
}

#[test]
fn budget_is_charged_and_exhaustion_refuses_steps() {
    let (mut s, ep) = scheduler_with_slow(4, cpu(25));
    // Each step reserves its requested budget, then settles to the actual
    // 10 cpu_ms usage: 25 → (reserve 20, settle 10) → 15 → (reserve 15,
    // settle 10) → 5 → a 20-request no longer fits.
    run(&mut s, &ep, "br-1", 20, cpu(10)).unwrap();
    assert_eq!(s.remaining_budget(&ep).unwrap().cpu_ms, 15);
    run(&mut s, &ep, "br-1", 15, cpu(10)).unwrap();
    assert_eq!(s.remaining_budget(&ep).unwrap().cpu_ms, 5);
    match run(&mut s, &ep, "br-1", 20, cpu(10)).unwrap_err() {
        KernelError::Denied(d) => {
            assert_eq!(d.code, DenialCode::BudgetExhausted);
            assert!(d.reason.contains("cpu_ms"), "reason names the short dimension: {}", d.reason);
        }
        other => panic!("expected budget denial, got {other:?}"),
    }
    // Settled spend is visible on the account.
    let account = s.budget_account(&ep).unwrap();
    assert_eq!(account.spent.cpu_ms, 20);
    assert_eq!(s.records().len(), 2);
    assert!(s.records().iter().all(|r| r.backend == "slow"));
}

#[test]
fn concurrent_steps_cannot_jointly_overdraw_the_account() {
    let (mut s, ep) = scheduler_with_slow(8, cpu(100));
    let branch = BranchId("br-race".to_string());
    // Both are admitted before either one settles.
    let first = s.execute_step(&ep, &branch, "proc.shell", &cpu(100)).unwrap();
    match s.execute_step(&ep, &branch, "proc.shell", &cpu(100)) {
        Err(KernelError::Denied(d)) => assert_eq!(d.code, DenialCode::BudgetExhausted),
        other => panic!("expected a denial, got {other:?}"),
    }
    let record = StepRecord {
        step: StepId::generate(),
        branch,
        backend: "slow".to_string(),
        queue_ms: 0,
        exec_ms: 80,
        usage: cpu(100),
        recorded_at: NOW,
    };
    assert!(s.complete(&first, record).is_empty());
    let account = s.budget_account(&ep).unwrap();
    assert_eq!(account.spent.cpu_ms, 100, "accepted usage must not exceed the envelope");
    assert_eq!(account.remaining.cpu_ms, 0);
}

#[test]
fn a_step_is_charged_what_it_used_also_over_its_reservation() {
    for (usage, remaining, over) in [(20, 80, false), (60, 40, true), (500, 0, true)] {
        let (mut s, ep) = scheduler_with_slow(8, cpu(100));
        let branch = BranchId("br-over".to_string());
        let reservation = s.execute_step(&ep, &branch, "proc.shell", &cpu(30)).unwrap();
        let record = StepRecord {
            step: StepId::generate(),
            branch,
            backend: "slow".to_string(),
            queue_ms: 0,
            exec_ms: 80,
            usage: cpu(usage),
            recorded_at: NOW,
        };
        let dimensions = s.complete(&reservation, record);
        assert_eq!(dimensions.contains(&"cpu_ms"), over);
        let account = s.budget_account(&ep).unwrap();
        assert_eq!((account.remaining.cpu_ms, account.spent.cpu_ms), (remaining, usage));
    }
}

#[test]
fn budgets_are_isolated_per_episode() {
    let (mut s, ep_a) = scheduler_with_slow(4, cpu(10));
    let ep_b = EpisodeId::generate();
    s.register_episode_default(&ep_b);
    run(&mut s, &ep_a, "br-a", 10, cpu(10)).unwrap();
    let err = run(&mut s, &ep_a, "br-a", 10, cpu(10)).unwrap_err();
    assert!(matches!(err, KernelError::Denied(_)), "episode A is exhausted");
    // Episode B still has its own full envelope.
    run(&mut s, &ep_b, "br-b", 10, cpu(10)).unwrap();
    assert_eq!(s.remaining_budget(&ep_b).unwrap().cpu_ms, 0);
}

#[test]
fn failed_routing_refunds_the_reservation() {
    let (mut s, ep) = scheduler_over(profile("weak", 20, 1, false), 2, cpu(50));
    // High risk cannot be routed to the weak backend → refusal after reserve.
    let err = run(&mut s, &ep, "br-1", 50, cpu(10)).unwrap_err();
    assert!(matches!(err, KernelError::BackendUnavailable { .. }));
    assert_eq!(
        s.remaining_budget(&ep).unwrap().cpu_ms,
        50,
        "reservation must be refunded on routing failure"
    );
}

#[test]
fn unknown_episode_account_is_refused() {
    let (mut s, _ep) = scheduler_with_slow(4, ResourceBudget::step_default());
    let stranger = EpisodeId::generate();
    match run(&mut s, &stranger, "br-x", 1, cpu(1)).unwrap_err() {
        KernelError::Denied(d) => assert_eq!(d.code, DenialCode::BudgetExhausted),
        other => panic!("expected denial, got {other:?}"),
    }
    let (mut s, ep) = scheduler_with_slow(4, ResourceBudget::step_default());
    s.close_episode(&ep);
    assert!(s.remaining_budget(&ep).is_none());
}

#[test]
fn paused_branches_are_refused_until_resumed() {
    let (mut s, ep) = scheduler_with_slow(4, ResourceBudget::step_default());
    let branch = BranchId("br-p".to_string());
    s.pause_branch(&branch);
    assert!(s.is_paused(&branch));
    let err = run(&mut s, &ep, "br-p", 10, cpu(10)).unwrap_err();
    assert!(matches!(err, KernelError::Denied(_)));
    s.resume_branch(&branch);
    run(&mut s, &ep, "br-p", 10, cpu(10)).unwrap();
}

#[test]
fn hints_prewarm_but_do_not_change_routing() {
    let (s, _ep) = scheduler_with_slow(4, ResourceBudget::step_default());
    let plan = s.hint("explore three fixes in parallel branches");
    assert_eq!(plan.warm_backend.as_deref(), Some("slow"));
    let plan = s.hint("run the build and test suite");
    assert_eq!(plan.warm_workspaces, 2);
    // Routing is hint-free: a High-risk step still requires the floor even if
    // the intent claims to be harmless.
    let (mut s, ep) =
        scheduler_over(profile("weak", 20, 1, false), 4, ResourceBudget::step_default());
    let _ = s.hint("totally harmless, run locally please");
    let err = run(&mut s, &ep, "br-1", 10, cpu(10)).unwrap_err();
    assert!(matches!(err, KernelError::BackendUnavailable { .. }));
}

#[test]
fn warm_pool_fills_and_hands_out_workspaces() {
    let (s, _ep) = scheduler_with_slow(4, ResourceBudget::step_default());
    let mut s = s.with_warm_pool(WarmPool::new("/data/pool"));
    let plan = s.hint("compile the project");
    let mut made = Vec::new();
    while let Some(name) = s.apply_prewarm(&plan) {
        made.push(name.clone());
        s.prewarmed(name);
    }
    // Two idle workspaces exist ahead of need.
    assert_eq!(made, vec!["/data/pool/warm-0", "/data/pool/warm-1"]);
    let mut pool = WarmPool::new("pool/");
    assert_eq!(pool.fill(1).as_deref(), Some("pool/warm-0"));
    assert!(pool.take().is_none());
    pool.put("warm-7".to_string());
    assert_eq!(pool.idle(), 1);
    assert_eq!(pool.take().as_deref(), Some("warm-7"));
    assert_eq!(pool.idle(), 0);
}

#[test]
fn a_refund_undoes_a_reservation() {
    let (mut s, ep) = scheduler_with_slow(4, cpu(30));
    s.reserve(&ep, &cpu(12)).unwrap();
    assert_eq!(s.remaining_budget(&ep).unwrap().cpu_ms, 18);
    s.refund(&ep, &cpu(12));
    assert_eq!(s.remaining_budget(&ep).unwrap().cpu_ms, 30);
    assert_eq!(s.reserve(&ep, &cpu(31)).unwrap_err(), vec!["cpu_ms"]);
    // Usage beyond the reservation is named, and charged.
    s.reserve(&ep, &cpu(10)).unwrap();
    assert_eq!(s.settle(&ep, &cpu(10), &cpu(15)), vec!["cpu_ms"]);
    assert_eq!(s.budget_account(&ep).unwrap().spent.cpu_ms, 15);
    assert_eq!(s.remaining_budget(&ep).unwrap().cpu_ms, 15);
}

#[test]
fn the_cheapest_satisfying_backend_is_chosen() {
    let mut router = BackendRouter::new();
    router.register(profile("strong", 90, 500, true));
    router.register(profile("local", 40, 5, false));
    assert_eq!(router.route(RiskTier::High, &Needs::default()).unwrap(), 0);
    let low = router.route(RiskTier::Low, &Needs::default()).unwrap();
    assert_eq!(router.profiles()[low].name, "local");
    let forking = Needs { fork: true, ..Needs::default() };
    assert_eq!(router.route(RiskTier::Low, &forking).unwrap(), 0);
    let gui = Needs { gui: true, ..Needs::default() };
    assert!(matches!(
        router.route(RiskTier::Low, &gui),
        Err(KernelError::BackendUnavailable { .. })
    ));
}
