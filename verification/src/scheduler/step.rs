//! Step scheduling: budget enforcement at step boundaries, branch fan-out
//! limits, idle-pause bookkeeping, intent-aware prewarming and the per-step
//! accounting record consumed by the causal ledger.
//!
//! Budgets are per-episode accounts, not one scheduler-global pool. A step's
//! requested budget is reserved before execution (admission and debit are one
//! operation), and settled to the actual usage afterwards: unspent reservation
//! is refunded, overruns beyond the reservation are charged and reported. Two
//! concurrent steps can therefore never both pass an admission check the account
//! can only cover once.
use vstd::prelude::*;
use crate::api::config::{below, join_path};
use crate::budget::ResourceBudget;
use crate::denial::{Denial, DenialCode, DenialView, bare_denial};
use crate::error::{KernelError, KernelResult};
use crate::ids::{BranchId, EpisodeId, StepId};
use crate::scheduler::router::{BackendRouter, Needs, RiskTier, chosen, cost_of, eligible, routing_error};
use crate::table::Table;
use crate::text;
use crate::time::Timestamp;
use crate::traits::{BackendProfile, ExecutionOutcome};

verus! {

/// An executed step's outcome plus the profile of the backend that ran it. The
/// kernel's state recording depends on the profile: only a workspace-sharing
/// backend's effects can be snapshotted into the DAG; everything else is
/// recorded as an audit-only excursion.
#[derive(Debug)]
pub struct RoutedOutcome {
    pub outcome: ExecutionOutcome,
    pub backend: BackendProfile,
}

/// Step-boundary accounting record, exposed for the ledger: which backend ran
/// the step, how long it queued behind the fan-out limit, how long it executed,
/// and what it consumed.
#[derive(Debug)]
pub struct StepRecord {
    pub step: StepId,
    pub branch: BranchId,
    /// Profile name of the backend that executed the step.
    pub backend: String,
    /// Time spent waiting for a fan-out permit, milliseconds.
    pub queue_ms: u64,
    /// Wall-clock execution time, milliseconds.
    pub exec_ms: u64,
    /// Usage reported by the backend (charged against the episode budget).
    pub usage: ResourceBudget,
    pub recorded_at: Timestamp,
}

/// A prewarm suggestion produced by [`StepScheduler::hint`].
///
/// Hints optimize, never authorize: a plan may warm a backend or local
/// workspaces ahead of need, but it is not consulted by
/// [`BackendRouter::route`] and cannot lower any isolation floor.
#[derive(Debug, PartialEq)]
pub struct PrewarmPlan {
    /// Backend worth warming (must already be registered), if any.
    pub warm_backend: Option<String>,
    /// Number of idle local workspaces to keep ready.
    pub warm_workspaces: usize,
    /// Human-readable rationale, for the ledger.
    pub note: String,
}

/// Scheduler configuration.
#[derive(Debug, Clone, Copy)]
pub struct SchedulerConfig {
    /// Maximum number of steps executing concurrently across branches (the
    /// branch fan-out budget).
    pub max_concurrent_branches: usize,
    /// Budget installed for each episode's account when it is registered without
    /// an explicit envelope.
    pub episode_budget: ResourceBudget,
}

impl Default for SchedulerConfig {
    fn default() -> (r: Self)
        ensures
            r.max_concurrent_branches == 8,
            r.episode_budget == ResourceBudget::spec_step_default(),
    {
        SchedulerConfig {
            max_concurrent_branches: 8,
            episode_budget: ResourceBudget::step_default(),
        }
    }
}

/// One episode's budget account: what is still spendable and what has been
/// settled as actually consumed.
#[derive(Debug, Clone, Copy, PartialEq, Eq, Structural)]
pub struct BudgetAccount {
    /// Remaining spendable envelope (reservations already subtracted).
    pub remaining: ResourceBudget,
    /// Cumulative settled usage.
    pub spent: ResourceBudget,
}

impl BudgetAccount {
    /// The account after an amount was reserved.
    pub open spec fn reserved(self, amount: ResourceBudget) -> BudgetAccount {
        BudgetAccount { remaining: self.remaining.minus(amount), ..self }
    }

    /// The account after a reservation was returned unused.
    pub open spec fn refunded(self, amount: ResourceBudget) -> BudgetAccount {
        BudgetAccount { remaining: self.remaining.plus(amount), ..self }
    }

    /// The account after a reservation was settled to the actual usage: the
    /// unspent part comes back, what exceeds the reservation is charged.
    pub open spec fn settled(self, amount: ResourceBudget, usage: ResourceBudget) -> BudgetAccount {
        BudgetAccount {
            remaining: self.remaining.plus(amount.minus(usage)).minus(usage.minus(amount)),
            spent: self.spent.plus(usage),
        }
    }
}

/// The paths of pre-created idle local workspace directories below a root. They
/// only trade directory-creation latency and grant no authority.
#[derive(Debug)]
pub struct WarmPool {
    root: String,
    idle: Vec<String>,
    next: u64,
}

impl WarmPool {
    /// The directory below which workspaces are created.
    pub closed spec fn root(&self) -> Seq<char> {
        self.root@
    }

    /// The idle workspaces, the one to be handed out next last.
    pub closed spec fn view(&self) -> Seq<Seq<char>> {
        self.idle.deep_view()
    }

    /// The number of the workspace to be created next.
    pub closed spec fn counter(&self) -> u64 {
        self.next
    }

    /// An empty pool of workspaces below `root`.
    pub fn new(root: &str) -> (r: Self)
        ensures
            r.root() == root@,
            r@ == Seq::<Seq<char>>::empty(),
            r.counter() == 0,
    {
        let r = WarmPool { root: root.to_owned(), idle: Vec::new(), next: 0 };
        proof {
            assert(r@ =~= Seq::<Seq<char>>::empty());
        }
        r
    }

    /// The path of the next workspace to create so that at least `n` are idle;
    /// `None` when there are enough. A workspace that was created is handed to
    /// [`WarmPool::put`].
    pub fn fill(&mut self, n: usize) -> (r: Option<String>)
        ensures
            final(self).root() == old(self).root(),
            final(self)@ == old(self)@,
            match r {
                Some(path) => {
                    &&& old(self)@.len() < n
                    &&& path@ == below(
                        old(self).root(),
                        "warm-"@ + text::decimal(old(self).counter() as nat),
                    )
                    &&& final(self).counter() == if old(self).counter() == u64::MAX {
                        0
                    } else {
                        old(self).counter() + 1
                    }
                },
                None => old(self)@.len() >= n && final(self).counter() == old(self).counter(),
            },
    {
        if self.idle.len() >= n {
            return None;
        }
        let number = text::to_decimal(self.next);
        let name = text::cat2("warm-", number.as_str());
        let path = join_path(self.root.as_str(), name.as_str());
        self.next = if self.next == u64::MAX {
            0
        } else {
            self.next + 1
        };
        Some(path)
    }

    /// Adds a workspace that was created.
    pub fn put(&mut self, name: String)
        ensures
            final(self).root() == old(self).root(),
            final(self)@ == old(self)@.push(name@),
            final(self).counter() == old(self).counter(),
    {
        let ghost before = self.idle.deep_view();
        let ghost n = name@;
        self.idle.push(name);
        proof {
            assert(self.idle.deep_view() =~= before.push(n));
        }
    }

    /// Take a pre-created workspace, if one is available.
    pub fn take(&mut self) -> (r: Option<String>)
        ensures
            final(self).root() == old(self).root(),
            final(self).counter() == old(self).counter(),
            match r {
                Some(name) => {
                    &&& old(self)@.len() > 0
                    &&& name@ == old(self)@.last()
                    &&& final(self)@ == old(self)@.drop_last()
                },
                None => old(self)@.len() == 0 && final(self)@ == old(self)@,
            },
    {
        let ghost before = self.idle@;
        let r = self.idle.pop();
        proof {
            if before.len() > 0 {
                assert(self.idle.deep_view() =~= old(self).idle.deep_view().drop_last());
            } else {
                assert(self.idle.deep_view() =~= old(self).idle.deep_view());
            }
        }
        r
    }

    /// Number of idle workspaces currently pooled.
    pub fn idle(&self) -> (r: usize)
        ensures
            r == self@.len(),
    {
        self.idle.len()
    }
}

/// A step's reservation against an episode's account.
#[derive(Debug)]
pub struct Reservation {
    pub episode: EpisodeId,
    pub amount: ResourceBudget,
}

/// The texts of a list of names.
pub open spec fn name_texts(names: Seq<&'static str>) -> Seq<Seq<char>> {
    Seq::new(names.len(), |i: int| names[i]@)
}

/// The dimensions in which an account is short of an amount.
pub open spec fn shortage(
    accounts: Map<Seq<char>, BudgetAccount>,
    episode: Seq<char>,
    amount: ResourceBudget,
) -> Seq<Seq<char>> {
    if accounts.contains_key(episode) {
        name_texts(amount.over_names(accounts[episode].remaining))
    } else {
        seq!["unknown_episode"@]
    }
}

/// The denial for a step that its episode's account cannot cover.
pub open spec fn budget_denial_view(
    accounts: Map<Seq<char>, BudgetAccount>,
    episode: Seq<char>,
    operation: Seq<char>,
    amount: ResourceBudget,
) -> DenialView {
    bare_denial(
        DenialCode::BudgetExhausted,
        operation,
        "episode `"@ + episode
            + "` budget cannot cover this step's requested budget (insufficient: "@ + text::joined(
            shortage(accounts, episode, amount),
            ", "@,
        ) + ")"@,
        true,
    )
}

/// The denial for a step on a branch that is paused.
pub open spec fn paused_denial(branch: Seq<char>, operation: Seq<char>) -> DenialView {
    bare_denial(
        DenialCode::PolicyForbidden,
        operation,
        "branch `"@ + branch + "` is idle-paused; resume it first"@,
        true,
    )
}

/// The error carries the denial.
pub open spec fn denied_with(e: KernelError, d: DenialView) -> bool {
    e matches KernelError::Denied(b) && (*b)@ == d
}

fn owned_names(names: &Vec<&'static str>) -> (r: Vec<String>)
    ensures
        r.deep_view() == name_texts(names@),
{
    let mut out: Vec<String> = Vec::new();
    let mut i: usize = 0;
    while i < names.len()
        invariant
            i <= names.len(),
            out.len() == i,
            forall|j: int| 0 <= j < i ==> (#[trigger] out@[j])@ == names@[j]@,
        decreases names.len() - i,
    {
        out.push(names[i].to_owned());
        i = i + 1;
    }
    proof {
        assert(out.deep_view() =~= name_texts(names@));
    }
    out
}

/// A text in lowercase.
pub uninterp spec fn lowercase(s: Seq<char>) -> Seq<char>;

/// `str::to_lowercase`: the text in lowercase. Of a text in ASCII nothing but
/// the capitals changes.
#[verifier::external_body]
fn to_lowercase(s: &str) -> (r: String)
    ensures
        r@ == lowercase(s@),
        s.is_ascii() ==> r@ == text::ascii_lower(s@),
{
    s.to_lowercase()
}

/// One of the words stands in the text.
pub open spec fn mentions(t: Seq<char>, words: Seq<Seq<char>>) -> bool {
    exists|i: int| 0 <= i < words.len() && text::occurs_in(t, #[trigger] words[i])
}

/// Words that suggest that branches will fan out.
pub open spec fn fork_words() -> Seq<Seq<char>> {
    seq!["fork"@, "fan-out"@, "fanout"@, "branch"@, "explore"@, "parallel"@]
}

/// Words that suggest that local builds or tests will run.
pub open spec fn build_words() -> Seq<Seq<char>> {
    seq!["build"@, "test"@, "compile"@, "lint"@, "install"@]
}

fn mentions_any(t: &Vec<char>, words: &Vec<&'static str>) -> (r: bool)
    ensures
        r == mentions(t@, name_texts(words@)),
{
    let ghost ws = name_texts(words@);
    let mut i: usize = 0;
    while i < words.len()
        invariant
            i <= words.len(),
            ws == name_texts(words@),
            forall|j: int| 0 <= j < i ==> !text::occurs_in(t@, #[trigger] ws[j]),
        decreases words.len() - i,
    {
        let w = text::chars_of(words[i]);
        if text::contains(t, &w) {
            proof {
                assert(text::occurs_in(t@, ws[i as int]));
            }
            return true;
        }
        i = i + 1;
    }
    false
}

/// The first of the cheapest fork-capable backends before position `n`.
pub open spec fn cheapest_fork(profiles: Seq<BackendProfile>, n: nat) -> Option<int>
    decreases n,
{
    if n == 0 {
        None
    } else {
        match cheapest_fork(profiles, (n - 1) as nat) {
            None => if profiles[n - 1].supports_fork {
                Some(n - 1)
            } else {
                None
            },
            Some(b) => if profiles[n - 1].supports_fork && cost_of(profiles[n - 1]) < cost_of(
                profiles[b],
            ) {
                Some(n - 1)
            } else {
                Some(b)
            },
        }
    }
}

/// What a hint in lowercase suggests.
pub open spec fn planned(p: PrewarmPlan, profiles: Seq<BackendProfile>, lower: Seq<char>) -> bool {
    if mentions(lower, fork_words()) {
        &&& p.warm_backend.deep_view() == match cheapest_fork(profiles, profiles.len()) {
            Some(i) => Some(profiles[i].name@),
            None => None,
        }
        &&& p.warm_workspaces == 0
        &&& p.note@ == "intent suggests branch fan-out; warm a fork-capable backend"@
    } else if mentions(lower, build_words()) {
        &&& p.warm_backend is None
        &&& p.warm_workspaces == 2
        &&& p.note@ == "intent suggests local build/test steps; keep workspaces warm"@
    } else {
        &&& p.warm_backend is None
        &&& p.warm_workspaces == 0
        &&& p.note@ == "no prewarm"@
    }
}

/// The step scheduler: routes each step through the [`BackendRouter`], enforces
/// per-episode budgets with reserve-then-settle semantics, bounds concurrent
/// branch fan-out, and records accounting for the ledger.
#[derive(Debug)]
pub struct StepScheduler {
    router: BackendRouter,
    fanout: usize,
    accounts: Table<BudgetAccount>,
    default_episode_budget: ResourceBudget,
    records: Vec<StepRecord>,
    paused: Table<bool>,
    warm_pool: Option<WarmPool>,
}

impl StepScheduler {
    /// The profiles of the registered backends.
    pub closed spec fn backends(&self) -> Seq<BackendProfile> {
        self.router@
    }

    /// How many steps may execute at once.
    pub closed spec fn fanout(&self) -> usize {
        self.fanout
    }

    /// The accounts by episode.
    pub closed spec fn accounts(&self) -> Map<Seq<char>, BudgetAccount> {
        self.accounts@
    }

    /// The envelope of an episode that is registered without one.
    pub closed spec fn default_budget(&self) -> ResourceBudget {
        self.default_episode_budget
    }

    /// The accounting records.
    pub closed spec fn log(&self) -> Seq<StepRecord> {
        self.records@
    }

    /// The paused branches.
    pub closed spec fn paused(&self) -> Set<Seq<char>> {
        self.paused@.dom()
    }

    /// The pool of local workspaces, where there is one.
    pub closed spec fn pool(&self) -> Option<WarmPool> {
        self.warm_pool
    }

    /// Nothing but the accounts differs.
    pub open spec fn same_but_accounts(&self, other: Self) -> bool {
        &&& self.backends() == other.backends()
        &&& self.fanout() == other.fanout()
        &&& self.default_budget() == other.default_budget()
        &&& self.log() == other.log()
        &&& self.paused() == other.paused()
        &&& self.pool() == other.pool()
    }

    /// Nothing but the pool of local workspaces differs.
    pub open spec fn same_but_pool(&self, other: Self) -> bool {
        &&& self.backends() == other.backends()
        &&& self.fanout() == other.fanout()
        &&& self.accounts() == other.accounts()
        &&& self.default_budget() == other.default_budget()
        &&& self.log() == other.log()
        &&& self.paused() == other.paused()
    }

    /// A scheduler over the backends of a router. At least one step may execute
    /// at once.
    pub fn new(router: BackendRouter, config: SchedulerConfig) -> (r: Self)
        ensures
            r.backends() == router@,
            r.fanout() == if config.max_concurrent_branches == 0 {
                1
            } else {
                config.max_concurrent_branches
            },
            r.accounts() == Map::<Seq<char>, BudgetAccount>::empty(),
            r.default_budget() == config.episode_budget,
            r.log() == Seq::<StepRecord>::empty(),
            r.paused() == Set::<Seq<char>>::empty(),
            r.pool() is None,
    {
        let fanout: usize = if config.max_concurrent_branches == 0 {
            1
        } else {
            config.max_concurrent_branches
        };
        let r = StepScheduler {
            router,
            fanout,
            accounts: Table::new(),
            default_episode_budget: config.episode_budget,
            records: Vec::new(),
            paused: Table::new(),
            warm_pool: None,
        };
        proof {
            assert(r.paused() =~= Set::<Seq<char>>::empty());
        }
        r
    }

    /// Attach a warm pool of local workspaces used by prewarm plans.
    pub fn with_warm_pool(self, pool: WarmPool) -> (r: Self)
        ensures
            r.pool() == Some(pool),
            r.same_but_pool(self),
    {
        let mut r = self;
        r.warm_pool = Some(pool);
        r
    }

    /// How many steps may execute at once.
    pub fn permits(&self) -> (r: usize)
        ensures
            r == self.fanout(),
    {
        self.fanout
    }

    /// Register an additional isolation backend after construction.
    pub fn register_backend(&mut self, profile: BackendProfile)
        ensures
            final(self).backends() == old(self).backends().push(profile),
            final(self).fanout() == old(self).fanout(),
            final(self).pool() == old(self).pool(),
            final(self).accounts() == old(self).accounts(),
            final(self).default_budget() == old(self).default_budget(),
            final(self).log() == old(self).log(),
            final(self).paused() == old(self).paused(),
    {
        self.router.register(profile);
    }

    /// Profiles of every registered backend, for introspection.
    pub fn backend_profiles(&self) -> (r: &Vec<BackendProfile>)
        ensures
            r@ == self.backends(),
    {
        self.router.profiles()
    }

    /// Open (or overwrite) an episode's budget account with `remaining`
    /// spendable and `spent` already settled. Called at episode creation and
    /// again at restart-recovery time with the persisted totals.
    pub fn register_episode(
        &mut self,
        episode: &EpisodeId,
        remaining: ResourceBudget,
        spent: ResourceBudget,
    )
        ensures
            final(self).accounts() == old(self).accounts().insert(
                episode@,
                (BudgetAccount { remaining, spent }),
            ),
            final(self).same_but_accounts(*old(self)),
    {
        self.accounts.put(episode.as_str().to_owned(), BudgetAccount { remaining, spent });
    }

    /// Open an episode account with the configured default envelope.
    pub fn register_episode_default(&mut self, episode: &EpisodeId)
        ensures
            final(self).accounts() == old(self).accounts().insert(
                episode@,
                (BudgetAccount {
                    remaining: old(self).default_budget(),
                    spent: ResourceBudget::spec_zero(),
                }),
            ),
            final(self).same_but_accounts(*old(self)),
    {
        let budget = self.default_episode_budget;
        self.register_episode(episode, budget, ResourceBudget::zero());
    }

    /// The configured default per-episode budget envelope.
    pub fn default_episode_budget(&self) -> (r: ResourceBudget)
        ensures
            r == self.default_budget(),
    {
        self.default_episode_budget
    }

    /// Remaining budget of one episode's account.
    pub fn remaining_budget(&self, episode: &EpisodeId) -> (r: Option<ResourceBudget>)
        ensures
            r == if self.accounts().contains_key(episode@) {
                Some(self.accounts()[episode@].remaining)
            } else {
                None
            },
    {
        match self.accounts.get(episode.as_str()) {
            Some(a) => Some(a.remaining),
            None => None,
        }
    }

    /// The full account (remaining + settled spend) of one episode.
    pub fn budget_account(&self, episode: &EpisodeId) -> (r: Option<BudgetAccount>)
        ensures
            r == if self.accounts().contains_key(episode@) {
                Some(self.accounts()[episode@])
            } else {
                None
            },
    {
        match self.accounts.get(episode.as_str()) {
            Some(a) => Some(*a),
            None => None,
        }
    }

    /// Drop an episode's account (episode ended).
    pub fn close_episode(&mut self, episode: &EpisodeId)
        ensures
            final(self).accounts() == old(self).accounts().remove(episode@),
            final(self).same_but_accounts(*old(self)),
    {
        self.accounts.remove(episode.as_str());
    }

    /// Reserve `amount` against an episode account. Admission and debit are one
    /// operation: reservations can never jointly exceed the remaining envelope.
    /// Returns the insufficient dimensions on refusal.
    pub fn reserve(&mut self, episode: &EpisodeId, amount: &ResourceBudget) -> (r: Result<
        (),
        Vec<String>,
    >)
        ensures
            final(self).same_but_accounts(*old(self)),
            match r {
                Ok(_) => {
                    &&& old(self).accounts().contains_key(episode@)
                    &&& amount.within(old(self).accounts()[episode@].remaining)
                    &&& final(self).accounts() == old(self).accounts().insert(
                        episode@,
                        old(self).accounts()[episode@].reserved(*amount),
                    )
                },
                Err(short) => {
                    &&& final(self).accounts() == old(self).accounts()
                    &&& old(self).accounts().contains_key(episode@) ==> !amount.within(
                        old(self).accounts()[episode@].remaining,
                    )
                    &&& short.deep_view() == shortage(old(self).accounts(), episode@, *amount)
                },
            },
    {
        let account = match self.accounts.get(episode.as_str()) {
            Some(a) => *a,
            None => {
                let mut short: Vec<String> = Vec::new();
                short.push("unknown_episode".to_owned());
                proof {
                    assert(short.deep_view() =~= seq!["unknown_episode"@]);
                }
                return Err(short);
            },
        };
        if !amount.fits_within(&account.remaining) {
            let names = amount.exceeding_dimensions(&account.remaining);
            return Err(owned_names(&names));
        }
        let next = BudgetAccount {
            remaining: account.remaining.saturating_sub(amount),
            spent: account.spent,
        };
        self.accounts.put(episode.as_str().to_owned(), next);
        Ok(())
    }

    /// Settle a reservation to the actual usage: refund the unspent part, charge
    /// any overrun beyond the reservation, and add to the settled spend. Returns
    /// the overrun dimensions (empty when usage fit).
    pub fn settle(
        &mut self,
        episode: &EpisodeId,
        reserved: &ResourceBudget,
        usage: &ResourceBudget,
    ) -> (over: Vec<&'static str>)
        ensures
            final(self).same_but_accounts(*old(self)),
            if old(self).accounts().contains_key(episode@) {
                &&& over@ == usage.over_names(*reserved)
                &&& final(self).accounts() == old(self).accounts().insert(
                    episode@,
                    old(self).accounts()[episode@].settled(*reserved, *usage),
                )
            } else {
                &&& over@.len() == 0
                &&& final(self).accounts() == old(self).accounts()
            },
    {
        let account = match self.accounts.get(episode.as_str()) {
            Some(a) => *a,
            None => {
                return Vec::new();
            },
        };
        let refund = reserved.saturating_sub(usage);
        let overrun = usage.saturating_sub(reserved);
        let next = BudgetAccount {
            remaining: account.remaining.saturating_add(&refund).saturating_sub(&overrun),
            spent: account.spent.saturating_add(usage),
        };
        self.accounts.put(episode.as_str().to_owned(), next);
        usage.exceeding_dimensions(reserved)
    }

    /// Return an unused reservation in full (execution failed before usage).
    pub fn refund(&mut self, episode: &EpisodeId, reserved: &ResourceBudget)
        ensures
            final(self).same_but_accounts(*old(self)),
            final(self).accounts() == if old(self).accounts().contains_key(episode@) {
                old(self).accounts().insert(
                    episode@,
                    old(self).accounts()[episode@].refunded(*reserved),
                )
            } else {
                old(self).accounts()
            },
    {
        let account = match self.accounts.get(episode.as_str()) {
            Some(a) => *a,
            None => {
                return;
            },
        };
        let next = BudgetAccount {
            remaining: account.remaining.saturating_add(reserved),
            spent: account.spent,
        };
        self.accounts.put(episode.as_str().to_owned(), next);
    }

    /// Mark a branch idle-paused; its steps are refused until resumed.
    pub fn pause_branch(&mut self, branch: &BranchId)
        ensures
            final(self).paused() == old(self).paused().insert(branch@),
            final(self).backends() == old(self).backends(),
            final(self).fanout() == old(self).fanout(),
            final(self).pool() == old(self).pool(),
            final(self).accounts() == old(self).accounts(),
            final(self).default_budget() == old(self).default_budget(),
            final(self).log() == old(self).log(),
    {
        let ghost before = self.paused@;
        self.paused.put(branch.as_str().to_owned(), true);
        proof {
            assert(before.insert(branch@, true).dom() =~= before.dom().insert(branch@));
        }
    }

    /// Resume a paused branch.
    pub fn resume_branch(&mut self, branch: &BranchId)
        ensures
            final(self).paused() == old(self).paused().remove(branch@),
            final(self).backends() == old(self).backends(),
            final(self).fanout() == old(self).fanout(),
            final(self).pool() == old(self).pool(),
            final(self).accounts() == old(self).accounts(),
            final(self).default_budget() == old(self).default_budget(),
            final(self).log() == old(self).log(),
    {
        let ghost before = self.paused@;
        self.paused.remove(branch.as_str());
        proof {
            assert(before.remove(branch@).dom() =~= before.dom().remove(branch@));
        }
    }

    /// Whether a branch is idle-paused.
    pub fn is_paused(&self, branch: &BranchId) -> (r: bool)
        ensures
            r == self.paused().contains(branch@),
    {
        self.paused.get(branch.as_str()).is_some()
    }

    /// What a hint that is already in lowercase suggests.
    pub fn plan_for(&self, lower: &str) -> (p: PrewarmPlan)
        ensures
            planned(p, self.backends(), lower@),
    {
        let t = text::chars_of(lower);
        let forks = vec!["fork", "fan-out", "fanout", "branch", "explore", "parallel"];
        let builds = vec!["build", "test", "compile", "lint", "install"];
        proof {
            assert(name_texts(forks@) =~= fork_words());
            assert(name_texts(builds@) =~= build_words());
        }
        if mentions_any(&t, &forks) {
            let ps = self.router.profiles();
            let mut best: Option<usize> = None;
            let mut i: usize = 0;
            while i < ps.len()
                invariant
                    i <= ps.len(),
                    match (best, cheapest_fork(ps@, i as nat)) {
                        (Some(b), Some(c)) => b == c && b < i,
                        (None, None) => true,
                        _ => false,
                    },
                decreases ps.len() - i,
            {
                if ps[i].supports_fork {
                    match best {
                        None => {
                            best = Some(i);
                        },
                        Some(b) => {
                            if BackendRouter::cost(&ps[i]) < BackendRouter::cost(&ps[b]) {
                                best = Some(i);
                            }
                        },
                    }
                }
                i = i + 1;
            }
            let warm_backend = match best {
                Some(b) => Some(ps[b].name.clone()),
                None => None,
            };
            return PrewarmPlan {
                warm_backend,
                warm_workspaces: 0,
                note: "intent suggests branch fan-out; warm a fork-capable backend".to_owned(),
            };
        }
        if mentions_any(&t, &builds) {
            return PrewarmPlan {
                warm_backend: None,
                warm_workspaces: 2,
                note: "intent suggests local build/test steps; keep workspaces warm".to_owned(),
            };
        }
        PrewarmPlan { warm_backend: None, warm_workspaces: 0, note: "no prewarm".to_owned() }
    }

    /// Intent-aware prewarm hook. Inspects a free-text intent hint and may
    /// suggest to warm a backend or local workspaces. It cannot affect routing
    /// floors: the returned plan is advisory and is never an input to
    /// [`BackendRouter::route`]. Hints optimize; they never authorize.
    pub fn hint(&self, intent: &str) -> (p: PrewarmPlan)
        ensures
            planned(p, self.backends(), lowercase(intent@)),
    {
        let lower = to_lowercase(intent);
        self.plan_for(lower.as_str())
    }

    /// Apply a prewarm plan's local-workspace part against the warm pool: the
    /// path of the next workspace to create for it, `None` when there are
    /// enough. A workspace that was created is handed to
    /// [`StepScheduler::prewarmed`].
    pub fn apply_prewarm(&mut self, plan: &PrewarmPlan) -> (r: Option<String>)
        ensures
            final(self).same_but_pool(*old(self)),
            match (old(self).pool(), final(self).pool()) {
                (Some(before), Some(after)) => {
                    &&& after.root() == before.root()
                    &&& after@ == before@
                    &&& match r {
                        Some(path) => {
                            &&& before@.len() < plan.warm_workspaces
                            &&& path@ == below(
                                before.root(),
                                "warm-"@ + text::decimal(before.counter() as nat),
                            )
                            &&& after.counter() == if before.counter() == u64::MAX {
                                0
                            } else {
                                before.counter() + 1
                            }
                        },
                        None => before@.len() >= plan.warm_workspaces && after.counter()
                            == before.counter(),
                    }
                },
                (None, None) => r is None,
                _ => false,
            },
    {
        match self.warm_pool.take() {
            Some(mut pool) => {
                let r = pool.fill(plan.warm_workspaces);
                self.warm_pool = Some(pool);
                r
            },
            None => None,
        }
    }

    /// Adds a workspace that was created to the warm pool.
    pub fn prewarmed(&mut self, name: String)
        ensures
            final(self).same_but_pool(*old(self)),
            match (old(self).pool(), final(self).pool()) {
                (Some(before), Some(after)) => {
                    &&& after.root() == before.root()
                    &&& after@ == before@.push(name@)
                    &&& after.counter() == before.counter()
                },
                (None, None) => true,
                _ => false,
            },
    {
        match self.warm_pool.take() {
            Some(mut pool) => {
                pool.put(name);
                self.warm_pool = Some(pool);
            },
            None => {},
        }
    }

    /// The start of a step: refuses it on a paused branch, and reserves its
    /// requested budget against the episode account before anything is spent.
    /// The step then waits for a permit, is routed with
    /// [`StepScheduler::route`], and is recorded with
    /// [`StepScheduler::complete`], or refunded where its backend refuses it.
    pub fn execute_step(
        &mut self,
        episode: &EpisodeId,
        branch: &BranchId,
        operation: &str,
        amount: &ResourceBudget,
    ) -> (r: KernelResult<Reservation>)
        ensures
            final(self).same_but_accounts(*old(self)),
            if old(self).paused().contains(branch@) {
                &&& final(self).accounts() == old(self).accounts()
                &&& r matches Err(e) && denied_with(e, paused_denial(branch@, operation@))
            } else if !old(self).accounts().contains_key(episode@) || !amount.within(
                old(self).accounts()[episode@].remaining,
            ) {
                &&& final(self).accounts() == old(self).accounts()
                &&& r matches Err(e) && denied_with(
                    e,
                    budget_denial_view(old(self).accounts(), episode@, operation@, *amount),
                )
            } else {
                &&& r matches Ok(res) && res.episode@ == episode@ && res.amount == *amount
                &&& final(self).accounts() == old(self).accounts().insert(
                    episode@,
                    old(self).accounts()[episode@].reserved(*amount),
                )
            },
    {
        if self.is_paused(branch) {
            let reason = text::cat3(
                "branch `",
                branch.as_str(),
                "` is idle-paused; resume it first",
            );
            return Err(
                KernelError::Denied(
                    Box::new(
                        Denial::bare(DenialCode::PolicyForbidden, operation, reason, true),
                    ),
                ),
            );
        }
        match self.reserve(episode, amount) {
            Ok(_) => Ok(Reservation { episode: episode.clone(), amount: *amount }),
            Err(short) => {
                let list = text::join(&short, ", ");
                let reason = text::cat5(
                    "episode `",
                    episode.as_str(),
                    "` budget cannot cover this step's requested budget (insufficient: ",
                    list.as_str(),
                    ")",
                );
                Err(
                    KernelError::Denied(
                        Box::new(
                            Denial::bare(DenialCode::BudgetExhausted, operation, reason, true),
                        ),
                    ),
                )
            },
        }
    }

    /// Routes an admitted step to the cheapest satisfying backend, by its place
    /// in the order of registration. A step that cannot be routed gets its
    /// reservation back.
    pub fn route(&mut self, reservation: &Reservation, risk: RiskTier, needs: &Needs) -> (r:
        KernelResult<usize>)
        ensures
            final(self).same_but_accounts(*old(self)),
            match r {
                Ok(i) => {
                    &&& chosen(old(self).backends(), risk, *needs, i as int)
                    &&& final(self).accounts() == old(self).accounts()
                },
                Err(e) => {
                    &&& routing_error(e)
                    &&& forall|j: int|
                        0 <= j < old(self).backends().len() ==> !eligible(
                            #[trigger] old(self).backends()[j],
                            risk,
                            *needs,
                        )
                    &&& final(self).accounts() == if old(self).accounts().contains_key(
                        reservation.episode@,
                    ) {
                        old(self).accounts().insert(
                            reservation.episode@,
                            old(self).accounts()[reservation.episode@].refunded(
                                reservation.amount,
                            ),
                        )
                    } else {
                        old(self).accounts()
                    }
                },
            },
    {
        match self.router.route(risk, needs) {
            Ok(i) => Ok(i),
            Err(e) => {
                self.refund(&reservation.episode, &reservation.amount);
                Err(e)
            },
        }
    }

    /// Records an executed step: settles the reservation to the actual usage and
    /// keeps the accounting entry. Returns the overrun dimensions.
    pub fn complete(&mut self, reservation: &Reservation, record: StepRecord) -> (over: Vec<
        &'static str,
    >)
        ensures
            final(self).backends() == old(self).backends(),
            final(self).fanout() == old(self).fanout(),
            final(self).pool() == old(self).pool(),
            final(self).default_budget() == old(self).default_budget(),
            final(self).paused() == old(self).paused(),
            final(self).log() == old(self).log().push(record),
            if old(self).accounts().contains_key(reservation.episode@) {
                &&& over@ == record.usage.over_names(reservation.amount)
                &&& final(self).accounts() == old(self).accounts().insert(
                    reservation.episode@,
                    old(self).accounts()[reservation.episode@].settled(
                        reservation.amount,
                        record.usage,
                    ),
                )
            } else {
                &&& over@.len() == 0
                &&& final(self).accounts() == old(self).accounts()
            },
    {
        let over = self.settle(&reservation.episode, &reservation.amount, &record.usage);
        self.records.push(record);
        over
    }

    /// The step-boundary accounting records for the ledger.
    pub fn records(&self) -> (r: &Vec<StepRecord>)
        ensures
            r@ == self.log(),
    {
        &self.records
    }
}

/// What was reserved and returned unused leaves the account as it was.
pub proof fn law_refund_undoes_the_reservation(a: BudgetAccount, amount: ResourceBudget)
    requires
        amount.within(a.remaining),
    ensures
        a.reserved(amount).refunded(amount) == a,
{
    crate::budget::law_refund_restores(a.remaining, amount);
}

/// A step is charged exactly what it used, less or more than its reservation: the
/// unused part comes back, an overrun is taken from what remains, down to nothing.
pub proof fn law_settling_charges_the_usage(
    a: BudgetAccount,
    amount: ResourceBudget,
    usage: ResourceBudget,
)
    requires
        amount.within(a.remaining),
    ensures
        a.reserved(amount).settled(amount, usage).remaining == a.remaining.minus(usage),
        a.reserved(amount).settled(amount, usage).spent == a.spent.plus(usage),
{
}

/// Two steps are admitted together only if the account covers both: after one
/// amount was reserved, another fits only into what is left.
pub proof fn law_reservations_never_jointly_overdraw(
    a: BudgetAccount,
    first: ResourceBudget,
    second: ResourceBudget,
)
    requires
        first.within(a.remaining),
        second.within(a.reserved(first).remaining),
    ensures
        first.cpu_ms + second.cpu_ms <= a.remaining.cpu_ms,
        first.memory_bytes + second.memory_bytes <= a.remaining.memory_bytes,
        first.network_bytes + second.network_bytes <= a.remaining.network_bytes,
        first.tokens + second.tokens <= a.remaining.tokens,
        first.cost_micro_usd + second.cost_micro_usd <= a.remaining.cost_micro_usd,
        first.risk_units + second.risk_units <= a.remaining.risk_units,
{
}

impl BudgetAccount {
    /// What remains and what was spent make up the envelope.
    pub open spec fn makes_up(self, envelope: ResourceBudget) -> bool {
        &&& self.remaining.cpu_ms + self.spent.cpu_ms == envelope.cpu_ms
        &&& self.remaining.memory_bytes + self.spent.memory_bytes == envelope.memory_bytes
        &&& self.remaining.network_bytes + self.spent.network_bytes == envelope.network_bytes
        &&& self.remaining.tokens + self.spent.tokens == envelope.tokens
        &&& self.remaining.cost_micro_usd + self.spent.cost_micro_usd == envelope.cost_micro_usd
        &&& self.remaining.risk_units + self.spent.risk_units == envelope.risk_units
    }
}

/// An account never loses track of its envelope: as long as steps stay within
/// their reservations, what remains and what was spent make it up.
pub proof fn law_spend_and_remainder_add_up(
    a: BudgetAccount,
    amount: ResourceBudget,
    usage: ResourceBudget,
    envelope: ResourceBudget,
)
    requires
        amount.within(a.remaining),
        usage.within(amount),
        a.makes_up(envelope),
    ensures
        a.reserved(amount).settled(amount, usage).makes_up(envelope),
{
}

/// One episode's steps touch no other episode's account.
pub proof fn law_accounts_are_isolated(
    accounts: Map<Seq<char>, BudgetAccount>,
    episode: Seq<char>,
    other: Seq<char>,
    amount: ResourceBudget,
    usage: ResourceBudget,
)
    requires
        accounts.contains_key(other),
        episode != other,
    ensures
        accounts.insert(episode, accounts[episode].reserved(amount))[other] == accounts[other],
        accounts.insert(episode, accounts[episode].settled(amount, usage))[other]
            == accounts[other],
{
}

/// A reservation and its refund change what remains, and only that; nothing is spent
/// before it is settled.
pub proof fn law_reservations_spend_nothing(a: BudgetAccount, amount: ResourceBudget)
    requires
        amount.within(a.remaining),
    ensures
        a.reserved(amount).spent == a.spent,
        a.refunded(amount).spent == a.spent,
        a.reserved(amount).remaining.cpu_ms + amount.cpu_ms == a.remaining.cpu_ms,
        a.reserved(amount).remaining.memory_bytes + amount.memory_bytes == a.remaining.memory_bytes,
        a.reserved(amount).remaining.network_bytes + amount.network_bytes
            == a.remaining.network_bytes,
        a.reserved(amount).remaining.tokens + amount.tokens == a.remaining.tokens,
        a.reserved(amount).remaining.cost_micro_usd + amount.cost_micro_usd
            == a.remaining.cost_micro_usd,
        a.reserved(amount).remaining.risk_units + amount.risk_units == a.remaining.risk_units,
{
}

/// A denial for want of budget names exactly the dimensions that are short; an
/// episode without an account is short of everything.
pub proof fn law_shortages_are_all_named(
    accounts: Map<Seq<char>, BudgetAccount>,
    episode: Seq<char>,
    operation: Seq<char>,
    amount: ResourceBudget,
)
    ensures
        !accounts.contains_key(episode) ==> shortage(accounts, episode, amount)
            == seq!["unknown_episode"@],
        accounts.contains_key(episode) ==> ({
            let left = accounts[episode].remaining;
            let short = shortage(accounts, episode, amount);
            &&& amount.cpu_ms > left.cpu_ms ==> short.contains("cpu_ms"@)
            &&& amount.memory_bytes > left.memory_bytes ==> short.contains("memory_bytes"@)
            &&& amount.network_bytes > left.network_bytes ==> short.contains("network_bytes"@)
            &&& amount.tokens > left.tokens ==> short.contains("tokens"@)
            &&& amount.cost_micro_usd > left.cost_micro_usd ==> short.contains("cost_micro_usd"@)
            &&& amount.risk_units > left.risk_units ==> short.contains("risk_units"@)
            &&& short.len() == 0 <==> amount.cpu_ms <= left.cpu_ms && amount.memory_bytes
                <= left.memory_bytes && amount.network_bytes <= left.network_bytes
                && amount.tokens <= left.tokens && amount.cost_micro_usd <= left.cost_micro_usd
                && amount.risk_units <= left.risk_units
        }),
        ({
            let d = budget_denial_view(accounts, episode, operation, amount);
            &&& d.code is BudgetExhausted
            &&& d.attempted_operation == operation
            &&& d.escalation_allowed
            &&& d.safe_alternatives.len() == 0 && d.requestable_scopes.len() == 0
            &&& d.reason == "episode `"@ + episode
                + "` budget cannot cover this step's requested budget (insufficient: "@
                + text::joined(shortage(accounts, episode, amount), ", "@) + ")"@
        }),
{
    if accounts.contains_key(episode) {
        let left = accounts[episode].remaining;
        let names = amount.over_names(left);
        let short = shortage(accounts, episode, amount);
        assert(short.len() == names.len());
        assert forall|i: int| 0 <= i < names.len() implies short[i] == (#[trigger] names[i])@ by {}
        let a = if amount.cpu_ms > left.cpu_ms {
            1int
        } else {
            0int
        };
        let b = a + if amount.memory_bytes > left.memory_bytes {
            1int
        } else {
            0int
        };
        let c = b + if amount.network_bytes > left.network_bytes {
            1int
        } else {
            0int
        };
        let d = c + if amount.tokens > left.tokens {
            1int
        } else {
            0int
        };
        let e = d + if amount.cost_micro_usd > left.cost_micro_usd {
            1int
        } else {
            0int
        };
        if amount.cpu_ms > left.cpu_ms {
            assert(names[0] == "cpu_ms");
            assert(short[0] == "cpu_ms"@);
        }
        if amount.memory_bytes > left.memory_bytes {
            assert(names[a] == "memory_bytes");
            assert(short[a] == "memory_bytes"@);
        }
        if amount.network_bytes > left.network_bytes {
            assert(names[b] == "network_bytes");
            assert(short[b] == "network_bytes"@);
        }
        if amount.tokens > left.tokens {
            assert(names[c] == "tokens");
            assert(short[c] == "tokens"@);
        }
        if amount.cost_micro_usd > left.cost_micro_usd {
            assert(names[d] == "cost_micro_usd");
            assert(short[d] == "cost_micro_usd"@);
        }
        if amount.risk_units > left.risk_units {
            assert(names[e] == "risk_units");
            assert(short[e] == "risk_units"@);
        }
    }
}

/// A paused branch is denied its steps until it is resumed.
pub proof fn law_paused_branches_are_told_so(branch: Seq<char>, operation: Seq<char>)
    ensures
        paused_denial(branch, operation).code is PolicyForbidden,
        paused_denial(branch, operation).attempted_operation == operation,
        paused_denial(branch, operation).escalation_allowed,
        paused_denial(branch, operation).reason == "branch `"@ + branch
            + "` is idle-paused; resume it first"@,
        paused_denial(branch, operation).safe_alternatives.len() == 0,
        paused_denial(branch, operation).requestable_scopes.len() == 0,
{
}

/// The backend to keep warm for a fan-out can fork, none that can is cheaper by its
/// cold start and isolation, and of equals it is the first; there is none only where
/// no backend can fork.
pub proof fn law_warm_backend_is_the_cheapest_that_forks(profiles: Seq<BackendProfile>, n: nat)
    requires
        n <= profiles.len(),
    ensures
        cheapest_fork(profiles, n) matches Some(b) ==> {
            &&& 0 <= b < n && profiles[b].supports_fork
            &&& forall|i: int|
                0 <= i < n && (#[trigger] profiles[i]).supports_fork ==> profiles[b].cold_start_ms
                    + 10 * profiles[b].isolation_strength <= profiles[i].cold_start_ms + 10
                    * profiles[i].isolation_strength
            &&& forall|i: int|
                0 <= i < b && (#[trigger] profiles[i]).supports_fork ==> profiles[b].cold_start_ms
                    + 10 * profiles[b].isolation_strength < profiles[i].cold_start_ms + 10
                    * profiles[i].isolation_strength
        },
        cheapest_fork(profiles, n) is None <==> forall|i: int|
            0 <= i < n ==> !(#[trigger] profiles[i]).supports_fork,
    decreases n,
{
    if n > 0 {
        law_warm_backend_is_the_cheapest_that_forks(profiles, (n - 1) as nat);
        if cheapest_fork(profiles, (n - 1) as nat) is Some {
            let b = cheapest_fork(profiles, (n - 1) as nat)->0;
            assert(profiles[b].supports_fork);
        }
        assert(profiles[n - 1].supports_fork ==> cheapest_fork(profiles, n) is Some);
    }
}

/// A hint that speaks of fanning out warms a backend and no workspaces, one that
/// speaks of building or testing warms workspaces and no backend, and any other
/// nothing.
pub proof fn law_hints_are_taken_by_their_words(
    p: PrewarmPlan,
    profiles: Seq<BackendProfile>,
    lower: Seq<char>,
)
    requires
        planned(p, profiles, lower),
    ensures
        ({
            let fans = text::occurs_in(lower, "fork"@) || text::occurs_in(lower, "fan-out"@)
                || text::occurs_in(lower, "fanout"@) || text::occurs_in(lower, "branch"@)
                || text::occurs_in(lower, "explore"@) || text::occurs_in(lower, "parallel"@);
            let builds = text::occurs_in(lower, "build"@) || text::occurs_in(lower, "test"@)
                || text::occurs_in(lower, "compile"@) || text::occurs_in(lower, "lint"@)
                || text::occurs_in(lower, "install"@);
            &&& p.warm_workspaces == (if !fans && builds {
                2int
            } else {
                0int
            })
            &&& p.warm_backend is Some ==> fans
            &&& fans ==> (p.warm_backend is None <==> forall|i: int|
                0 <= i < profiles.len() ==> !(#[trigger] profiles[i]).supports_fork)
            &&& fans ==> (p.warm_backend matches Some(name) ==> exists|i: int|
                0 <= i < profiles.len() && (#[trigger] profiles[i]).supports_fork
                    && profiles[i].name@ == name@)
        }),
{
    let f = fork_words();
    let w = build_words();
    assert(mentions(lower, f) <==> text::occurs_in(lower, f[0]) || text::occurs_in(lower, f[1])
        || text::occurs_in(lower, f[2]) || text::occurs_in(lower, f[3]) || text::occurs_in(
        lower,
        f[4],
    ) || text::occurs_in(lower, f[5]));
    assert(mentions(lower, w) <==> text::occurs_in(lower, w[0]) || text::occurs_in(lower, w[1])
        || text::occurs_in(lower, w[2]) || text::occurs_in(lower, w[3]) || text::occurs_in(
        lower,
        w[4],
    ));
    law_warm_backend_is_the_cheapest_that_forks(profiles, profiles.len());
    if mentions(lower, f) && cheapest_fork(profiles, profiles.len()) is Some {
        let i = cheapest_fork(profiles, profiles.len())->0;
        assert(p.warm_backend.deep_view() == Some(profiles[i].name@));
        assert(p.warm_backend is Some);
        assert(profiles[i].supports_fork);
    }
}

/// What says that only the accounts, or only the pool, changed says that everything
/// else of the scheduler is as it was.
pub proof fn law_rest_of_the_scheduler_stays(a: StepScheduler, b: StepScheduler)
    ensures
        a.same_but_accounts(b) ==> a.backends() == b.backends() && a.fanout() == b.fanout()
            && a.default_budget() == b.default_budget() && a.log() == b.log() && a.paused()
            == b.paused() && a.pool() == b.pool(),
        a.same_but_pool(b) ==> a.backends() == b.backends() && a.fanout() == b.fanout()
            && a.default_budget() == b.default_budget() && a.log() == b.log() && a.paused()
            == b.paused() && a.accounts() == b.accounts(),
{
}

/// An error that carries a denial carries it whole.
pub proof fn law_denied_steps_carry_their_denial(e: KernelError, d: DenialView)
    requires
        denied_with(e, d),
    ensures
        e matches KernelError::Denied(x) && x@.code == d.code && x@.reason == d.reason
            && x@.attempted_operation == d.attempted_operation && x@.escalation_allowed
            == d.escalation_allowed && x@.requestable_scopes == d.requestable_scopes
            && x@.safe_alternatives == d.safe_alternatives,
{
}

} // verus!
