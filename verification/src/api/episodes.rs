//! Episodes: who owns them, which branches they have, and what they may still
//! spend.
use vstd::prelude::*;
use crate::api::branch::Branch;
use crate::api::kernel::{Kernel, same_but_ledger};
use crate::budget::ResourceBudget;
use crate::error::{KernelError, KernelResult};
use crate::ids::{BranchId, EpisodeId, PrincipalId, StateId};
use crate::json::{Json, Value, object1};
use crate::ledger::event::EventKind;
use crate::ledger::store::{Attribution, grown, missing};
use crate::scheduler::step::{BudgetAccount, StepScheduler};
use crate::table::Table;

verus! {

/// What is kept of an episode.
#[derive(Debug)]
pub struct EpisodeInfo {
    pub root_branch: BranchId,
    pub root_state: StateId,
    pub branches: Vec<BranchId>,
    pub created_by: PrincipalId,
}

/// An episode as a value.
#[verifier::ext_equal]
pub struct EpisodeView {
    pub root_branch: Seq<char>,
    pub root_state: Seq<char>,
    pub branches: Seq<Seq<char>>,
    pub created_by: Seq<char>,
}

impl EpisodeInfo {
    /// The episode as a value.
    pub open spec fn view(&self) -> EpisodeView {
        EpisodeView {
            root_branch: self.root_branch@,
            root_state: self.root_state@,
            branches: branch_names(self.branches@),
            created_by: self.created_by@,
        }
    }
}

/// The identifiers of branches.
pub open spec fn branch_names(branches: Seq<BranchId>) -> Seq<Seq<char>> {
    Seq::new(branches.len(), |i: int| branches[i]@)
}

/// An episode as the stores keep it, with the totals of its budget account.
#[derive(Debug)]
pub struct EpisodeRecord {
    pub id: EpisodeId,
    pub info: EpisodeInfo,
    /// What was still spendable.
    pub remaining: ResourceBudget,
    /// What was settled.
    pub spent: ResourceBudget,
}

impl EpisodeRecord {
    /// The record names its root branch and its creator. One that does not
    /// cannot be authorized correctly.
    pub open spec fn complete(&self) -> bool {
        self.info.root_branch@.len() > 0 && self.info.created_by@.len() > 0
    }

    /// The account with the persisted totals.
    pub open spec fn account(&self) -> BudgetAccount {
        BudgetAccount { remaining: self.remaining, spent: self.spent }
    }
}

/// An episode that was just created.
#[derive(Debug)]
pub struct EpisodeHandle {
    pub episode: EpisodeId,
    pub branch: BranchId,
    pub root: StateId,
}

/// Wire-friendly description of an episode.
#[derive(Debug)]
pub struct EpisodeDescription {
    pub episode: EpisodeId,
    pub root_branch: BranchId,
    pub root_state: StateId,
    pub branches: Vec<Branch>,
    pub created_by: PrincipalId,
    pub remaining_budget: ResourceBudget,
}

/// The episodes that the records list; of two records for one episode the later
/// counts.
pub open spec fn listed(records: Seq<EpisodeRecord>) -> Map<Seq<char>, EpisodeView>
    decreases records.len(),
{
    if records.len() == 0 {
        Map::empty()
    } else if records.last().complete() {
        listed(records.drop_last()).insert(records.last().id@, records.last().info@)
    } else {
        listed(records.drop_last())
    }
}

/// An account from which nothing was spent.
pub open spec fn fresh(budget: ResourceBudget) -> BudgetAccount {
    BudgetAccount { remaining: budget, spent: ResourceBudget::spec_zero() }
}

/// The accounts with one for each episode that the records list, at its persisted
/// totals.
pub open spec fn reopened(
    accounts: Map<Seq<char>, BudgetAccount>,
    records: Seq<EpisodeRecord>,
) -> Map<Seq<char>, BudgetAccount>
    decreases records.len(),
{
    if records.len() == 0 {
        accounts
    } else if records.last().complete() {
        reopened(accounts, records.drop_last()).insert(
            records.last().id@,
            records.last().account(),
        )
    } else {
        reopened(accounts, records.drop_last())
    }
}

/// The record at `i` lists its episode, and no later one does.
pub open spec fn lists(records: Seq<EpisodeRecord>, i: int) -> bool {
    &&& 0 <= i < records.len()
    &&& records[i].complete()
    &&& forall|j: int|
        i < j < records.len() && (#[trigger] records[j]).complete() ==> records[j].id@
            != records[i].id@
}

/// The records hold the episodes: one for each that has an account, with that
/// account's totals, and no other.
pub open spec fn saved_as(
    episodes: Map<Seq<char>, EpisodeView>,
    accounts: Map<Seq<char>, BudgetAccount>,
    records: Seq<EpisodeRecord>,
) -> bool {
    &&& forall|i: int|
        0 <= i < records.len() ==> {
            let id = (#[trigger] records[i]).id@;
            &&& episodes.contains_key(id) && episodes[id] == records[i].info@
            &&& accounts.contains_key(id) && accounts[id] == records[i].account()
        }
    &&& forall|i: int, j: int|
        0 <= i < j < records.len() ==> (#[trigger] records[i]).id@ != (#[trigger] records[j]).id@
    &&& forall|id: Seq<char>|
        episodes.contains_key(id) && accounts.contains_key(id) ==> #[trigger] has_record(
            records,
            id,
        )
}

/// One of the records is that of the episode.
pub open spec fn has_record(records: Seq<EpisodeRecord>, id: Seq<char>) -> bool {
    exists|i: int| 0 <= i < records.len() && (#[trigger] records[i]).id@ == id
}

/// The payload of the event that opens an episode.
pub open spec fn objective_json(objective: Seq<char>) -> Json {
    Json::Object(map!["objective"@ => Json::Text(objective)])
}

/// The episodes with a new fork. A fork of an episode that is not listed is left
/// unlisted.
pub open spec fn with_fork(episodes: Map<Seq<char>, EpisodeView>, fork: Branch) -> Map<
    Seq<char>,
    EpisodeView,
> {
    if episodes.contains_key(fork.episode@) {
        let e = episodes[fork.episode@];
        episodes.insert(
            fork.episode@,
            EpisodeView { branches: e.branches.push(fork.id@), ..e },
        )
    } else {
        episodes
    }
}

/// The episodes that a kernel knows.
#[derive(Debug)]
pub struct Episodes {
    rows: Table<EpisodeInfo>,
}

/// The error for an episode that is not known.
pub open spec fn unknown_episode(e: KernelError, id: Seq<char>) -> bool {
    missing(e, "episode"@, id)
}

fn not_found(episode: &EpisodeId) -> (e: KernelError)
    ensures
        unknown_episode(e, episode@),
{
    KernelError::NotFound { kind: "episode", id: episode.as_str().to_owned() }
}

fn copy_branches(branches: &Vec<BranchId>) -> (r: Vec<BranchId>)
    ensures
        branch_names(r@) == branch_names(branches@),
{
    let mut r: Vec<BranchId> = Vec::new();
    let mut i: usize = 0;
    while i < branches.len()
        invariant
            i <= branches.len(),
            r.len() == i,
            forall|j: int| 0 <= j < i ==> (#[trigger] r@[j])@ == branches@[j]@,
        decreases branches.len() - i,
    {
        r.push(branches[i].clone());
        i = i + 1;
    }
    proof {
        assert(branch_names(r@) =~= branch_names(branches@));
    }
    r
}

impl Episodes {
    /// The episodes by their identifiers.
    pub closed spec fn view(&self) -> Map<Seq<char>, EpisodeView> {
        Map::new(|k: Seq<char>| self.rows@.contains_key(k), |k: Seq<char>| self.rows@[k]@)
    }

    /// No episodes.
    pub fn new() -> (r: Self)
        ensures
            r@ == Map::<Seq<char>, EpisodeView>::empty(),
    {
        let r = Episodes { rows: Table::new() };
        proof {
            assert(r@ =~= Map::<Seq<char>, EpisodeView>::empty());
        }
        r
    }

    fn put(&mut self, episode: &EpisodeId, info: EpisodeInfo)
        ensures
            final(self)@ == old(self)@.insert(episode@, info@),
    {
        self.rows.put(episode.as_str().to_owned(), info);
        proof {
            assert(self@ =~= old(self)@.insert(episode@, info@));
        }
    }

    /// The episodes of the state history, so that the control plane survives
    /// restarts. Each one that is listed has its budget account reopened with the
    /// persisted totals, so that a restart does not refill a spent budget; records
    /// without a root branch or a creator stay unlisted.
    pub fn restore(records: Vec<EpisodeRecord>, scheduler: &mut StepScheduler) -> (r: Self)
        ensures
            r@ == listed(records@),
            final(scheduler).accounts() == reopened(old(scheduler).accounts(), records@),
            final(scheduler).same_but_accounts(*old(scheduler)),
    {
        let mut r = Episodes::new();
        let mut i: usize = 0;
        while i < records.len()
            invariant
                i <= records.len(),
                r@ == listed(records@.take(i as int)),
                scheduler.accounts() == reopened(
                    old(scheduler).accounts(),
                    records@.take(i as int),
                ),
                scheduler.same_but_accounts(*old(scheduler)),
            decreases records.len() - i,
        {
            let record = &records[i];
            proof {
                assert(records@.take(i + 1).drop_last() =~= records@.take(i as int));
                assert(records@.take(i + 1).last() == records@[i as int]);
            }
            if record.info.root_branch.as_str().unicode_len() > 0
                && record.info.created_by.as_str().unicode_len() > 0 {
                scheduler.register_episode(&record.id, record.remaining, record.spent);
                let info = EpisodeInfo {
                    root_branch: record.info.root_branch.clone(),
                    root_state: record.info.root_state.clone(),
                    branches: copy_branches(&record.info.branches),
                    created_by: record.info.created_by.clone(),
                };
                proof {
                    assert(info@ =~= record.info@);
                }
                r.put(&record.id, info);
            }
            i = i + 1;
        }
        proof {
            assert(records@.take(records@.len() as int) =~= records@);
        }
        r
    }

    /// The records to persist: each episode with the totals of its budget account.
    /// An episode without an account is over.
    pub fn records(&self, scheduler: &StepScheduler) -> (r: Vec<EpisodeRecord>)
        ensures
            saved_as(self@, scheduler.accounts(), r@),
    {
        let n = self.rows.len();
        let ghost ks = self.rows.keys();
        let mut out: Vec<EpisodeRecord> = Vec::new();
        let mut i: usize = 0;
        while i < n
            invariant
                i <= n,
                n == ks.len(),
                ks == self.rows.keys(),
                self.rows.keyed(),
                forall|j: int|
                    0 <= j < out@.len() ==> {
                        let id = (#[trigger] out@[j]).id@;
                        &&& self@.contains_key(id) && self@[id] == out@[j].info@
                        &&& scheduler.accounts().contains_key(id) && scheduler.accounts()[id]
                            == out@[j].account()
                        &&& ks.take(i as int).contains(id)
                    },
                forall|a: int, b: int|
                    0 <= a < b < out@.len() ==> (#[trigger] out@[a]).id@ != (#[trigger] out@[b]).id@,
                forall|j: int|
                    0 <= j < i && scheduler.accounts().contains_key(#[trigger] ks[j])
                        ==> has_record(out@, ks[j]),
            decreases n - i,
        {
            let (key, info) = self.rows.at(i);
            let id = EpisodeId(key.clone());
            let ghost before = out@;
            proof {
                assert(id@ == ks[i as int]);
                assert(ks.take(i + 1)[i as int] == ks[i as int]);
                assert forall|j: int| 0 <= j < before.len() implies ks.take(i + 1).contains(
                    (#[trigger] before[j]).id@,
                ) && before[j].id@ != id@ by {
                    let k = ks.take(i as int).index_of(before[j].id@);
                    assert(ks.take(i + 1)[k] == before[j].id@);
                    assert(ks[k] == before[j].id@);
                }
            }
            if let Some(account) = scheduler.budget_account(&id) {
                let copy = EpisodeInfo {
                    root_branch: info.root_branch.clone(),
                    root_state: info.root_state.clone(),
                    branches: copy_branches(&info.branches),
                    created_by: info.created_by.clone(),
                };
                proof {
                    assert(copy@ =~= info@);
                }
                out.push(
                    EpisodeRecord {
                        id,
                        info: copy,
                        remaining: account.remaining,
                        spent: account.spent,
                    },
                );
                proof {
                    assert(out@[before.len() as int].id@ == ks[i as int]);
                    assert(has_record(out@, ks[i as int]));
                }
            }
            proof {
                assert forall|j: int|
                    0 <= j < i + 1 && scheduler.accounts().contains_key(
                        #[trigger] ks[j],
                    ) implies has_record(out@, ks[j]) by {
                    if j < i {
                        let k = choose|k: int|
                            0 <= k < before.len() && (#[trigger] before[k]).id@ == ks[j];
                        assert(out@[k].id@ == ks[j]);
                    }
                }
            }
            i = i + 1;
        }
        proof {
            assert forall|id: Seq<char>|
                self@.contains_key(id) && scheduler.accounts().contains_key(
                    id,
                ) implies #[trigger] has_record(out@, id) by {
                let j = ks.index_of(id);
                assert(ks[j] == id);
            }
        }
        out
    }

    /// The principal that created `episode` (the resource owner for
    /// authorization purposes).
    pub fn episode_owner(&self, episode: &EpisodeId) -> (r: KernelResult<PrincipalId>)
        ensures
            match r {
                Ok(p) => self@.contains_key(episode@) && p@ == self@[episode@].created_by,
                Err(e) => !self@.contains_key(episode@) && unknown_episode(e, episode@),
            },
    {
        match self.rows.get(episode.as_str()) {
            Some(i) => Ok(i.created_by.clone()),
            None => Err(not_found(episode)),
        }
    }

    /// The owner of the episode a branch belongs to.
    pub fn branch_owner(&self, branch: &Branch) -> (r: KernelResult<PrincipalId>)
        ensures
            match r {
                Ok(p) => self@.contains_key(branch.episode@) && p@
                    == self@[branch.episode@].created_by,
                Err(e) => !self@.contains_key(branch.episode@) && unknown_episode(
                    e,
                    branch.episode@,
                ),
            },
    {
        self.episode_owner(&branch.episode)
    }

    /// The branches of an episode, in the order in which they came.
    pub fn branches_of(&self, episode: &EpisodeId) -> (r: KernelResult<&Vec<BranchId>>)
        ensures
            match r {
                Ok(b) => self@.contains_key(episode@) && branch_names(b@)
                    == self@[episode@].branches,
                Err(e) => !self@.contains_key(episode@) && unknown_episode(e, episode@),
            },
    {
        match self.rows.get(episode.as_str()) {
            Some(i) => Ok(&i.branches),
            None => Err(not_found(episode)),
        }
    }

    /// Adds a new fork to its episode.
    pub fn add_fork(&mut self, fork: &Branch)
        ensures
            final(self)@ == with_fork(old(self)@, *fork),
    {
        let info = match self.rows.get(fork.episode.as_str()) {
            Some(i) => {
                let mut branches = copy_branches(&i.branches);
                let ghost before = branches@;
                branches.push(fork.id.clone());
                proof {
                    assert(branch_names(branches@) =~= branch_names(before).push(fork.id@));
                }
                EpisodeInfo {
                    root_branch: i.root_branch.clone(),
                    root_state: i.root_state.clone(),
                    branches,
                    created_by: i.created_by.clone(),
                }
            },
            None => return,
        };
        self.put(&fork.episode, info);
    }

    /// Describe an episode: branches and remaining budget. `branches` are those
    /// of [`Episodes::branches_of`], as the state history has them.
    pub fn describe_episode(
        &self,
        episode: &EpisodeId,
        branches: Vec<Branch>,
        scheduler: &StepScheduler,
    ) -> (r: KernelResult<EpisodeDescription>)
        ensures
            match r {
                Ok(d) => {
                    &&& self@.contains_key(episode@)
                    &&& d.episode@ == episode@
                    &&& d.root_branch@ == self@[episode@].root_branch
                    &&& d.root_state@ == self@[episode@].root_state
                    &&& d.branches == branches
                    &&& d.created_by@ == self@[episode@].created_by
                    &&& d.remaining_budget == if scheduler.accounts().contains_key(episode@) {
                        scheduler.accounts()[episode@].remaining
                    } else {
                        ResourceBudget::spec_zero()
                    }
                },
                Err(e) => !self@.contains_key(episode@) && unknown_episode(e, episode@),
            },
    {
        let i = match self.rows.get(episode.as_str()) {
            Some(i) => i,
            None => return Err(not_found(episode)),
        };
        let remaining_budget = match scheduler.remaining_budget(episode) {
            Some(b) => b,
            None => ResourceBudget::zero(),
        };
        Ok(
            EpisodeDescription {
                episode: episode.clone(),
                root_branch: i.root_branch.clone(),
                root_state: i.root_state.clone(),
                branches,
                created_by: i.created_by.clone(),
                remaining_budget,
            },
        )
    }
}

impl Kernel {
    /// Enter a new episode: its own budget account (budgets are per-episode,
    /// not scheduler-global), its root branch, its owner, and an `Objective`
    /// ledger event.
    pub fn create_episode(
        &mut self,
        episodes: &mut Episodes,
        scheduler: &mut StepScheduler,
        actor: &PrincipalId,
        handle: &EpisodeHandle,
        objective: &str,
        now: crate::time::Timestamp,
    )
        requires
            old(self).wf(),
            old(self).ledger.has_room(),
        ensures
            final(self).wf(),
            same_but_ledger(*final(self), *old(self)),
            final(episodes)@ == old(episodes)@.insert(
                handle.episode@,
                (EpisodeView {
                    root_branch: handle.branch@,
                    root_state: handle.root@,
                    branches: seq![handle.branch@],
                    created_by: actor@,
                }),
            ),
            final(scheduler).accounts() == old(scheduler).accounts().insert(
                handle.episode@,
                fresh(old(scheduler).default_budget()),
            ),
            final(scheduler).same_but_accounts(*old(scheduler)),
            final(self).ledger.events() == grown(
                old(self).ledger.events(),
                (Attribution {
                    episode: handle.episode@,
                    branch: Some(handle.branch@),
                    step: None,
                    principal: actor@,
                }),
                EventKind::Objective,
                objective_json(objective@),
                Seq::empty(),
                now,
            ),
            final(self).ledger.raw() == old(self).ledger.raw(),
            final(self).ledger.receipts() == old(self).ledger.receipts(),
    {
        scheduler.register_episode_default(&handle.episode);
        let mut branches: Vec<BranchId> = Vec::new();
        branches.push(handle.branch.clone());
        let info = EpisodeInfo {
            root_branch: handle.branch.clone(),
            root_state: handle.root.clone(),
            branches,
            created_by: actor.clone(),
        };
        proof {
            assert(info@.branches =~= seq![handle.branch@]);
        }
        episodes.put(&handle.episode, info);
        let writer = self.ledger.writer(
            handle.episode.clone(),
            Some(handle.branch.clone()),
            None,
            actor.clone(),
        );
        let payload = object1("objective", Value::text(objective));
        writer.record(&mut self.ledger, EventKind::Objective, payload, now);
    }
}

/// After a restart an episode that is listed has its owner and its root branch,
/// and a budget account with the totals that were persisted: what was spent stays
/// spent.
pub proof fn law_restored_episodes_are_accounted(
    accounts: Map<Seq<char>, BudgetAccount>,
    records: Seq<EpisodeRecord>,
    i: int,
)
    requires
        lists(records, i),
    ensures
        listed(records).contains_key(records[i].id@),
        listed(records)[records[i].id@] == records[i].info@,
        reopened(accounts, records).contains_key(records[i].id@),
        reopened(accounts, records)[records[i].id@] == records[i].account(),
    decreases records.len(),
{
    if i < records.len() - 1 {
        let before = records.drop_last();
        assert forall|j: int| i < j < before.len() && (#[trigger] before[j]).complete() implies
            before[j].id@ != before[i].id@ by {
            assert(records[j].complete());
        }
        law_restored_episodes_are_accounted(accounts, before, i);
    }
}

/// After a restart no other episode is listed, and the accounts of those that are
/// not stay as they were.
pub proof fn law_only_recorded_episodes_are_listed(
    accounts: Map<Seq<char>, BudgetAccount>,
    records: Seq<EpisodeRecord>,
    episode: Seq<char>,
)
    ensures
        listed(records).contains_key(episode) ==> exists|i: int|
            #[trigger] lists(records, i) && records[i].id@ == episode,
        !listed(records).contains_key(episode) ==> reopened(accounts, records).contains_key(episode)
            == accounts.contains_key(episode),
        !listed(records).contains_key(episode) && accounts.contains_key(episode) ==> reopened(
            accounts,
            records,
        )[episode] == accounts[episode],
    decreases records.len(),
{
    if records.len() > 0 {
        let before = records.drop_last();
        law_only_recorded_episodes_are_listed(accounts, before, episode);
        if records.last().complete() && records.last().id@ == episode {
            assert(lists(records, records.len() - 1));
        } else if listed(records).contains_key(episode) {
            let i = choose|i: int| #[trigger] lists(before, i) && before[i].id@ == episode;
            assert forall|j: int| i < j < records.len() && (#[trigger] records[j]).complete() implies
                records[j].id@ != records[i].id@ by {
                if j < before.len() {
                    assert(before[j].complete());
                }
            }
            assert(lists(records, i));
        }
    }
}

/// What was persisted of the episodes comes back: each one with an account is
/// listed as it was, and its account stands at the very same totals.
pub proof fn law_saved_episodes_come_back(
    episodes: Map<Seq<char>, EpisodeView>,
    accounts: Map<Seq<char>, BudgetAccount>,
    records: Seq<EpisodeRecord>,
    others: Map<Seq<char>, BudgetAccount>,
    id: Seq<char>,
)
    requires
        saved_as(episodes, accounts, records),
        episodes.contains_key(id),
        accounts.contains_key(id),
        episodes[id].root_branch.len() > 0,
        episodes[id].created_by.len() > 0,
    ensures
        listed(records).contains_key(id),
        listed(records)[id] == episodes[id],
        reopened(others, records).contains_key(id),
        reopened(others, records)[id] == accounts[id],
{
    assert(has_record(records, id));
    let i = choose|i: int| 0 <= i < records.len() && (#[trigger] records[i]).id@ == id;
    assert(lists(records, i));
    law_restored_episodes_are_accounted(others, records, i);
}

/// An episode keeps its owner whatever forks are added, and a fork is listed
/// with its episode.
pub proof fn law_episode_keeps_its_owner(
    episodes: Map<Seq<char>, EpisodeView>,
    fork: Branch,
    episode: Seq<char>,
)
    requires
        episodes.contains_key(episode),
    ensures
        with_fork(episodes, fork).contains_key(episode),
        with_fork(episodes, fork)[episode].created_by == episodes[episode].created_by,
        episode == fork.episode@ ==> with_fork(episodes, fork)[episode].branches.contains(fork.id@),
{
    let branches = episodes[fork.episode@].branches.push(fork.id@);
    assert(branches.last() == fork.id@);
}

/// A fresh account has its whole budget and has spent nothing.
pub proof fn law_fresh_accounts_have_spent_nothing(budget: ResourceBudget)
    ensures
        fresh(budget).remaining == budget,
        fresh(budget).spent.cpu_ms == 0 && fresh(budget).spent.memory_bytes == 0,
        fresh(budget).spent.network_bytes == 0 && fresh(budget).spent.tokens == 0,
        fresh(budget).spent.cost_micro_usd == 0 && fresh(budget).spent.risk_units == 0,
{
}

/// A fork is listed last with its episode, and changes nothing else: no other episode,
/// and not its own root.
pub proof fn law_forks_are_listed_last(
    episodes: Map<Seq<char>, EpisodeView>,
    fork: Branch,
    other: Seq<char>,
)
    ensures
        other != fork.episode@ ==> (with_fork(episodes, fork).contains_key(other)
            <==> episodes.contains_key(other)),
        other != fork.episode@ && episodes.contains_key(other) ==> with_fork(episodes, fork)[other]
            == episodes[other],
        episodes.contains_key(fork.episode@) ==> with_fork(episodes, fork)[fork.episode@].branches
            == episodes[fork.episode@].branches.push(fork.id@),
        episodes.contains_key(fork.episode@) ==> with_fork(episodes, fork)[fork.episode@].root_branch
            == episodes[fork.episode@].root_branch && with_fork(
            episodes,
            fork,
        )[fork.episode@].root_state == episodes[fork.episode@].root_state,
        !episodes.contains_key(fork.episode@) ==> with_fork(episodes, fork) == episodes,
{
}

/// A record is taken only with a root branch and a creator.
pub proof fn law_incomplete_records_are_left_out(
    records: Seq<EpisodeRecord>,
    record: EpisodeRecord,
    accounts: Map<Seq<char>, BudgetAccount>,
)
    ensures
        record.info.root_branch@.len() == 0 || record.info.created_by@.len() == 0 ==> listed(
            records.push(record),
        ) == listed(records) && reopened(accounts, records.push(record)) == reopened(
            accounts,
            records,
        ),
        record.info.root_branch@.len() > 0 && record.info.created_by@.len() > 0 ==> listed(
            records.push(record),
        )[record.id@] == record.info@ && reopened(accounts, records.push(record))[record.id@].remaining
            == record.remaining && reopened(accounts, records.push(record))[record.id@].spent
            == record.spent,
{
    assert(records.push(record).drop_last() =~= records);
}

} // verus!
