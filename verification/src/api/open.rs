//! Opening a kernel over what an earlier run persisted.
use vstd::prelude::*;
use crate::api::episodes::{EpisodeRecord, EpisodeView, Episodes, listed, reopened, saved_as};
use crate::api::kernel::Kernel;
use crate::broker::effects::{EffectRow, broken_store};
use crate::broker::model::{BrokerView, Gate, ReceiptRowView, gate, restored};
use crate::effect::Receipt;
use crate::error::{KernelError, KernelResult};
use crate::identity::keys::KernelKeypair;
use crate::ids::EffectId;
use crate::ledger::event::LedgerEvent;
use crate::ledger::store::{Ledger, in_sequence};
use crate::policy::document::PolicyDocument;
use crate::policy::engine::PolicyEngine;
use crate::scheduler::router::BackendRouter;
use crate::scheduler::step::{BudgetAccount, SchedulerConfig, StepScheduler};

verus! {

/// A receipt as the effect store keeps it.
#[derive(Debug)]
pub struct SavedReceipt {
    pub receipt: Receipt,
    pub effect: EffectId,
    pub key: String,
    pub compensating: bool,
}

impl SavedReceipt {
    pub open spec fn view(&self) -> ReceiptRowView {
        ReceiptRowView {
            receipt: self.receipt@,
            effect: self.effect@,
            key: self.key@,
            compensating: self.compensating,
        }
    }
}

/// What an earlier run persisted.
#[derive(Debug)]
pub struct Saved {
    /// The ledger, in sequence.
    pub events: Vec<LedgerEvent>,
    pub receipts: Vec<SavedReceipt>,
    /// The effects, in the order of their proposal.
    pub effects: Vec<EffectRow>,
    /// The commit claims: each claimed key with the effect that holds it.
    pub claims: Vec<(String, EffectId)>,
    pub episodes: Vec<EpisodeRecord>,
}

/// A kernel, with the scheduler and the episodes that belong to it.
pub struct Opened {
    pub kernel: Kernel,
    pub scheduler: StepScheduler,
    pub episodes: Episodes,
}

/// The store with the receipts taken in; `None` where an identifier occurs twice,
/// or a key has two committed receipts.
pub open spec fn with_receipts(b: BrokerView, rows: Seq<SavedReceipt>) -> Option<BrokerView>
    decreases rows.len(),
{
    if rows.len() == 0 {
        Some(b)
    } else {
        let row = rows.last()@;
        match with_receipts(b, rows.drop_last()) {
            Some(x) if !x.receipts.contains_key(row.receipt.id) && (row.compensating
                || !x.has_receipt(row.key)) => Some(
                BrokerView { receipts: x.receipts.insert(row.receipt.id, row), ..x },
            ),
            _ => None,
        }
    }
}

/// The store with the effects taken in, as they are; `None` where an identifier
/// occurs twice.
pub open spec fn with_effects(b: BrokerView, rows: Seq<EffectRow>) -> Option<BrokerView>
    decreases rows.len(),
{
    if rows.len() == 0 {
        Some(b)
    } else {
        match with_effects(b, rows.drop_last()) {
            Some(x) if !x.effects.contains_key(rows.last()@.effect.id) => Some(
                restored(x, rows.last()@),
            ),
            _ => None,
        }
    }
}

/// The store with the claims taken in; `None` where a key occurs twice.
pub open spec fn with_claims(b: BrokerView, rows: Seq<(String, EffectId)>) -> Option<BrokerView>
    decreases rows.len(),
{
    if rows.len() == 0 {
        Some(b)
    } else {
        match with_claims(b, rows.drop_last()) {
            Some(x) if !x.claims.contains_key(rows.last().0@) => Some(
                BrokerView { claims: x.claims.insert(rows.last().0@, rows.last().1@), ..x },
            ),
            _ => None,
        }
    }
}

/// The store without rows or connectors.
pub open spec fn empty_store() -> BrokerView {
    BrokerView {
        connectors: Set::empty(),
        effects: Map::empty(),
        order: Seq::empty(),
        receipts: Map::empty(),
        claims: Map::empty(),
    }
}

/// The effect store that was persisted; `None` where its rows contradict each
/// other.
pub open spec fn saved_store(saved: Saved) -> Option<BrokerView> {
    match with_receipts(empty_store(), saved.receipts@) {
        Some(b) => match with_effects(b, saved.effects@) {
            Some(c) => with_claims(c, saved.claims@),
            None => None,
        },
        None => None,
    }
}

proof fn lemma_receipts_refused(b: BrokerView, rows: Seq<SavedReceipt>, n: int)
    requires
        0 <= n <= rows.len(),
        with_receipts(b, rows.take(n)) is None,
    ensures
        with_receipts(b, rows) is None,
    decreases rows.len() - n,
{
    if n < rows.len() {
        assert(rows.take(n + 1).drop_last() =~= rows.take(n));
        lemma_receipts_refused(b, rows, n + 1);
    } else {
        assert(rows.take(n) =~= rows);
    }
}

proof fn lemma_effects_refused(b: BrokerView, rows: Seq<EffectRow>, n: int)
    requires
        0 <= n <= rows.len(),
        with_effects(b, rows.take(n)) is None,
    ensures
        with_effects(b, rows) is None,
    decreases rows.len() - n,
{
    if n < rows.len() {
        assert(rows.take(n + 1).drop_last() =~= rows.take(n));
        lemma_effects_refused(b, rows, n + 1);
    } else {
        assert(rows.take(n) =~= rows);
    }
}

proof fn lemma_claims_refused(b: BrokerView, rows: Seq<(String, EffectId)>, n: int)
    requires
        0 <= n <= rows.len(),
        with_claims(b, rows.take(n)) is None,
    ensures
        with_claims(b, rows) is None,
    decreases rows.len() - n,
{
    if n < rows.len() {
        assert(rows.take(n + 1).drop_last() =~= rows.take(n));
        lemma_claims_refused(b, rows, n + 1);
    } else {
        assert(rows.take(n) =~= rows);
    }
}

impl Kernel {
    /// Nothing changed but the effect store.
    spec fn same_but_store(self, other: Kernel) -> bool {
        &&& self.registry == other.registry
        &&& self.leases == other.leases
        &&& self.policy == other.policy
        &&& self.ledger == other.ledger
        &&& self.public_key == other.public_key
        &&& self.op_classes == other.op_classes
        &&& self.connector_names == other.connector_names
        &&& self.broker.spec_signer() == other.broker.spec_signer()
    }

    fn take_receipts(&mut self, rows: &Vec<SavedReceipt>) -> (r: KernelResult<()>)
        requires
            old(self).wf(),
        ensures
            final(self).wf(),
            final(self).same_but_store(*old(self)),
            match r {
                Ok(_) => with_receipts(old(self).broker@, rows@) == Some(final(self).broker@),
                Err(e) => with_receipts(old(self).broker@, rows@) is None && broken_store(e),
            },
    {
        let mut i: usize = 0;
        while i < rows.len()
            invariant
                i <= rows.len(),
                self.wf(),
                self.same_but_store(*old(self)),
                with_receipts(old(self).broker@, rows@.take(i as int)) == Some(self.broker@),
            decreases rows.len() - i,
        {
            let row = &rows[i];
            proof {
                assert(rows@.take(i + 1).drop_last() =~= rows@.take(i as int));
                assert(rows@.take(i + 1).last() == rows@[i as int]);
            }
            if let Err(e) = self.broker.restore_receipt(
                row.receipt.clone(),
                row.effect.clone(),
                row.key.clone(),
                row.compensating,
            ) {
                proof {
                    lemma_receipts_refused(old(self).broker@, rows@, i + 1);
                }
                return Err(e);
            }
            i = i + 1;
        }
        proof {
            assert(rows@.take(rows@.len() as int) =~= rows@);
        }
        Ok(())
    }

    fn take_effects(&mut self, rows: &Vec<EffectRow>) -> (r: KernelResult<()>)
        requires
            old(self).wf(),
        ensures
            final(self).wf(),
            final(self).same_but_store(*old(self)),
            match r {
                Ok(_) => with_effects(old(self).broker@, rows@) == Some(final(self).broker@),
                Err(e) => with_effects(old(self).broker@, rows@) is None && broken_store(e),
            },
    {
        let mut i: usize = 0;
        while i < rows.len()
            invariant
                i <= rows.len(),
                self.wf(),
                self.same_but_store(*old(self)),
                with_effects(old(self).broker@, rows@.take(i as int)) == Some(self.broker@),
            decreases rows.len() - i,
        {
            proof {
                assert(rows@.take(i + 1).drop_last() =~= rows@.take(i as int));
                assert(rows@.take(i + 1).last() == rows@[i as int]);
            }
            if let Err(e) = self.broker.restore_effect(rows[i].copied()) {
                proof {
                    lemma_effects_refused(old(self).broker@, rows@, i + 1);
                }
                return Err(e);
            }
            i = i + 1;
        }
        proof {
            assert(rows@.take(rows@.len() as int) =~= rows@);
        }
        Ok(())
    }

    fn take_claims(&mut self, rows: &Vec<(String, EffectId)>) -> (r: KernelResult<()>)
        requires
            old(self).wf(),
        ensures
            final(self).wf(),
            final(self).same_but_store(*old(self)),
            match r {
                Ok(_) => with_claims(old(self).broker@, rows@) == Some(final(self).broker@),
                Err(e) => with_claims(old(self).broker@, rows@) is None && broken_store(e),
            },
    {
        let mut i: usize = 0;
        while i < rows.len()
            invariant
                i <= rows.len(),
                self.wf(),
                self.same_but_store(*old(self)),
                with_claims(old(self).broker@, rows@.take(i as int)) == Some(self.broker@),
            decreases rows.len() - i,
        {
            proof {
                assert(rows@.take(i + 1).drop_last() =~= rows@.take(i as int));
                assert(rows@.take(i + 1).last() == rows@[i as int]);
            }
            if let Err(e) = self.broker.restore_claim(rows[i].0.as_str(), rows[i].1.clone()) {
                proof {
                    lemma_claims_refused(old(self).broker@, rows@, i + 1);
                }
                return Err(e);
            }
            i = i + 1;
        }
        proof {
            assert(rows@.take(rows@.len() as int) =~= rows@);
        }
        Ok(())
    }

    /// Open a kernel over what was persisted, so that the control plane survives
    /// restarts: the ledger, the effects with their receipts and claims, and each
    /// listed episode with its budget account at the persisted totals.
    pub fn open(
        saved: Saved,
        policy: PolicyDocument,
        signer: KernelKeypair,
        config: SchedulerConfig,
    ) -> (r: KernelResult<Opened>)
        ensures
            match r {
                Ok(o) => {
                    &&& o.kernel.wf()
                    &&& o.kernel.policy.spec_document() == policy
                    &&& o.kernel.broker.spec_signer() == signer
                    &&& o.kernel.registry@ == Map::<Seq<char>, crate::principal::Principal>::empty()
                    &&& o.kernel.leases@ == Map::<Seq<char>, crate::capability::LeaseView>::empty()
                    &&& o.kernel.op_classes@ == Map::<Seq<char>, crate::effect::EffectClass>::empty()
                    &&& o.kernel.connector_names@.len() == 0
                    &&& o.kernel.ledger.events() == saved.events.deep_view()
                    &&& o.kernel.ledger.raw() == Map::<Seq<char>, Seq<u8>>::empty()
                    &&& o.kernel.ledger.receipts() == Map::<
                        Seq<char>,
                        crate::effect::ReceiptView,
                    >::empty()
                    &&& saved_store(saved) == Some(o.kernel.broker@)
                    &&& o.episodes@ == listed(saved.episodes@)
                    &&& o.scheduler.accounts() == reopened(Map::empty(), saved.episodes@)
                    &&& o.scheduler.default_budget() == config.episode_budget
                    &&& o.scheduler.fanout() == if config.max_concurrent_branches == 0 {
                        1
                    } else {
                        config.max_concurrent_branches
                    }
                    &&& o.scheduler.backends().len() == 0
                    &&& o.scheduler.log().len() == 0
                    &&& o.scheduler.paused() == Set::<Seq<char>>::empty()
                    &&& o.scheduler.pool() is None
                },
                Err(e) => if !in_sequence(saved.events.deep_view()) {
                    e matches KernelError::Storage(m) && m@ == "ledger events are not in sequence"@
                } else {
                    saved_store(saved) is None && broken_store(e)
                },
            },
            r is Ok ==> in_sequence(saved.events.deep_view()),
    {
        let mut kernel = Kernel::new(PolicyEngine::new(policy), signer);
        proof {
            let b = kernel.broker@;
            if b.order.len() > 0 {
                assert(b.order.contains(b.order[0]));
                assert(!b.effects.contains_key(b.order[0]));
            }
            assert(b.order =~= Seq::empty());
            assert(b =~= empty_store());
        }
        kernel.ledger = match Ledger::restore(saved.events) {
            Ok(l) => l,
            Err(e) => {
                return Err(e);
            },
        };
        if let Err(e) = kernel.take_receipts(&saved.receipts) {
            return Err(e);
        }
        if let Err(e) = kernel.take_effects(&saved.effects) {
            return Err(e);
        }
        if let Err(e) = kernel.take_claims(&saved.claims) {
            return Err(e);
        }
        let mut scheduler = StepScheduler::new(BackendRouter::new(), config);
        let episodes = Episodes::restore(saved.episodes, &mut scheduler);
        Ok(Opened { kernel, scheduler, episodes })
    }
}

/// Restarting does not refill a spent budget: where the episodes and their accounts
/// were persisted, a kernel that is opened over them has each listed episode as it
/// was, and its account at the very totals it stood at.
pub proof fn law_restart_keeps_the_budgets(
    episodes: Map<Seq<char>, EpisodeView>,
    accounts: Map<Seq<char>, BudgetAccount>,
    saved: Saved,
    opened: Opened,
    id: Seq<char>,
)
    requires
        saved_as(episodes, accounts, saved.episodes@),
        opened.episodes@ == listed(saved.episodes@),
        opened.scheduler.accounts() == reopened(Map::empty(), saved.episodes@),
        episodes.contains_key(id),
        accounts.contains_key(id),
        episodes[id].root_branch.len() > 0,
        episodes[id].created_by.len() > 0,
    ensures
        opened.episodes@.contains_key(id),
        opened.episodes@[id] == episodes[id],
        opened.scheduler.accounts().contains_key(id),
        opened.scheduler.accounts()[id] == accounts[id],
{
    crate::api::episodes::law_saved_episodes_come_back(
        episodes,
        accounts,
        saved.episodes@,
        Map::empty(),
        id,
    );
}

proof fn lemma_effects_there(b: BrokerView, rows: Seq<EffectRow>, i: int)
    requires
        with_effects(b, rows) is Some,
        0 <= i < rows.len(),
    ensures
        with_effects(b, rows)->0.effects.contains_key(rows[i]@.effect.id),
        with_effects(b, rows)->0.effects[rows[i]@.effect.id] == rows[i]@,
    decreases rows.len(),
{
    if i < rows.len() - 1 {
        lemma_effects_there(b, rows.drop_last(), i);
    }
}

proof fn lemma_claims_there(b: BrokerView, rows: Seq<(String, EffectId)>, i: int)
    requires
        with_claims(b, rows) is Some,
        0 <= i < rows.len(),
    ensures
        with_claims(b, rows)->0.claims.contains_key(rows[i].0@),
        with_claims(b, rows)->0.claims[rows[i].0@] == rows[i].1@,
    decreases rows.len(),
{
    if i < rows.len() - 1 {
        lemma_claims_there(b, rows.drop_last(), i);
    }
}

proof fn lemma_claims_spare_the_effects(b: BrokerView, rows: Seq<(String, EffectId)>)
    requires
        with_claims(b, rows) is Some,
    ensures
        with_claims(b, rows)->0.effects == b.effects,
    decreases rows.len(),
{
    if rows.len() > 0 {
        lemma_claims_spare_the_effects(b, rows.drop_last());
    }
}

/// A restart changes no effect. One that was being committed is in doubt, whatever
/// the policy and the lease say by then.
pub proof fn law_restart_keeps_the_effects(saved: Saved, i: int, epoch: u64, live: bool)
    requires
        saved_store(saved) is Some,
        0 <= i < saved.effects@.len(),
    ensures
        ({
            let b = saved_store(saved)->0;
            let row = saved.effects@[i]@;
            &&& b.effects.contains_key(row.effect.id)
            &&& b.effects[row.effect.id] == row
            &&& row.effect.phase is Committing ==> gate(b, row.effect.id, epoch, live)
                == Gate::InDoubt
        }),
{
    let r = with_receipts(empty_store(), saved.receipts@)->0;
    let e = with_effects(r, saved.effects@)->0;
    lemma_effects_there(r, saved.effects@, i);
    lemma_claims_spare_the_effects(e, saved.claims@);
}

/// A restart changes no claim: a key that was held is held by the same effect.
pub proof fn law_restart_keeps_the_claims(saved: Saved, i: int)
    requires
        saved_store(saved) is Some,
        0 <= i < saved.claims@.len(),
    ensures
        saved_store(saved)->0.claims.contains_key(saved.claims@[i].0@),
        saved_store(saved)->0.claims[saved.claims@[i].0@] == saved.claims@[i].1@,
{
    let r = with_receipts(empty_store(), saved.receipts@)->0;
    lemma_claims_there(with_effects(r, saved.effects@)->0, saved.claims@, i);
}

/// A saved receipt is taken unless its identifier, or its key for a committed one, is
/// taken already; then nothing is opened. What was taken before stays.
pub proof fn law_saved_receipts_are_taken_once(
    b: BrokerView,
    rows: Seq<SavedReceipt>,
    row: SavedReceipt,
)
    ensures
        with_receipts(b, Seq::empty()) == Some(b),
        with_receipts(b, rows) is None ==> with_receipts(b, rows.push(row)) is None,
        with_receipts(b, rows) matches Some(x) ==> {
            let fits = !x.receipts.contains_key(row.receipt@.id) && (row.compensating
                || !x.has_receipt(row.key@));
            &&& with_receipts(b, rows.push(row)) is Some <==> fits
            &&& fits ==> (with_receipts(b, rows.push(row)) matches Some(y) && y.receipts
                == x.receipts.insert(row.receipt@.id, row@) && y.effects == x.effects && y.claims
                == x.claims && y.connectors == x.connectors && y.order == x.order)
        },
{
    assert(rows.push(row).drop_last() =~= rows);
}

/// A saved effect is taken unless its identifier is taken already, and a saved claim
/// unless its key is; then nothing is opened.
pub proof fn law_saved_effects_and_claims_are_taken_once(
    b: BrokerView,
    effects: Seq<EffectRow>,
    effect: EffectRow,
    claims: Seq<(String, EffectId)>,
    claim: (String, EffectId),
)
    ensures
        with_effects(b, Seq::empty()) == Some(b),
        with_claims(b, Seq::empty()) == Some(b),
        with_effects(b, effects) matches Some(x) ==> (with_effects(b, effects.push(effect)) is Some
            <==> !x.effects.contains_key(effect@.effect.id)),
        with_effects(b, effects) is None ==> with_effects(b, effects.push(effect)) is None,
        with_claims(b, claims) matches Some(x) ==> (with_claims(b, claims.push(claim)) is Some
            <==> !x.claims.contains_key(claim.0@)),
        with_claims(b, claims) is None ==> with_claims(b, claims.push(claim)) is None,
        with_claims(b, claims) matches Some(x) ==> (with_claims(b, claims.push(claim)) matches Some(
            y,
        ) ==> y.claims == x.claims.insert(claim.0@, claim.1@) && y.effects == x.effects
            && y.receipts == x.receipts),
{
    assert(effects.push(effect).drop_last() =~= effects);
    assert(claims.push(claim).drop_last() =~= claims);
}

proof fn lemma_receipts_kept(b: BrokerView, rows: Seq<SavedReceipt>, i: int)
    requires
        with_receipts(b, rows) is Some,
        0 <= i < rows.len(),
    ensures
        with_receipts(b, rows)->0.receipts.contains_key(rows[i].receipt@.id),
        with_receipts(b, rows)->0.receipts[rows[i].receipt@.id] == rows[i]@,
    decreases rows.len(),
{
    let front = rows.drop_last();
    if i < front.len() {
        assert(front[i] == rows[i]);
        lemma_receipts_kept(b, front, i);
    }
}

proof fn lemma_effects_keep_receipts(b: BrokerView, rows: Seq<EffectRow>)
    requires
        with_effects(b, rows) is Some,
    ensures
        with_effects(b, rows)->0.receipts == b.receipts,
    decreases rows.len(),
{
    if rows.len() > 0 {
        lemma_effects_keep_receipts(b, rows.drop_last());
    }
}

proof fn lemma_claims_keep_receipts(b: BrokerView, rows: Seq<(String, EffectId)>)
    requires
        with_claims(b, rows) is Some,
    ensures
        with_claims(b, rows)->0.receipts == b.receipts,
    decreases rows.len(),
{
    if rows.len() > 0 {
        lemma_claims_keep_receipts(b, rows.drop_last());
    }
}

/// A restart changes no receipt: what was committed under a key answers for it still.
pub proof fn law_restart_keeps_the_receipts(saved: Saved, i: int)
    requires
        saved_store(saved) is Some,
        0 <= i < saved.receipts@.len(),
    ensures
        ({
            let b = saved_store(saved)->0;
            let row = saved.receipts@[i]@;
            &&& b.receipts.contains_key(row.receipt.id)
            &&& b.receipts[row.receipt.id] == row
            &&& !row.compensating ==> b.has_receipt(row.key)
        }),
{
    let r = with_receipts(empty_store(), saved.receipts@)->0;
    lemma_receipts_kept(empty_store(), saved.receipts@, i);
    lemma_effects_keep_receipts(r, saved.effects@);
    lemma_claims_keep_receipts(with_effects(r, saved.effects@)->0, saved.claims@);
    let b = saved_store(saved)->0;
    let row = saved.receipts@[i]@;
    if !row.compensating {
        assert(b.receipt_under(row.receipt.id, row.key));
    }
}

} // verus!
