//! The [`EffectBroker`]: registry of connectors, store of pending effects and
//! receipts, and enforcer of the commit-time revalidation rules.
use vstd::prelude::*;
use vstd::utf8::encode_utf8;
use crate::broker::model::{ApprovalView, BrokerView, Gate, ReceiptRowView, RowView, commit_body, compensation_body, drift, drift_from, gate, lemma_claimed_wf, lemma_compensated_wf, lemma_finalized_wf, lemma_proposed_wf, lemma_released_wf, lemma_row_change_wf, lemma_restored_receipt_wf, lemma_restored_wf, lemma_same_receipts_wf, listed, restored, route, staleness, witness};
use crate::effect::{
    EffectContract, EffectPhase, EffectView, PendingEffect, PhaseView, Receipt, ReceiptBody,
    ReceiptView,
};
use crate::error::{KernelError, KernelResult};
use crate::hash::{ContentHash, canonical, canonical_hash, canonical_json, hash_canonical, sorted_keys};
use crate::ids::{BranchId, EffectId, LeaseId, PrincipalId, ReceiptId, StepId, generated};
use crate::json::{Json, JsonMap, Value, object1, object2};
use crate::table::Table;
use crate::text;
use crate::time::Timestamp;
use crate::traits::{CommitProbe, CommitResult, PreparedEffect};

verus! {

/// Signs the canonical JSON of a receipt body.
pub trait ReceiptSigner {
    /// Sign `message`, returning the signature in hex and the key's identifier.
    fn sign(&self, message: &[u8]) -> (r: (String, String));
}

/// Approval record stored alongside an effect; hashed into the receipt as the
/// authorization witness.
#[derive(Debug)]
pub struct ApprovalRecord {
    pub approver: PrincipalId,
    pub approved_at: Timestamp,
    pub policy_epoch: u64,
    /// Contract hash the approver saw. Commit refuses if the effect's hash has
    /// changed since.
    pub contract_hash: ContentHash,
}

impl ApprovalRecord {
    pub open spec fn view(&self) -> ApprovalView {
        ApprovalView {
            approver: self.approver@,
            approved_at: self.approved_at,
            policy_epoch: self.policy_epoch,
            contract_hash: self.contract_hash@,
        }
    }

    fn to_value(&self) -> (r: Value)
        ensures
            r@ == self@.json(),
    {
        let mut m = JsonMap::new();
        m.insert("approver".to_owned(), Value::text(self.approver.as_str()));
        m.insert("approved_at".to_owned(), Value::Text(self.approved_at.to_wire()));
        m.insert("policy_epoch".to_owned(), Value::from_u64(self.policy_epoch));
        m.insert("contract_hash".to_owned(), Value::text(self.contract_hash.as_str()));
        Value::Object(m)
    }
}

impl Clone for ApprovalRecord {
    fn clone(&self) -> (r: Self)
        ensures
            r == *self,
    {
        ApprovalRecord {
            approver: self.approver.clone(),
            approved_at: self.approved_at,
            policy_epoch: self.policy_epoch,
            contract_hash: self.contract_hash.clone(),
        }
    }
}

/// What an approval says, where there is one.
pub open spec fn approval_view(a: Option<ApprovalRecord>) -> Option<ApprovalView> {
    match a {
        Some(x) => Some(x@),
        None => None,
    }
}

fn clone_approval(a: &Option<ApprovalRecord>) -> (r: Option<ApprovalRecord>)
    ensures
        r == *a,
{
    match a {
        Some(x) => Some(x.clone()),
        None => None,
    }
}

/// An effect as it is stored.
#[derive(Debug)]
pub struct EffectRow {
    pub effect: PendingEffect,
    /// The preconditions that its preparation observed.
    pub observed: Option<Value>,
    pub approval: Option<ApprovalRecord>,
}

impl EffectRow {
    pub open spec fn view(&self) -> RowView {
        RowView {
            effect: self.effect@,
            observed: self.observed.deep_view(),
            approval: approval_view(self.approval),
        }
    }
}

impl EffectRow {
    pub(crate) fn copied(&self) -> (r: EffectRow)
        ensures
            r@ == self@,
    {
        let observed = match &self.observed {
            Some(v) => Some(v.clone()),
            None => None,
        };
        EffectRow {
            effect: self.effect.clone(),
            observed,
            approval: clone_approval(&self.approval),
        }
    }
}

#[derive(Debug)]
struct ReceiptRow {
    receipt: Receipt,
    effect: EffectId,
    key: String,
    compensating: bool,
}

impl ReceiptRow {
    spec fn view(&self) -> ReceiptRowView {
        ReceiptRowView {
            receipt: self.receipt@,
            effect: self.effect@,
            key: self.key@,
            compensating: self.compensating,
        }
    }
}

/// How an in-doubt effect was resolved by [`EffectBroker::recover_one`].
#[derive(Debug)]
pub enum InDoubtResolution {
    /// The connector confirmed execution; a receipt now exists.
    Committed { receipt: ReceiptId },
    /// The connector confirmed nothing executed; the effect was aborted and its
    /// idempotency key freed for a fresh proposal.
    Aborted,
    /// The connector cannot tell; operator action is required.
    StillInDoubt,
}

/// An operator's out-of-band verdict on an in-doubt effect.
#[derive(Debug)]
pub enum OperatorResolution {
    /// The operator verified the external effect happened; `response` is the
    /// externally observed result to digest into the receipt.
    Committed { response: Value },
    /// The operator verified nothing happened externally.
    Aborted { reason: String },
}

/// Permission to carry a commit on, handed out once everything the commit rests
/// on was found unchanged.
#[derive(Debug)]
pub struct CommitTicket {
    effect: PendingEffect,
    approval: Option<ApprovalRecord>,
    policy_epoch: u64,
}

impl CommitTicket {
    /// Tickets are given for effects that are approved, or prepared and in no
    /// need of approval.
    #[verifier::type_invariant]
    spec fn valid(self) -> bool {
        match self.effect@.phase {
            PhaseView::Approved { .. } => self.approval is Some,
            PhaseView::Prepared { .. } => self.approval is None,
            _ => false,
        }
    }

    /// The effect as it was when the commit began.
    pub closed spec fn spec_effect(&self) -> EffectView {
        self.effect@
    }

    /// The approval that the commit rests on; `None` for an automatic commit.
    pub closed spec fn spec_approval(&self) -> Option<ApprovalView> {
        approval_view(self.approval)
    }

    /// The policy epoch of the commit.
    pub closed spec fn spec_epoch(&self) -> u64 {
        self.policy_epoch
    }

    /// The contract that the connector has to look at, and to carry out once
    /// the commit is claimed.
    pub fn contract(&self) -> (r: &EffectContract)
        ensures
            r@ == self.spec_effect().contract,
    {
        &self.effect.contract
    }
}

/// How a commit goes on.
#[derive(Debug)]
pub enum CommitStart {
    /// The effect is committed already; this is its original receipt.
    Done(Receipt),
    /// The connector has to prepare the contract again, and what it observes is
    /// to be handed to [`EffectBroker::claim_commit`].
    Observe(CommitTicket),
}

/// What came of the external call.
#[derive(Debug)]
pub enum CommitOutcome {
    /// The connector carried the contract out.
    Executed(CommitResult),
    /// The call failed; `probe` is the connector's answer to whether it took
    /// effect all the same, `None` when the connector gave none.
    Failed { error: KernelError, probe: Option<CommitProbe> },
}

/// The error for an effect that is not known.
pub open spec fn unknown_effect(e: KernelError, id: Seq<char>) -> bool {
    e matches KernelError::NotFound { kind, id: got } && kind@ == "effect"@ && got@ == id
}

/// The error for a receipt that is not known.
pub open spec fn unknown_receipt(e: KernelError, id: Seq<char>) -> bool {
    e matches KernelError::NotFound { kind, id: got } && kind@ == "receipt"@ && got@ == id
}

/// The error for an operation whose connector is not registered.
pub open spec fn unknown_connector(e: KernelError, operation: Seq<char>) -> bool {
    e matches KernelError::NotFound { kind, id } && kind@ == "connector"@ && id@ == route(operation)
}

/// The error for an effect that is in the wrong phase.
pub open spec fn phase_error(
    e: KernelError,
    id: Seq<char>,
    phase: Seq<char>,
    expected: Seq<char>,
) -> bool {
    e matches KernelError::WrongEffectPhase { effect, phase: p, expected: x } && effect@ == id && p@
        == phase && x@ == expected
}

/// The error for a key under which something was committed already.
pub open spec fn duplicate_error(e: KernelError, b: BrokerView, key: Seq<char>) -> bool {
    e matches KernelError::DuplicateCommit { key: k, receipt } && k@ == key && b.receipt_under(
        receipt@,
        key,
    )
}

/// The error for a commit whose grounds have changed.
pub open spec fn stale_error(e: KernelError, why: Seq<char>) -> bool {
    e matches KernelError::StaleAuthorization { reason } && reason@ == why
}

/// The error for a commit whose outcome is not known.
pub open spec fn doubt_error(e: KernelError, id: Seq<char>, why: Seq<char>) -> bool {
    e matches KernelError::CommitInDoubt { effect, reason } && effect@ == id && reason@ == why
}

fn wrong_phase(effect: &PendingEffect, expected: &'static str) -> (e: KernelError)
    ensures
        phase_error(e, effect@.id, effect@.phase.name(), expected@),
{
    KernelError::WrongEffectPhase {
        effect: effect.id.as_str().to_owned(),
        phase: effect.phase.name().to_owned(),
        expected,
    }
}

/// Check that every key/value in `expected` matches `observed`. Returns a
/// precise reason on the first mismatch.
pub fn preconditions_hold(expected: &Value, observed: &Value) -> (r: Result<(), String>)
    ensures
        r is Ok == drift(expected@, observed@) is None,
        r matches Err(reason) ==> drift(expected@, observed@) == Some(reason@),
{
    match expected {
        Value::Object(map) => {
            let n = map.len();
            let ghost m = map@;
            let ghost ks = map.keys();
            proof {
                map.lemma_keys();
                assert(text::ascending(ks) && ks.to_set() == m.dom());
                let sk = sorted_keys(m);
                assert(text::ascending(sk) && sk.to_set() == m.dom());
                text::lemma_ascending_unique(ks, sk);
            }
            let mut i: usize = 0;
            while i < n
                invariant
                    i <= n,
                    n == ks.len(),
                    ks == map.keys(),
                    m == map@,
                    expected@ == Json::Object(m),
                    ks == sorted_keys(m),
                    drift(expected@, observed@) == drift_from(m, observed@, ks, i as int),
                decreases n - i,
            {
                let e = map.entry_at(i);
                match observed.get(e.0.as_str()) {
                    Some(o) => {
                        if !o.same(e.1) {
                            let want = canonical_json(e.1);
                            let got = canonical_json(o);
                            let head = text::cat4(
                                "precondition `",
                                e.0.as_str(),
                                "` drifted: expected ",
                                want.as_str(),
                            );
                            return Err(text::cat3(head.as_str(), ", observed ", got.as_str()));
                        }
                    },
                    None => {
                        return Err(
                            text::cat3(
                                "precondition `",
                                e.0.as_str(),
                                "` is no longer observable",
                            ),
                        );
                    },
                }
                i = i + 1;
            }
            Ok(())
        },
        _ => Ok(()),
    }
}

/// The error for persisted rows that contradict each other.
pub open spec fn broken_store(e: KernelError) -> bool {
    e matches KernelError::Storage(m) && m@
        == "effect store integrity violation: reconcile the store manually before reopening"@
}

fn store_error() -> (e: KernelError)
    ensures
        broken_store(e),
{
    KernelError::Storage(
        "effect store integrity violation: reconcile the store manually before reopening".to_owned(),
    )
}

/// The transactional effect broker.
#[derive(Debug)]
pub struct EffectBroker<S: ReceiptSigner> {
    connectors: Vec<String>,
    effects: Table<EffectRow>,
    receipts: Table<ReceiptRow>,
    claims: Table<EffectId>,
    signer: S,
}

spec fn row_views(m: Map<Seq<char>, EffectRow>) -> Map<Seq<char>, RowView> {
    m.map_values(|r: EffectRow| r@)
}

spec fn receipt_views(m: Map<Seq<char>, ReceiptRow>) -> Map<Seq<char>, ReceiptRowView> {
    m.map_values(|r: ReceiptRow| r@)
}

spec fn claim_views(m: Map<Seq<char>, EffectId>) -> Map<Seq<char>, Seq<char>> {
    m.map_values(|e: EffectId| e@)
}

impl<S: ReceiptSigner> EffectBroker<S> {
    /// What the store holds.
    pub closed spec fn view(&self) -> BrokerView {
        BrokerView {
            connectors: self.connectors.deep_view().to_set(),
            effects: row_views(self.effects@),
            order: self.effects.keys(),
            receipts: receipt_views(self.receipts@),
            claims: claim_views(self.claims@),
        }
    }

    /// The key that receipts are signed with.
    pub closed spec fn spec_signer(&self) -> S {
        self.signer
    }

    /// The receipt's signature and key are what the signer gave for the
    /// canonical JSON of its body.
    pub open spec fn signed(&self, receipt: ReceiptView) -> bool {
        exists|message: &[u8], sig: String, key: String|
            {
                &&& message@ == encode_utf8(canonical(receipt.body.json()))
                &&& #[trigger] call_ensures(S::sign, (&self.spec_signer(), message), (sig, key))
                &&& sig@ == receipt.signature
                &&& key@ == receipt.key_id
            }
    }

    /// A broker over an empty store.
    pub fn in_memory(signer: S) -> (r: Self)
        ensures
            r@.wf(),
            r@.consistent(),
            r@.connectors == Set::<Seq<char>>::empty(),
            r@.effects == Map::<Seq<char>, RowView>::empty(),
            r@.receipts == Map::<Seq<char>, ReceiptRowView>::empty(),
            r@.claims == Map::<Seq<char>, Seq<char>>::empty(),
            r.spec_signer() == signer,
    {
        let r = EffectBroker {
            connectors: Vec::new(),
            effects: Table::new(),
            receipts: Table::new(),
            claims: Table::new(),
            signer,
        };
        proof {
            assert(r@.effects =~= Map::<Seq<char>, RowView>::empty());
            assert(r@.receipts =~= Map::<Seq<char>, ReceiptRowView>::empty());
            assert(r@.claims =~= Map::<Seq<char>, Seq<char>>::empty());
            assert(r@.connectors =~= Set::<Seq<char>>::empty());
        }
        r
    }

    /// Register a connector by name. Operations are routed by the prefix before
    /// the first `.` (e.g. `github.create_branch` routes to the `github`
    /// connector).
    pub fn register_connector(&mut self, name: &str)
        ensures
            final(self)@ == (BrokerView {
                connectors: old(self)@.connectors.insert(name@),
                ..old(self)@
            }),
            old(self)@.wf() ==> final(self)@.wf(),
            old(self)@.consistent() ==> final(self)@.consistent(),
            final(self).spec_signer() == old(self).spec_signer(),
    {
        let ghost before = self.connectors.deep_view();
        let ghost b = self@;
        self.connectors.push(name.to_owned());
        proof {
            let after = self.connectors.deep_view();
            assert(after =~= before.push(name@));
            assert forall|x: Seq<char>| after.to_set().contains(x) <==> before.to_set().insert(
                name@,
            ).contains(x) by {
                if before.contains(x) {
                    let i = before.index_of(x);
                    assert(after[i] == x);
                }
                assert(after[before.len() as int] == name@);
                if after.contains(x) && x != name@ {
                    let i = after.index_of(x);
                    assert(before[i] == x);
                }
            }
            assert(after.to_set() =~= before.to_set().insert(name@));
            let a = BrokerView { connectors: b.connectors.insert(name@), ..b };
            assert(self@ == a);
            if b.wf() {
                assert forall|r1: Seq<char>, r2: Seq<char>, key: Seq<char>|
                    #![trigger a.receipt_under(r1, key), a.receipt_under(r2, key)]
                    a.receipt_under(r1, key) && a.receipt_under(r2, key) implies r1 == r2 by {
                    assert(b.receipt_under(r1, key) && b.receipt_under(r2, key));
                }
            }
            if b.consistent() {
                assert forall|key: Seq<char>| #[trigger]
                    a.claims.contains_key(key) implies a.claim_ok(key) by {
                    assert(b.claim_ok(key));
                }
                assert forall|i: Seq<char>| #[trigger] a.effects.contains_key(i) implies a.row_ok(
                    i,
                ) by {
                    assert(b.row_ok(i));
                }
            }
        }
    }

    /// Whether the connector that `operation` is routed to is registered; the
    /// error names it when it is not.
    pub fn connector_for(&self, operation: &str) -> (r: KernelResult<String>)
        ensures
            match r {
                Ok(name) => name@ == route(operation@) && self@.connectors.contains(name@),
                Err(e) => unknown_connector(e, operation@) && !self@.connectors.contains(
                    route(operation@),
                ),
            },
    {
        let chars = text::chars_of(operation);
        let k = text::pos_from(&chars, '.', 0);
        proof {
            assert(chars@.skip(0) == chars@);
        }
        let prefix = operation.substring_char(0, k);
        let ghost names = self.connectors.deep_view();
        let mut i: usize = 0;
        while i < self.connectors.len()
            invariant
                i <= self.connectors.len(),
                names == self.connectors.deep_view(),
                prefix@ == route(operation@),
                forall|j: int| 0 <= j < i ==> #[trigger] names[j] != prefix@,
            decreases self.connectors.len() - i,
        {
            proof {
                assert(names[i as int] == self.connectors@[i as int]@);
            }
            if text::str_eq(self.connectors[i].as_str(), prefix) {
                proof {
                    assert(names.contains(prefix@));
                }
                return Ok(prefix.to_owned());
            }
            i = i + 1;
        }
        proof {
            assert(!names.contains(prefix@));
        }
        Err(KernelError::NotFound { kind: "connector", id: prefix.to_owned() })
    }

    fn load_row(&self, id: &EffectId) -> (r: KernelResult<&EffectRow>)
        ensures
            match r {
                Ok(row) => self@.effects.contains_key(id@) && row@ == self@.effects[id@],
                Err(e) => !self@.effects.contains_key(id@) && unknown_effect(e, id@),
            },
    {
        match self.effects.get(id.as_str()) {
            Some(row) => Ok(row),
            None => Err(KernelError::NotFound { kind: "effect", id: id.as_str().to_owned() }),
        }
    }

    /// A stored effect, with what its preparation observed and its approval.
    pub fn row(&self, id: &EffectId) -> (r: KernelResult<EffectRow>)
        ensures
            match r {
                Ok(row) => self@.effects.contains_key(id@) && row@ == self@.effects[id@],
                Err(e) => !self@.effects.contains_key(id@) && unknown_effect(e, id@),
            },
    {
        match self.load_row(id) {
            Ok(row) => Ok(row.copied()),
            Err(e) => Err(e),
        }
    }

    /// Takes a persisted receipt back in. A key has one committed receipt at
    /// most: a store that holds two fails loudly instead of silently going on.
    pub fn restore_receipt(
        &mut self,
        receipt: Receipt,
        effect: EffectId,
        key: String,
        compensating: bool,
    ) -> (r: KernelResult<()>)
        requires
            old(self)@.wf(),
        ensures
            final(self)@.wf(),
            final(self).spec_signer() == old(self).spec_signer(),
            if old(self)@.receipts.contains_key(receipt@.id) || (!compensating && old(
                self,
            )@.has_receipt(key@)) {
                &&& final(self)@ == old(self)@
                &&& r matches Err(e) && broken_store(e)
            } else {
                &&& r is Ok
                &&& final(self)@ == (BrokerView {
                    receipts: old(self)@.receipts.insert(
                        receipt@.id,
                        ReceiptRowView {
                            receipt: receipt@,
                            effect: effect@,
                            key: key@,
                            compensating,
                        },
                    ),
                    ..old(self)@
                })
            },
    {
        if self.receipts.get(receipt.id.as_str()).is_some() {
            return Err(store_error());
        }
        if !compensating && self.committed_receipt_for_key(key.as_str()).is_some() {
            return Err(store_error());
        }
        let ghost b = self@;
        let row = ReceiptRow { receipt, effect, key, compensating };
        proof {
            lemma_restored_receipt_wf(b, row@);
        }
        self.store_receipt(row);
        Ok(())
    }

    /// Takes a persisted effect back in, as it is. One that was being committed
    /// stays in doubt until it is resolved.
    pub fn restore_effect(&mut self, row: EffectRow) -> (r: KernelResult<()>)
        requires
            old(self)@.wf(),
        ensures
            final(self)@.wf(),
            final(self).spec_signer() == old(self).spec_signer(),
            if old(self)@.effects.contains_key(row@.effect.id) {
                &&& final(self)@ == old(self)@
                &&& r matches Err(e) && broken_store(e)
            } else {
                r is Ok && final(self)@ == restored(old(self)@, row@)
            },
    {
        if self.effects.get(row.effect.id.as_str()).is_some() {
            return Err(store_error());
        }
        proof {
            lemma_restored_wf(self@, row@);
        }
        self.store_row(row);
        Ok(())
    }

    /// Takes a persisted commit claim back in: the effect holds the key again.
    pub fn restore_claim(&mut self, key: &str, effect: EffectId) -> (r: KernelResult<()>)
        requires
            old(self)@.wf(),
        ensures
            final(self)@.wf(),
            final(self).spec_signer() == old(self).spec_signer(),
            if old(self)@.claims.contains_key(key@) {
                &&& final(self)@ == old(self)@
                &&& r matches Err(e) && broken_store(e)
            } else {
                &&& r is Ok
                &&& final(self)@ == (BrokerView {
                    claims: old(self)@.claims.insert(key@, effect@),
                    ..old(self)@
                })
            },
    {
        let ghost b = self@;
        if self.claims.get(key).is_some() {
            return Err(store_error());
        }
        self.put_claim(key, effect);
        proof {
            lemma_same_receipts_wf(b, self@);
        }
        Ok(())
    }

    /// The commit claims: each claimed key with the effect that holds it.
    pub fn claims(&self) -> (r: Vec<(String, EffectId)>)
        ensures
            forall|i: int, j: int|
                0 <= i < j < r@.len() ==> (#[trigger] r@[i]).0@ != (#[trigger] r@[j]).0@,
            forall|i: int|
                0 <= i < r@.len() ==> self@.claims.contains_key((#[trigger] r@[i]).0@)
                    && self@.claims[r@[i].0@] == r@[i].1@,
            forall|key: Seq<char>| #[trigger]
                self@.claims.contains_key(key) ==> exists|i: int|
                    0 <= i < r@.len() && (#[trigger] r@[i]).0@ == key,
    {
        let n = self.claims.len();
        let ghost ks = self.claims.keys();
        let mut out: Vec<(String, EffectId)> = Vec::new();
        let mut i: usize = 0;
        while i < n
            invariant
                i <= n,
                n == ks.len(),
                ks == self.claims.keys(),
                self.claims.keyed(),
                out@.len() == i,
                forall|j: int|
                    0 <= j < i ==> (#[trigger] out@[j]).0@ == ks[j] && self.claims@.contains_key(
                        ks[j],
                    ) && out@[j].1@ == self.claims@[ks[j]]@,
            decreases n - i,
        {
            let e = self.claims.at(i);
            out.push((e.0.clone(), e.1.clone()));
            i = i + 1;
        }
        proof {
            assert forall|key: Seq<char>| #[trigger] self@.claims.contains_key(key) implies exists|
                i: int,
            | 0 <= i < out@.len() && (#[trigger] out@[i]).0@ == key by {
                let j = ks.index_of(key);
                assert(out@[j].0@ == key);
            }
        }
        out
    }

    fn store_row(&mut self, row: EffectRow)
        ensures
            final(self)@ == (BrokerView {
                effects: old(self)@.effects.insert(row.effect.id@, row@),
                order: if old(self)@.effects.contains_key(row.effect.id@) {
                    old(self)@.order
                } else {
                    old(self)@.order.push(row.effect.id@)
                },
                ..old(self)@
            }),
            final(self).spec_signer() == old(self).spec_signer(),
    {
        let ghost before = self.effects@;
        let ghost id = row.effect.id@;
        let key = row.effect.id.as_str().to_owned();
        let ghost r0 = row;
        self.effects.put(key, row);
        proof {
            assert(row_views(before.insert(id, r0)) =~= row_views(before).insert(id, r0@));
        }
    }

    fn committed_receipt_for_key(&self, key: &str) -> (r: Option<String>)
        ensures
            match r {
                Some(id) => self@.receipt_under(id@, key@),
                None => !self@.has_receipt(key@),
            },
    {
        let n = self.receipts.len();
        let mut i: usize = 0;
        while i < n
            invariant
                i <= n,
                n == self.receipts.keys().len(),
                forall|j: int|
                    0 <= j < i ==> !self@.receipt_under(#[trigger] self.receipts.keys()[j], key@),
            decreases n - i,
        {
            let e = self.receipts.at(i);
            if !e.1.compensating && text::str_eq(e.1.key.as_str(), key) {
                return Some(e.0.clone());
            }
            i = i + 1;
        }
        proof {
            if self@.has_receipt(key@) {
                let r = choose|r: Seq<char>| #[trigger] self@.receipt_under(r, key@);
                assert(self.receipts@.contains_key(r));
                let j = self.receipts.keys().index_of(r);
                assert(self.receipts.keys()[j] == r);
            }
        }
        None
    }

    /// Fetch a receipt by id.
    pub fn receipt(&self, id: &ReceiptId) -> (r: KernelResult<Receipt>)
        ensures
            match r {
                Ok(x) => self@.receipts.contains_key(id@) && x@ == self@.receipts[id@].receipt,
                Err(e) => !self@.receipts.contains_key(id@) && unknown_receipt(e, id@),
            },
    {
        match self.receipts.get(id.as_str()) {
            Some(row) => Ok(row.receipt.clone()),
            None => Err(KernelError::NotFound { kind: "receipt", id: id.as_str().to_owned() }),
        }
    }

    /// Fetch a pending effect by id.
    pub fn effect(&self, id: &EffectId) -> (r: KernelResult<PendingEffect>)
        ensures
            match r {
                Ok(e) => self@.effects.contains_key(id@) && e@ == self@.effects[id@].effect,
                Err(e) => !self@.effects.contains_key(id@) && unknown_effect(e, id@),
            },
    {
        match self.load_row(id) {
            Ok(row) => Ok(row.effect.clone()),
            Err(e) => Err(e),
        }
    }

    /// Overwrites a stored effect with another in the same phase and under the
    /// same key.
    pub fn save_effect(&mut self, effect: PendingEffect)
        requires
            old(self)@.wf(),
            old(self)@.effects.contains_key(effect@.id),
            effect@.phase == old(self)@.effects[effect@.id].effect.phase,
            effect@.contract.idempotency_key == old(self)@.effects[effect@.id].key(),
        ensures
            final(self)@.wf(),
            old(self)@.consistent() ==> final(self)@.consistent(),
            final(self)@ == (BrokerView {
                effects: old(self)@.effects.insert(
                    effect@.id,
                    RowView { effect: effect@, ..old(self)@.effects[effect@.id] },
                ),
                ..old(self)@
            }),
            final(self).spec_signer() == old(self).spec_signer(),
    {
        let ghost b = self@;
        if let Some(row) = self.effects.get(effect.id.as_str()) {
            let mut next = row.copied();
            next.effect = effect;
            proof {
                if b.consistent() {
                    assert(b.row_ok(effect@.id));
                }
                lemma_row_change_wf(b, effect@.id, next@);
            }
            self.store_row(next);
        }
    }

    /// List stored effects, newest proposal first, optionally filtered by phase
    /// name (`proposed`, `prepared`, `approved`, `committing`, `committed`,
    /// `aborted`, `compensated`).
    pub fn list_effects(&self, phase: Option<&str>) -> (out: Vec<PendingEffect>)
        ensures
            out.deep_view() == listed(
                self@,
                self@.order,
                match phase {
                    Some(p) => Some(p@),
                    None => None,
                },
            ),
    {
        let ghost want: Option<Seq<char>> = match phase {
            Some(p) => Some(p@),
            None => None,
        };
        let mut out: Vec<PendingEffect> = Vec::new();
        let n = self.effects.len();
        let ghost order = self@.order;
        let mut i: usize = n;
        proof {
            assert(order.take(n as int) == order);
            assert(out.deep_view() + listed(self@, order, want) =~= listed(self@, order, want));
        }
        while i > 0
            invariant
                i <= n,
                n == order.len(),
                order == self.effects.keys(),
                order == self@.order,
                want == match phase {
                    Some(p) => Some(p@),
                    None => None,
                },
                out.deep_view() + listed(self@, order.take(i as int), want) == listed(
                    self@,
                    order,
                    want,
                ),
            decreases i,
        {
            let e = self.effects.at(i - 1);
            let ghost here = order.take(i as int);
            let ghost rest = listed(self@, order.take(i - 1), want);
            let ghost before = out.deep_view();
            proof {
                assert(here.last() == order[i - 1]);
                assert(here.drop_last() == order.take(i - 1));
                assert(self@.effects[order[i - 1]].effect == e.1.effect@);
            }
            let keep = match phase {
                Some(p) => {
                    let a = text::to_ascii_lower(e.1.effect.phase.name());
                    let b = text::to_ascii_lower(p);
                    a == b
                },
                None => true,
            };
            if keep {
                out.push(e.1.effect.clone());
                proof {
                    assert(out.deep_view() =~= before.push(e.1.effect@));
                    assert(before.push(e.1.effect@) + rest =~= before + (seq![e.1.effect@] + rest));
                }
            }
            i = i - 1;
        }
        proof {
            assert(order.take(0) =~= Seq::<Seq<char>>::empty());
            assert(out.deep_view() + Seq::<EffectView>::empty() =~= out.deep_view());
        }
        out
    }

    /// Effects parked in phase `committing` (crash or indeterminate failure).
    pub fn in_doubt_effects(&self) -> (out: Vec<PendingEffect>)
        ensures
            out.deep_view() == listed(self@, self@.order, Some("committing"@)),
    {
        self.list_effects(Some("committing"))
    }

    /// Propose an effect whose arguments the owning connector has
    /// canonicalized: deduplicate on the idempotency key, and store it in phase
    /// `Proposed`.
    ///
    /// Refused with [`KernelError::DuplicateCommit`] if the idempotency key has
    /// already produced a committed receipt.
    pub fn propose(
        &mut self,
        contract: EffectContract,
        proposer: PrincipalId,
        branch: BranchId,
        step: StepId,
        lease: LeaseId,
        now: Timestamp,
    ) -> (r: KernelResult<PendingEffect>)
        requires
            old(self)@.wf(),
        ensures
            final(self)@.wf(),
            old(self)@.consistent() ==> final(self)@.consistent(),
            final(self).spec_signer() == old(self).spec_signer(),
            proposal_made(
                old(self)@,
                final(self)@,
                EffectView {
                    id: Seq::empty(),
                    contract: contract@,
                    contract_hash: contract@.hash(),
                    proposer: proposer@,
                    branch: branch@,
                    step: step@,
                    lease: lease@,
                    phase: PhaseView::Proposed,
                    proposed_at: now,
                },
                r,
            ),
    {
        if let Err(e) = self.connector_for(contract.operation.as_str()) {
            return Err(e);
        }
        if let Some(receipt) = self.committed_receipt_for_key(contract.idempotency_key.as_str()) {
            proof {
                assert(self@.receipt_under(receipt@, contract@.idempotency_key));
            }
            return Err(
                KernelError::DuplicateCommit { key: contract.idempotency_key.clone(), receipt },
            );
        }
        let effect = PendingEffect::new(contract, proposer, branch, step, lease, now);
        if self.effects.get(effect.id.as_str()).is_some() {
            proof {
                assert(self@.effects.contains_key(effect@.id));
            }
            return Err(KernelError::Storage("effect identifier already in use".to_owned()));
        }
        let row = EffectRow { effect: effect.clone(), observed: None, approval: None };
        proof {
            lemma_proposed_wf(self@, effect@);
        }
        self.store_row(row);
        Ok(effect)
    }

    /// The first half of preparing an effect: hands out the contract that the
    /// connector has to dry-run against the live external system.
    pub fn prepare(&self, effect_id: &EffectId) -> (r: KernelResult<EffectContract>)
        ensures
            match r {
                Ok(c) => {
                    &&& self@.effects.contains_key(effect_id@)
                    &&& self@.effects[effect_id@].effect.phase is Proposed
                    &&& self@.connectors.contains(
                        route(self@.effects[effect_id@].effect.contract.operation),
                    )
                    &&& c@ == self@.effects[effect_id@].effect.contract
                },
                Err(e) => if !self@.effects.contains_key(effect_id@) {
                    unknown_effect(e, effect_id@)
                } else {
                    let effect = self@.effects[effect_id@].effect;
                    if !(effect.phase is Proposed) {
                        phase_error(e, effect.id, effect.phase.name(), "proposed"@)
                    } else {
                        unknown_connector(e, effect.contract.operation)
                            && !self@.connectors.contains(route(effect.contract.operation))
                    }
                },
            },
    {
        let row = match self.load_row(effect_id) {
            Ok(row) => row,
            Err(e) => {
                return Err(e);
            },
        };
        match row.effect.phase {
            EffectPhase::Proposed => {},
            _ => {
                return Err(wrong_phase(&row.effect, "proposed"));
            },
        }
        if let Err(e) = self.connector_for(row.effect.contract.operation.as_str()) {
            return Err(e);
        }
        Ok(row.effect.contract.clone())
    }

    /// The second half of preparing an effect: records what the dry run
    /// observed and moves to phase `Prepared`, whatever became of the effect while
    /// the dry run went on. Only an effect that is being committed, or is
    /// committed, stays as it is: the first is in doubt until it is resolved, and a
    /// commit of the second returns its receipt.
    pub fn record_prepared(&mut self, effect_id: &EffectId, prepared: &PreparedEffect) -> (r:
        KernelResult<()>)
        requires
            old(self)@.wf(),
        ensures
            final(self)@.wf(),
            old(self)@.consistent() ==> final(self)@.consistent(),
            final(self).spec_signer() == old(self).spec_signer(),
            preparation_recorded(old(self)@, final(self)@, effect_id@, *prepared, r),
    {
        let ghost b = self@;
        let row = match self.load_row(effect_id) {
            Ok(row) => row,
            Err(e) => {
                return Err(e);
            },
        };
        match row.effect.phase {
            EffectPhase::Committing { .. } => {
                return Err(wrong_phase(&row.effect, "proposed"));
            },
            EffectPhase::Committed { .. } => {
                return Err(wrong_phase(&row.effect, "proposed"));
            },
            _ => {},
        }
        let mut next = row.copied();
        next.effect.phase = EffectPhase::Prepared { preview: prepared.preview.clone() };
        next.observed = Some(prepared.observed_preconditions.clone());
        proof {
            lemma_row_change_wf(b, effect_id@, next@);
        }
        self.store_row(next);
        Ok(())
    }

    /// Record an explicit approval, bound to the contract hash and the policy
    /// epoch under which the approval was granted.
    pub fn approve(
        &mut self,
        effect_id: &EffectId,
        approver: PrincipalId,
        policy_epoch: u64,
        now: Timestamp,
    ) -> (r: KernelResult<()>)
        requires
            old(self)@.wf(),
        ensures
            final(self)@.wf(),
            old(self)@.consistent() ==> final(self)@.consistent(),
            final(self).spec_signer() == old(self).spec_signer(),
            approval_recorded(old(self)@, final(self)@, effect_id@, approver@, policy_epoch, now, r),
    {
        let ghost b = self@;
        let row = match self.load_row(effect_id) {
            Ok(row) => row,
            Err(e) => {
                return Err(e);
            },
        };
        match row.effect.phase {
            EffectPhase::Prepared { .. } => {},
            _ => {
                return Err(wrong_phase(&row.effect, "prepared"));
            },
        }
        let mut next = row.copied();
        next.approval = Some(
            ApprovalRecord {
                approver: approver.clone(),
                approved_at: now,
                policy_epoch,
                contract_hash: row.effect.contract_hash.clone(),
            },
        );
        next.effect.phase = EffectPhase::Approved { approver, approved_at: now, policy_epoch };
        proof {
            lemma_row_change_wf(b, effect_id@, next@);
        }
        self.store_row(next);
        Ok(())
    }

    /// Abort a not-yet-committed effect with a human-readable reason. In-doubt
    /// effects (phase `committing`) cannot be aborted blindly: resolve them via
    /// [`EffectBroker::recover_one`] or [`EffectBroker::resolve_in_doubt`]
    /// instead.
    pub fn abort(&mut self, effect_id: &EffectId, reason: &str) -> (r: KernelResult<()>)
        requires
            old(self)@.wf(),
        ensures
            final(self)@.wf(),
            old(self)@.consistent() ==> final(self)@.consistent(),
            final(self).spec_signer() == old(self).spec_signer(),
            match r {
                Ok(_) => {
                    &&& abortable(old(self)@, effect_id@)
                    &&& final(self)@ == old(self)@.with_phase(
                        effect_id@,
                        PhaseView::Aborted { reason: reason@ },
                    )
                },
                Err(e) => {
                    &&& final(self)@ == old(self)@
                    &&& abort_error(e, old(self)@, effect_id@)
                },
            },
    {
        let ghost b = self@;
        let row = match self.load_row(effect_id) {
            Ok(row) => row,
            Err(e) => {
                return Err(e);
            },
        };
        match row.effect.phase {
            EffectPhase::Committed { .. } => {
                return Err(wrong_phase(&row.effect, "proposed|prepared|approved"));
            },
            EffectPhase::Compensated { .. } => {
                return Err(wrong_phase(&row.effect, "proposed|prepared|approved"));
            },
            EffectPhase::Committing { .. } => {
                return Err(wrong_phase(&row.effect, "proposed|prepared|approved"));
            },
            _ => {},
        }
        let mut next = row.copied();
        next.effect.phase = EffectPhase::Aborted { reason: reason.to_owned() };
        proof {
            lemma_row_change_wf(b, effect_id@, next@);
        }
        self.store_row(next);
        Ok(())
    }
}

/// The effect can be aborted: it exists, and nothing was or may have been
/// committed.
pub open spec fn abortable(b: BrokerView, id: Seq<char>) -> bool {
    &&& b.effects.contains_key(id)
    &&& !(b.effects[id].effect.phase is Committed)
    &&& !(b.effects[id].effect.phase is Compensated)
    &&& !(b.effects[id].effect.phase is Committing)
}

/// The error for an effect that cannot be aborted.
pub open spec fn abort_error(e: KernelError, b: BrokerView, id: Seq<char>) -> bool {
    if !b.effects.contains_key(id) {
        unknown_effect(e, id)
    } else {
        &&& !abortable(b, id)
        &&& phase_error(
            e,
            b.effects[id].effect.id,
            b.effects[id].effect.phase.name(),
            "proposed|prepared|approved"@,
        )
    }
}

/// Some effect carries a generated identifier, so that a fresh one may collide.
pub open spec fn effect_id_taken(b: BrokerView) -> bool {
    exists|id: Seq<char>| #[trigger] b.effects.contains_key(id) && generated(id, "fx-"@)
}

/// Some receipt carries a generated identifier, so that a fresh one may collide.
pub open spec fn receipt_id_taken(b: BrokerView) -> bool {
    exists|id: Seq<char>| #[trigger] b.receipts.contains_key(id) && generated(id, "rcpt-"@)
}

/// The ticket belongs to this store: its effect is there, under the same key,
/// and with an approval if the ticket rests on one.
pub open spec fn knows(b: BrokerView, t: CommitTicket) -> bool {
    let id = t.spec_effect().id;
    &&& b.effects.contains_key(id)
    &&& b.effects[id].key() == t.spec_effect().contract.idempotency_key
    &&& t.spec_approval() is Some ==> b.effects[id].approval is Some
}

/// How the world moved: against the contract's preconditions first, against
/// what the preparation observed second.
pub open spec fn world_drift(
    preconditions: Json,
    prepared: Option<Json>,
    observed: Json,
) -> Option<Seq<char>> {
    match drift(preconditions, observed) {
        Some(reason) => Some(reason),
        None => match prepared {
            Some(p) => drift(p, observed),
            None => None,
        },
    }
}

/// Why an effect cannot be claimed: another effect holds the key, or has
/// committed under it; the effect is in no phase to be committed from; or
/// something was committed under the key.
pub open spec fn claim_error(e: KernelError, b: BrokerView, id: Seq<char>) -> bool {
    let row = b.effects[id];
    if b.claims.contains_key(row.key()) && b.claims[row.key()] != id {
        if b.has_receipt(row.key()) {
            duplicate_error(e, b, row.key())
        } else {
            phase_error(
                e,
                id,
                "blocked: effect `"@ + b.claims[row.key()] + "` holds the commit claim"@,
                "approved"@,
            )
        }
    } else if !(row.effect.phase is Approved) && !(row.effect.phase is Prepared) {
        phase_error(e, id, row.effect.phase.name(), "approved"@)
    } else {
        duplicate_error(e, b, row.key())
    }
}

/// What recording a commit comes to: a signed receipt that closes the key, or,
/// where something was committed under the key already, nothing.
pub open spec fn recorded<S: ReceiptSigner>(
    before: EffectBroker<S>,
    after: EffectBroker<S>,
    effect: EffectView,
    approval: Option<ApprovalView>,
    epoch: u64,
    response: Json,
    now: Timestamp,
    r: KernelResult<Receipt>,
) -> bool {
    let b = before@;
    match r {
        Ok(receipt) => {
            &&& !b.has_receipt(effect.contract.idempotency_key)
            &&& !b.receipts.contains_key(receipt@.id)
            &&& generated(receipt@.id, "rcpt-"@)
            &&& receipt@.body == commit_body(effect, approval, epoch, response, now)
            &&& before.signed(receipt@)
            &&& after@ == b.finalized(effect.id, receipt@)
        },
        Err(e) => {
            &&& after@ == b
            &&& if b.has_receipt(effect.contract.idempotency_key) {
                duplicate_error(e, b, effect.contract.idempotency_key)
            } else {
                e is Storage && receipt_id_taken(b)
            }
        },
    }
}

/// What proposing an effect comes to: the effect under an identifier of its own,
/// unless no connector owns the operation or the key has a committed receipt.
pub open spec fn proposal_made(
    before: BrokerView,
    after: BrokerView,
    asked: EffectView,
    r: KernelResult<PendingEffect>,
) -> bool {
    match r {
        Ok(e) => {
            &&& before.connectors.contains(route(asked.contract.operation))
            &&& !before.has_receipt(asked.contract.idempotency_key)
            &&& generated(e@.id, "fx-"@)
            &&& !before.effects.contains_key(e@.id)
            &&& e@ == (EffectView { id: e@.id, ..asked })
            &&& after == before.proposed(e@)
        },
        Err(e) => {
            &&& after == before
            &&& if !before.connectors.contains(route(asked.contract.operation)) {
                unknown_connector(e, asked.contract.operation)
            } else if before.has_receipt(asked.contract.idempotency_key) {
                duplicate_error(e, before, asked.contract.idempotency_key)
            } else {
                e is Storage && effect_id_taken(before)
            }
        },
    }
}

/// What the recovery of one effect comes to, given its connector's answer. Only an
/// effect that is being committed, and whose operation a connector owns, is in
/// doubt: any other stays as it is.
pub open spec fn recovery_made<S: ReceiptSigner>(
    before: EffectBroker<S>,
    after: EffectBroker<S>,
    id: Seq<char>,
    probe: Option<CommitProbe>,
    now: Timestamp,
    r: InDoubtResolution,
) -> bool {
    let row = before@.effects[id];
    if !before@.effects.contains_key(id) || !(row.effect.phase is Committing)
        || !before@.connectors.contains(route(row.effect.contract.operation)) {
        r is StillInDoubt && after@ == before@
    } else {
        match probe {
            Some(CommitProbe::Committed(result)) => match r {
                InDoubtResolution::Committed { receipt } => exists|x: Receipt|
                    x.id == receipt && #[trigger] recorded(
                        before,
                        after,
                        row.effect,
                        row.approval,
                        approval_epoch(row.approval),
                        result.response@,
                        now,
                        Ok(x),
                    ),
                InDoubtResolution::StillInDoubt => {
                    &&& after@ == before@
                    &&& before@.has_receipt(row.key()) || receipt_id_taken(before@)
                },
                InDoubtResolution::Aborted => false,
            },
            Some(CommitProbe::NotCommitted) => {
                &&& r is Aborted
                &&& after@ == before@.released(
                    id,
                    PhaseView::Aborted { reason: never_executed() },
                )
            },
            _ => r is StillInDoubt && after@ == before@,
        }
    }
}

/// The effect is being committed, or is committed.
pub open spec fn claimed_or_committed(phase: PhaseView) -> bool {
    phase is Committing || phase is Committed
}

/// What recording a preparation comes to.
pub open spec fn preparation_recorded(
    before: BrokerView,
    after: BrokerView,
    id: Seq<char>,
    prepared: PreparedEffect,
    r: KernelResult<()>,
) -> bool {
    match r {
        Ok(_) => {
            &&& before.effects.contains_key(id)
            &&& !claimed_or_committed(before.effects[id].effect.phase)
            &&& after == (BrokerView {
                effects: before.effects.insert(
                    id,
                    RowView {
                        observed: Some(prepared.observed_preconditions@),
                        ..before.effects[id].with_phase(
                            PhaseView::Prepared { preview: prepared.preview@ },
                        )
                    },
                ),
                ..before
            })
        },
        Err(e) => {
            &&& after == before
            &&& if !before.effects.contains_key(id) {
                unknown_effect(e, id)
            } else {
                let effect = before.effects[id].effect;
                &&& claimed_or_committed(effect.phase)
                &&& phase_error(e, effect.id, effect.phase.name(), "proposed"@)
            }
        },
    }
}

/// What recording an approval comes to.
pub open spec fn approval_recorded(
    before: BrokerView,
    after: BrokerView,
    id: Seq<char>,
    approver: Seq<char>,
    policy_epoch: u64,
    now: Timestamp,
    r: KernelResult<()>,
) -> bool {
    match r {
        Ok(_) => {
            &&& before.effects.contains_key(id)
            &&& before.effects[id].effect.phase is Prepared
            &&& after == (BrokerView {
                effects: before.effects.insert(
                    id,
                    RowView {
                        approval: Some(
                            ApprovalView {
                                approver: approver,
                                approved_at: now,
                                policy_epoch,
                                contract_hash: before.effects[id].effect.contract_hash,
                            },
                        ),
                        ..before.effects[id].with_phase(
                            PhaseView::Approved {
                                approver: approver,
                                approved_at: now,
                                policy_epoch,
                            },
                        )
                    },
                ),
                ..before
            })
        },
        Err(e) => {
            &&& after == before
            &&& if !before.effects.contains_key(id) {
                unknown_effect(e, id)
            } else {
                let effect = before.effects[id].effect;
                &&& !(effect.phase is Prepared)
                &&& phase_error(e, effect.id, effect.phase.name(), "prepared"@)
            }
        },
    }
}

/// How a commit starts: everything it rests on is looked at again.
pub open spec fn commit_started(
    before: BrokerView,
    after: BrokerView,
    id: Seq<char>,
    policy_epoch: u64,
    lease_valid: bool,
    r: KernelResult<CommitStart>,
) -> bool {
    match (gate(before, id, policy_epoch, lease_valid), r) {
        (Gate::NotFound, Err(e)) => after == before && unknown_effect(
            e,
            id,
        ),
        (Gate::Done(receipt), Ok(CommitStart::Done(x))) => {
            &&& after == before
            &&& before.receipts.contains_key(receipt)
            &&& x@ == before.receipts[receipt].receipt
        },
        (Gate::Done(receipt), Err(e)) => {
            &&& after == before
            &&& !before.receipts.contains_key(receipt)
            &&& unknown_receipt(e, receipt)
        },
        (Gate::NoApproval, Err(e)) => after == before && (e matches KernelError::Storage(m) && m@
            == "approved effect missing approval record"@),
        (Gate::InDoubt, Err(e)) => after == before && doubt_error(
            e,
            id,
            "a previous commit attempt is in flight or unresolved"@,
        ),
        (Gate::WrongPhase, Err(e)) => after == before && phase_error(
            e,
            id,
            before.effects[id].effect.phase.name(),
            "approved"@,
        ),
        (Gate::Stale(reason), Err(e)) => {
            &&& after == before.with_phase(
                id,
                PhaseView::Aborted { reason },
            )
            &&& stale_error(e, reason)
        },
        (Gate::NoConnector, Err(e)) => after == before && unknown_connector(
            e,
            before.effects[id].effect.contract.operation,
        ),
        (Gate::Observe, Ok(CommitStart::Observe(t))) => {
            &&& after == before
            &&& t.spec_effect() == before.effects[id].effect
            &&& t.spec_approval() == if before.effects[id].effect.phase is Approved {
                before.effects[id].approval
            } else {
                None
            }
            &&& t.spec_epoch() == policy_epoch
            &&& knows(after, t)
        },
        _ => false,
    }
}

/// What recording a compensation comes to.
pub open spec fn compensation_recorded<S: ReceiptSigner>(
    before: EffectBroker<S>,
    after: EffectBroker<S>,
    id: Seq<char>,
    result: CommitResult,
    now: Timestamp,
    r: KernelResult<Receipt>,
) -> bool {
    match r {
        Ok(receipt) => {
            &&& before@.effects.contains_key(id)
            &&& compensable(before@.effects[id].effect.phase)
            &&& !before@.receipts.contains_key(receipt@.id)
            &&& generated(receipt@.id, "rcpt-"@)
            &&& receipt@.body == compensation_body(
                before@.effects[id].effect,
                result.response@,
                now,
            )
            &&& before.signed(receipt@)
            &&& after@ == before@.compensated(id, receipt@)
        },
        Err(e) => {
            &&& after@ == before@
            &&& if !before@.effects.contains_key(id) {
                unknown_effect(e, id)
            } else {
                let effect = before@.effects[id].effect;
                if !compensable(effect.phase) {
                    phase_error(e, id, effect.phase.name(), "committed"@)
                } else {
                    e is Storage && receipt_id_taken(before@)
                }
            }
        },
    }
}

/// What the operator's word on an effect in doubt comes to.
pub open spec fn doubt_resolved<S: ReceiptSigner>(
    before: EffectBroker<S>,
    after: EffectBroker<S>,
    id: Seq<char>,
    outcome: OperatorResolution,
    now: Timestamp,
    r: KernelResult<Option<Receipt>>,
) -> bool {
    if !before@.effects.contains_key(id) {
        &&& after@ == before@
        &&& r matches Err(e) && unknown_effect(e, id)
    } else {
        let row = before@.effects[id];
        if !(row.effect.phase is Committing) {
            &&& after@ == before@
            &&& r matches Err(e) && phase_error(
                e,
                id,
                row.effect.phase.name(),
                "committing"@,
            )
        } else {
            match outcome {
                OperatorResolution::Committed { response } => exists|x: KernelResult<
                    Receipt,
                >| #[trigger]
                    recorded(
                        before,
                        after,
                        row.effect,
                        row.approval,
                        approval_epoch(row.approval),
                        response@,
                        now,
                        x,
                    ) && r == match x {
                        Ok(receipt) => Ok::<Option<Receipt>, KernelError>(Some(receipt)),
                        Err(e) => Err(e),
                    },
                OperatorResolution::Aborted { reason } => {
                    &&& r == Ok::<Option<Receipt>, KernelError>(None)
                    &&& after@ == before@.released(
                        id,
                        PhaseView::Aborted { reason: reason@ },
                    )
                },
            }
        }
    }
}

/// What the answer of the connector says of a call that failed: its response if
/// it took effect all the same.
pub open spec fn confirmed(outcome: CommitOutcome) -> Option<Json> {
    match outcome {
        CommitOutcome::Executed(result) => Some(result.response@),
        CommitOutcome::Failed { error, probe } => match probe {
            Some(CommitProbe::Committed(result)) => Some(result.response@),
            _ => None,
        },
    }
}

/// The policy epoch of an approval; zero without one.
pub open spec fn approval_epoch(a: Option<ApprovalView>) -> u64 {
    match a {
        Some(x) => x.policy_epoch,
        None => 0,
    }
}

/// The reason that recovery gives for aborting.
pub open spec fn never_executed() -> Seq<char> {
    "crash recovery: connector confirmed the external effect never executed"@
}

impl<S: ReceiptSigner> EffectBroker<S> {
    fn store_receipt(&mut self, row: ReceiptRow)
        ensures
            final(self)@ == (BrokerView {
                receipts: old(self)@.receipts.insert(row.receipt.id@, row@),
                ..old(self)@
            }),
            final(self).spec_signer() == old(self).spec_signer(),
    {
        let ghost before = self.receipts@;
        let ghost id = row.receipt.id@;
        let ghost r0 = row;
        let key = row.receipt.id.as_str().to_owned();
        self.receipts.put(key, row);
        proof {
            assert(receipt_views(before.insert(id, r0)) =~= receipt_views(before).insert(id, r0@));
        }
    }

    fn put_claim(&mut self, key: &str, id: EffectId)
        ensures
            final(self)@ == (BrokerView {
                claims: old(self)@.claims.insert(key@, id@),
                ..old(self)@
            }),
            final(self).spec_signer() == old(self).spec_signer(),
    {
        let ghost before = self.claims@;
        let ghost i0 = id;
        self.claims.put(key.to_owned(), id);
        proof {
            assert(claim_views(before.insert(key@, i0)) =~= claim_views(before).insert(key@, i0@));
        }
    }

    fn drop_claim(&mut self, key: &str)
        ensures
            final(self)@ == (BrokerView {
                claims: old(self)@.claims.remove(key@),
                ..old(self)@
            }),
            final(self).spec_signer() == old(self).spec_signer(),
    {
        let ghost before = self.claims@;
        self.claims.remove(key);
        proof {
            assert(claim_views(before.remove(key@)) =~= claim_views(before).remove(key@));
        }
    }

    fn set_phase(&mut self, id: &EffectId, phase: EffectPhase)
        requires
            old(self)@.wf(),
            old(self)@.effects.contains_key(id@),
        ensures
            final(self)@ == old(self)@.with_phase(id@, phase@),
            final(self).spec_signer() == old(self).spec_signer(),
    {
        if let Some(row) = self.effects.get(id.as_str()) {
            let mut next = row.copied();
            next.effect.phase = phase;
            self.store_row(next);
        }
    }

    /// The body, signed.
    fn sign_body(&self, body: ReceiptBody) -> (r: Receipt)
        ensures
            r@.body == body@,
            generated(r@.id, "rcpt-"@),
            self.signed(r@),
    {
        let encoded = canonical_json(&body.to_value());
        let message = encoded.as_str().as_bytes();
        let (signature, key_id) = self.signer.sign(message);
        let r = Receipt { id: ReceiptId::generate(), body, signature, key_id };
        proof {
            assert(call_ensures(S::sign, (&self.spec_signer(), message), (signature, key_id)));
        }
        r
    }

    fn witness_hash(effect: &PendingEffect, approval: &Option<ApprovalRecord>) -> (r: ContentHash)
        ensures
            r@ == canonical_hash(witness(approval_view(*approval), effect@.contract_hash)),
    {
        match approval {
            Some(a) => hash_canonical(&a.to_value()),
            None => hash_canonical(
                &object2(
                    "auto_commit",
                    Value::Bool(true),
                    "contract_hash",
                    Value::text(effect.contract_hash.as_str()),
                ),
            ),
        }
    }

    /// Durably record a successful external commit: receipt, phase and claim
    /// change together.
    fn finalize_commit(
        &mut self,
        effect: &PendingEffect,
        approval: &Option<ApprovalRecord>,
        policy_epoch: u64,
        result: &CommitResult,
        now: Timestamp,
    ) -> (r: KernelResult<Receipt>)
        requires
            old(self)@.wf(),
            old(self)@.effects.contains_key(effect@.id),
            old(self)@.effects[effect@.id].key() == effect@.contract.idempotency_key,
        ensures
            final(self)@.wf(),
            old(self)@.consistent() ==> final(self)@.consistent(),
            final(self).spec_signer() == old(self).spec_signer(),
            recorded(
                *old(self),
                *final(self),
                effect@,
                approval_view(*approval),
                policy_epoch,
                result.response@,
                now,
                r,
            ),
    {
        let ghost b = self@;
        let key = effect.contract.idempotency_key.as_str();
        if let Some(receipt) = self.committed_receipt_for_key(key) {
            proof {
                assert(b.receipt_under(receipt@, key@));
            }
            return Err(KernelError::DuplicateCommit { key: key.to_owned(), receipt });
        }
        let body = ReceiptBody {
            effect: effect.id.clone(),
            who: effect.proposer.clone(),
            operation: effect.contract.operation.clone(),
            resource: effect.contract.resource.clone(),
            contract_hash: effect.contract_hash.clone(),
            branch: effect.branch.clone(),
            step: effect.step.clone(),
            policy_epoch,
            authorization_witness: Self::witness_hash(effect, approval),
            external_response_digest: hash_canonical(&result.response),
            committed_at: now,
        };
        let receipt = self.sign_body(body);
        if self.receipts.get(receipt.id.as_str()).is_some() {
            proof {
                assert(b.receipts.contains_key(receipt@.id));
            }
            return Err(KernelError::Storage("receipt identifier already in use".to_owned()));
        }
        let row = ReceiptRow {
            receipt: receipt.clone(),
            effect: effect.id.clone(),
            key: key.to_owned(),
            compensating: false,
        };
        proof {
            lemma_finalized_wf(b, effect@.id, receipt@);
        }
        self.set_phase(&effect.id, EffectPhase::Committed { receipt: receipt.id.clone() });
        self.store_receipt(row);
        self.drop_claim(key);
        proof {
            assert(self@ =~= b.finalized(effect@.id, receipt@));
        }
        Ok(receipt)
    }

    /// Release the commit claim and restore a pre-commit phase.
    fn release_claim(&mut self, effect: &PendingEffect, restore: EffectPhase)
        requires
            old(self)@.wf(),
            old(self)@.effects.contains_key(effect@.id),
            old(self)@.effects[effect@.id].key() == effect@.contract.idempotency_key,
            !(restore@ is Committing),
            !(restore@ is Committed),
            restore@ is Approved ==> old(self)@.effects[effect@.id].approval is Some,
        ensures
            final(self)@.wf(),
            old(self)@.consistent() ==> final(self)@.consistent(),
            final(self).spec_signer() == old(self).spec_signer(),
            final(self)@ == old(self)@.released(effect@.id, restore@),
    {
        let ghost b = self@;
        proof {
            lemma_released_wf(b, effect@.id, restore@);
        }
        let committing = match self.effects.get(effect.id.as_str()) {
            Some(row) => match row.effect.phase {
                EffectPhase::Committing { .. } => true,
                _ => false,
            },
            None => false,
        };
        let key = effect.contract.idempotency_key.as_str();
        let own = match self.claims.get(key) {
            Some(owner) => text::str_eq(owner.as_str(), effect.id.as_str()),
            None => false,
        };
        if committing {
            self.set_phase(&effect.id, restore);
        }
        if own {
            self.drop_claim(key);
        }
        proof {
            assert(self@ =~= b.released(effect@.id, restore@));
        }
    }

    /// The first step of a commit. Revalidates everything that must not have
    /// drifted since approval, short of the world itself:
    ///
    /// 1. an effect that needs approval is approved,
    /// 2. the contract hash equals the approved hash,
    /// 3. the policy epoch equals the approved epoch,
    /// 4. the lease the effect rides on is still valid.
    ///
    /// An effect of which one of these no longer holds is aborted. Retrying a
    /// commit on an already-committed effect returns its receipt. `lease_valid`
    /// says whether the effect's lease is valid now.
    pub fn commit(&mut self, effect_id: &EffectId, current_policy_epoch: u64, lease_valid: bool) -> (r:
        KernelResult<CommitStart>)
        requires
            old(self)@.wf(),
        ensures
            final(self)@.wf(),
            old(self)@.consistent() ==> final(self)@.consistent(),
            final(self).spec_signer() == old(self).spec_signer(),
            commit_started(
                old(self)@,
                final(self)@,
                effect_id@,
                current_policy_epoch,
                lease_valid,
                r,
            ),
    {
        let ghost b = self@;
        let row = match self.load_row(effect_id) {
            Ok(row) => row,
            Err(e) => {
                return Err(e);
            },
        };
        // Irreversible and opaque effects can only be committed from an explicit
        // approval; reversible ones may commit straight from `Prepared`.
        let approval: Option<ApprovalRecord> = match &row.effect.phase {
            EffectPhase::Committed { receipt } => {
                return match self.receipt(receipt) {
                    Ok(x) => Ok(CommitStart::Done(x)),
                    Err(e) => Err(e),
                };
            },
            EffectPhase::Committing { .. } => {
                return Err(
                    KernelError::CommitInDoubt {
                        effect: row.effect.id.as_str().to_owned(),
                        reason: "a previous commit attempt is in flight or unresolved".to_owned(),
                    },
                );
            },
            EffectPhase::Approved { .. } => {
                if row.approval.is_none() {
                    return Err(
                        KernelError::Storage("approved effect missing approval record".to_owned()),
                    );
                }
                clone_approval(&row.approval)
            },
            EffectPhase::Prepared { .. } => {
                if row.effect.contract.class.needs_approval() {
                    return Err(wrong_phase(&row.effect, "approved"));
                }
                None
            },
            _ => {
                return Err(wrong_phase(&row.effect, "approved"));
            },
        };
        let live = row.effect.contract.contract_hash();
        let reason: Option<String> = if !text::str_eq(
            live.as_str(),
            row.effect.contract_hash.as_str(),
        ) {
            Some("contract content no longer matches its recorded hash".to_owned())
        } else {
            match &approval {
                Some(a) if !text::str_eq(a.contract_hash.as_str(), live.as_str()) => Some(
                    "contract hash changed since approval".to_owned(),
                ),
                Some(a) if a.policy_epoch != current_policy_epoch => {
                    let was = text::to_decimal(a.policy_epoch);
                    let is = text::to_decimal(current_policy_epoch);
                    Some(
                        text::cat5(
                            "policy epoch advanced from ",
                            was.as_str(),
                            " to ",
                            is.as_str(),
                            " since approval",
                        ),
                    )
                },
                _ => if !lease_valid {
                    Some(
                        text::cat3("lease `", row.effect.lease.as_str(), "` is no longer valid"),
                    )
                } else {
                    None
                },
            }
        };
        proof {
            assert(staleness(b.effects[effect_id@], current_policy_epoch, lease_valid)
                == match reason {
                Some(s) => Some(s@),
                None => None,
            });
        }
        if let Some(reason) = reason {
            return match self.abort(effect_id, reason.as_str()) {
                Ok(_) => Err(KernelError::StaleAuthorization { reason }),
                Err(e) => Err(e),
            };
        }
        if let Err(e) = self.connector_for(row.effect.contract.operation.as_str()) {
            return Err(e);
        }
        Ok(
            CommitStart::Observe(
                CommitTicket {
                    effect: row.effect.clone(),
                    approval,
                    policy_epoch: current_policy_epoch,
                },
            ),
        )
    }

    fn known(&self, ticket: &CommitTicket) -> (r: bool)
        ensures
            r == knows(self@, *ticket),
    {
        match self.effects.get(ticket.effect.id.as_str()) {
            Some(row) => text::str_eq(
                row.effect.contract.idempotency_key.as_str(),
                ticket.effect.contract.idempotency_key.as_str(),
            ) && (ticket.approval.is_none() || row.approval.is_some()),
            None => false,
        }
    }

    /// The second step of a commit: compares what the connector observes now
    /// with the contract's preconditions and with what the preparation
    /// observed, then atomically claims the idempotency key and moves the
    /// effect to `committing`. Only a caller that gets `Ok` may carry the
    /// contract out; of several effects that share a key, one does.
    ///
    /// An effect whose world has moved is aborted.
    pub fn claim_commit(&mut self, ticket: &CommitTicket, prepared: &PreparedEffect, now: Timestamp) -> (r:
        KernelResult<()>)
        requires
            old(self)@.wf(),
        ensures
            final(self)@.wf(),
            old(self)@.consistent() ==> final(self)@.consistent(),
            final(self).spec_signer() == old(self).spec_signer(),
            if !knows(old(self)@, *ticket) {
                &&& final(self)@ == old(self)@
                &&& r matches Err(e) && unknown_effect(e, ticket.spec_effect().id)
            } else {
                let id = ticket.spec_effect().id;
                match world_drift(
                    ticket.spec_effect().contract.preconditions,
                    old(self)@.effects[id].observed,
                    prepared.observed_preconditions@,
                ) {
                    Some(reason) => if abortable(old(self)@, id) {
                        &&& final(self)@ == old(self)@.with_phase(id, PhaseView::Aborted { reason })
                        &&& r matches Err(e) && stale_error(e, reason)
                    } else {
                        &&& final(self)@ == old(self)@
                        &&& r matches Err(e) && abort_error(e, old(self)@, id)
                    },
                    None => if old(self)@.claimable(id) {
                        &&& r is Ok
                        &&& final(self)@ == old(self)@.claimed(id, now)
                    } else {
                        &&& final(self)@ == old(self)@
                        &&& r matches Err(e) && claim_error(e, old(self)@, id)
                    },
                }
            },
    {
        let ghost b = self@;
        let id = &ticket.effect.id;
        if !self.known(ticket) {
            return Err(KernelError::NotFound { kind: "effect", id: id.as_str().to_owned() });
        }
        let row = match self.load_row(id) {
            Ok(row) => row,
            Err(e) => {
                return Err(e);
            },
        };
        let moved: Option<String> = match preconditions_hold(
            &ticket.effect.contract.preconditions,
            &prepared.observed_preconditions,
        ) {
            Err(reason) => Some(reason),
            Ok(_) => match &row.observed {
                Some(observed) => match preconditions_hold(
                    observed,
                    &prepared.observed_preconditions,
                ) {
                    Err(reason) => Some(reason),
                    Ok(_) => None,
                },
                None => None,
            },
        };
        if let Some(reason) = moved {
            return match self.abort(id, reason.as_str()) {
                Ok(_) => Err(KernelError::StaleAuthorization { reason }),
                Err(e) => Err(e),
            };
        }
        let key = ticket.effect.contract.idempotency_key.as_str();
        let receipt = self.committed_receipt_for_key(key);
        let ghost rv = receipt;
        proof {
            if let Some(x) = rv {
                assert(b.receipt_under(x@, key@));
            }
        }
        if let Some(owner) = self.claims.get(key) {
            if !text::str_eq(owner.as_str(), id.as_str()) {
                return match receipt {
                    Some(receipt) => Err(
                        KernelError::DuplicateCommit { key: key.to_owned(), receipt },
                    ),
                    None => Err(
                        KernelError::WrongEffectPhase {
                            effect: id.as_str().to_owned(),
                            phase: text::cat3(
                                "blocked: effect `",
                                owner.as_str(),
                                "` holds the commit claim",
                            ),
                            expected: "approved",
                        },
                    ),
                };
            }
        }
        match row.effect.phase {
            EffectPhase::Approved { .. } => {},
            EffectPhase::Prepared { .. } => {},
            _ => {
                return Err(wrong_phase(&row.effect, "approved"));
            },
        }
        if let Some(receipt) = receipt {
            return Err(KernelError::DuplicateCommit { key: key.to_owned(), receipt });
        }
        proof {
            assert(b.claimable(id@));
            lemma_claimed_wf(b, id@, now);
        }
        self.set_phase(id, EffectPhase::Committing { claimed_at: now });
        self.put_claim(key, id.clone());
        proof {
            assert(self@ =~= b.claimed(id@, now));
        }
        Ok(())
    }

    /// The last step of a commit: records what came of the external call.
    ///
    /// A call that took effect, by its own result or by the connector's word,
    /// gives a signed receipt. One that definitely did not releases the claim,
    /// puts the effect back for a retry and passes the error on. Of any other
    /// the outcome is in doubt: the claim and the phase stay, for blind retries
    /// are exactly how double sends happen.
    pub fn finish_commit(&mut self, ticket: CommitTicket, outcome: CommitOutcome, now: Timestamp) -> (r:
        KernelResult<Receipt>)
        requires
            old(self)@.wf(),
        ensures
            final(self)@.wf(),
            old(self)@.consistent() ==> final(self)@.consistent(),
            final(self).spec_signer() == old(self).spec_signer(),
            if !knows(old(self)@, ticket) {
                &&& final(self)@ == old(self)@
                &&& r matches Err(e) && unknown_effect(e, ticket.spec_effect().id)
            } else {
                match confirmed(outcome) {
                    Some(response) => recorded(
                        *old(self),
                        *final(self),
                        ticket.spec_effect(),
                        ticket.spec_approval(),
                        ticket.spec_epoch(),
                        response,
                        now,
                        r,
                    ),
                    None => {
                        &&& outcome is Failed
                        &&& if outcome->probe == Some(CommitProbe::NotCommitted) {
                            &&& final(self)@ == old(self)@.released(
                                ticket.spec_effect().id,
                                ticket.spec_effect().phase,
                            )
                            &&& r == Err::<Receipt, KernelError>(outcome->error)
                        } else {
                            &&& final(self)@ == old(self)@
                            &&& r matches Err(e) && doubt_error(
                                e,
                                ticket.spec_effect().id,
                                (outcome->error).spec_message(),
                            )
                        }
                    },
                }
            },
    {
        proof {
            use_type_invariant(&ticket);
        }
        if !self.known(&ticket) {
            return Err(
                KernelError::NotFound {
                    kind: "effect",
                    id: ticket.effect.id.as_str().to_owned(),
                },
            );
        }
        match outcome {
            CommitOutcome::Executed(result) => self.finalize_commit(
                &ticket.effect,
                &ticket.approval,
                ticket.policy_epoch,
                &result,
                now,
            ),
            CommitOutcome::Failed { error, probe } => match probe {
                Some(CommitProbe::Committed(result)) => self.finalize_commit(
                    &ticket.effect,
                    &ticket.approval,
                    ticket.policy_epoch,
                    &result,
                    now,
                ),
                Some(CommitProbe::NotCommitted) => {
                    self.release_claim(&ticket.effect, ticket.effect.phase.clone());
                    Err(error)
                },
                _ => Err(
                    KernelError::CommitInDoubt {
                        effect: ticket.effect.id.as_str().to_owned(),
                        reason: error.message(),
                    },
                ),
            },
        }
    }

    /// Recovery of one in-doubt effect from its connector's answer, `None` when
    /// the connector gave none. Confirmed executions get their receipt;
    /// confirmed non-executions are aborted; unknowns stay in doubt for the
    /// operator. An effect that is not being committed is left alone.
    pub fn recover_one(
        &mut self,
        effect_id: &EffectId,
        probe: Option<CommitProbe>,
        now: Timestamp,
    ) -> (r: InDoubtResolution)
        requires
            old(self)@.wf(),
        ensures
            final(self)@.wf(),
            old(self)@.consistent() ==> final(self)@.consistent(),
            final(self).spec_signer() == old(self).spec_signer(),
            recovery_made(*old(self), *final(self), effect_id@, probe, now, r),
    {
        let ghost row = self@.effects[effect_id@];
        let (effect, approval) = match self.load_row(effect_id) {
            Ok(row) => (row.effect.clone(), clone_approval(&row.approval)),
            Err(_) => {
                return InDoubtResolution::StillInDoubt;
            },
        };
        match effect.phase {
            EffectPhase::Committing { .. } => {},
            _ => {
                return InDoubtResolution::StillInDoubt;
            },
        }
        if self.connector_for(effect.contract.operation.as_str()).is_err() {
            return InDoubtResolution::StillInDoubt;
        }
        let epoch: u64 = match &approval {
            Some(a) => a.policy_epoch,
            None => 0,
        };
        match probe {
            Some(CommitProbe::Committed(result)) => {
                match self.finalize_commit(&effect, &approval, epoch, &result, now) {
                    Ok(receipt) => {
                        proof {
                            assert(recorded(
                                *old(self),
                                *self,
                                row.effect,
                                row.approval,
                                approval_epoch(row.approval),
                                result.response@,
                                now,
                                Ok(receipt),
                            ));
                        }
                        InDoubtResolution::Committed { receipt: receipt.id }
                    },
                    Err(_) => InDoubtResolution::StillInDoubt,
                }
            },
            Some(CommitProbe::NotCommitted) => {
                self.release_claim(
                    &effect,
                    EffectPhase::Aborted {
                        reason:
                            "crash recovery: connector confirmed the external effect never executed".to_owned(),
                    },
                );
                InDoubtResolution::Aborted
            },
            _ => InDoubtResolution::StillInDoubt,
        }
    }

    /// Operator override for an in-doubt effect the connector cannot resolve:
    /// declare it committed (with the externally observed response) or aborted
    /// (after out-of-band verification that nothing happened).
    pub fn resolve_in_doubt(
        &mut self,
        effect_id: &EffectId,
        outcome: OperatorResolution,
        now: Timestamp,
    ) -> (r: KernelResult<Option<Receipt>>)
        requires
            old(self)@.wf(),
        ensures
            final(self)@.wf(),
            old(self)@.consistent() ==> final(self)@.consistent(),
            final(self).spec_signer() == old(self).spec_signer(),
            doubt_resolved(*old(self), *final(self), effect_id@, outcome, now, r),
    {
        let ghost row = self@.effects[effect_id@];
        let (effect, approval) = match self.load_row(effect_id) {
            Ok(row) => (row.effect.clone(), clone_approval(&row.approval)),
            Err(e) => {
                return Err(e);
            },
        };
        match effect.phase {
            EffectPhase::Committing { .. } => {},
            _ => {
                return Err(wrong_phase(&effect, "committing"));
            },
        }
        match outcome {
            OperatorResolution::Committed { response } => {
                let epoch: u64 = match &approval {
                    Some(a) => a.policy_epoch,
                    None => 0,
                };
                let ghost rv = response@;
                let x = self.finalize_commit(
                    &effect,
                    &approval,
                    epoch,
                    &CommitResult { response },
                    now,
                );
                proof {
                    assert(recorded(
                        *old(self),
                        *self,
                        row.effect,
                        row.approval,
                        approval_epoch(row.approval),
                        rv,
                        now,
                        x,
                    ));
                }
                match x {
                    Ok(receipt) => Ok(Some(receipt)),
                    Err(e) => Err(e),
                }
            },
            OperatorResolution::Aborted { reason } => {
                self.release_claim(&effect, EffectPhase::Aborted { reason });
                Ok(None)
            },
        }
    }

    /// The first half of a compensation: hands out the contract of a committed
    /// effect, for the connector's compensating action.
    pub fn compensate(&self, effect_id: &EffectId) -> (r: KernelResult<EffectContract>)
        requires
            self@.wf(),
        ensures
            match r {
                Ok(c) => {
                    &&& self@.effects.contains_key(effect_id@)
                    &&& self@.effects[effect_id@].effect.phase is Committed
                    &&& self@.connectors.contains(
                        route(self@.effects[effect_id@].effect.contract.operation),
                    )
                    &&& c@ == self@.effects[effect_id@].effect.contract
                },
                Err(e) => if !self@.effects.contains_key(effect_id@) {
                    unknown_effect(e, effect_id@)
                } else {
                    let effect = self@.effects[effect_id@].effect;
                    if !(effect.phase is Committed) {
                        phase_error(e, effect_id@, effect.phase.name(), "committed"@)
                    } else {
                        unknown_connector(e, effect.contract.operation)
                            && !self@.connectors.contains(route(effect.contract.operation))
                    }
                },
            },
    {
        let row = match self.load_row(effect_id) {
            Ok(row) => row,
            Err(e) => {
                return Err(e);
            },
        };
        match row.effect.phase {
            EffectPhase::Committed { .. } => {},
            _ => {
                return Err(wrong_phase(&row.effect, "committed"));
            },
        }
        if let Err(e) = self.connector_for(row.effect.contract.operation.as_str()) {
            return Err(e);
        }
        Ok(row.effect.contract.clone())
    }

    /// The second half of a compensation: records a compensating receipt for
    /// what the connector's compensating action answered.
    pub fn record_compensated(&mut self, effect_id: &EffectId, result: &CommitResult, now: Timestamp) -> (r:
        KernelResult<Receipt>)
        requires
            old(self)@.wf(),
        ensures
            final(self)@.wf(),
            old(self)@.consistent() ==> final(self)@.consistent(),
            final(self).spec_signer() == old(self).spec_signer(),
            compensation_recorded(*old(self), *final(self), effect_id@, *result, now, r),
    {
        let ghost b = self@;
        let effect = match self.load_row(effect_id) {
            Ok(row) => row.effect.clone(),
            Err(e) => {
                return Err(e);
            },
        };
        match effect.phase {
            EffectPhase::Committed { .. } => {},
            EffectPhase::Compensated { .. } => {},
            _ => {
                return Err(wrong_phase(&effect, "committed"));
            },
        }
        let body = ReceiptBody {
            effect: effect.id.clone(),
            who: effect.proposer.clone(),
            operation: text::cat2(effect.contract.operation.as_str(), ".compensate"),
            resource: effect.contract.resource.clone(),
            contract_hash: effect.contract_hash.clone(),
            branch: effect.branch.clone(),
            step: effect.step.clone(),
            policy_epoch: 0,
            authorization_witness: hash_canonical(
                &object1("compensation_for", Value::text(effect.id.as_str())),
            ),
            external_response_digest: hash_canonical(&result.response),
            committed_at: now,
        };
        let receipt = self.sign_body(body);
        if self.receipts.get(receipt.id.as_str()).is_some() {
            proof {
                assert(b.receipts.contains_key(receipt@.id));
            }
            return Err(KernelError::Storage("receipt identifier already in use".to_owned()));
        }
        let row = ReceiptRow {
            receipt: receipt.clone(),
            effect: effect.id.clone(),
            key: effect.contract.idempotency_key.clone(),
            compensating: true,
        };
        proof {
            lemma_compensated_wf(b, effect_id@, receipt@);
        }
        self.set_phase(
            effect_id,
            EffectPhase::Compensated { compensating_receipt: receipt.id.clone() },
        );
        self.store_receipt(row);
        proof {
            assert(self@ =~= b.compensated(effect_id@, receipt@));
        }
        Ok(receipt)
    }
}

/// What a compensating receipt can be recorded for: a committed effect, also one
/// that was compensated while the compensating action ran.
pub open spec fn compensable(phase: PhaseView) -> bool {
    phase is Committed || phase is Compensated
}

/// What the world is held against at commit time: the contract's own preconditions,
/// and all that the preparation observed. Either can stop the commit.
pub proof fn law_world_is_held_against_both(
    preconditions: Json,
    prepared: Option<Json>,
    observed: Json,
)
    ensures
        world_drift(preconditions, prepared, observed) is None <==> drift(preconditions, observed)
            is None && (prepared matches Some(p) ==> drift(p, observed) is None),
        drift(preconditions, observed) is Some ==> world_drift(preconditions, prepared, observed)
            == drift(preconditions, observed),
{
}

/// Only what was not committed, and may not have been, can be aborted.
pub proof fn law_commits_cannot_be_aborted(b: BrokerView, id: Seq<char>)
    ensures
        abortable(b, id) <==> b.effects.contains_key(id) && (b.effects[id].effect.phase is Proposed
            || b.effects[id].effect.phase is Prepared || b.effects[id].effect.phase is Approved
            || b.effects[id].effect.phase is Aborted),
        compensable(b.effects[id].effect.phase) <==> b.effects[id].effect.phase is Committed
            || b.effects[id].effect.phase is Compensated,
        claimed_or_committed(b.effects[id].effect.phase) <==> b.effects[id].effect.phase
            is Committing || b.effects[id].effect.phase is Committed,
{
}

/// Whether a claim is refused as a duplicate, as blocked by another effect, or for
/// the effect's phase.
pub proof fn law_refused_claims_say_why(e: KernelError, b: BrokerView, id: Seq<char>)
    requires
        b.effects.contains_key(id),
        !b.claimable(id),
        claim_error(e, b, id),
    ensures
        ({
            let row = b.effects[id];
            let key = row.effect.contract.idempotency_key;
            let held = b.claims.contains_key(key) && b.claims[key] != id;
            &&& held && !b.has_receipt(key) ==> (e matches KernelError::WrongEffectPhase {
                effect,
                phase,
                expected,
            } && effect@ == id && phase@ == "blocked: effect `"@ + b.claims[key]
                + "` holds the commit claim"@)
            &&& held && b.has_receipt(key) ==> e is DuplicateCommit
            &&& !held && !(row.effect.phase is Approved) && !(row.effect.phase is Prepared) ==> (
            e matches KernelError::WrongEffectPhase { effect, phase, expected } && phase@
                == row.effect.phase.name())
            &&& !held && (row.effect.phase is Approved || row.effect.phase is Prepared) ==> (
            e matches KernelError::DuplicateCommit { key: k, receipt } && k@ == key
                && b.receipts.contains_key(receipt@) && b.receipts[receipt@].key == key
                && !b.receipts[receipt@].compensating)
        }),
{
}

/// A commit is recorded once: under a key without a committed receipt, with a signed
/// receipt of what was done; and where the key has one, nothing changes.
pub proof fn law_commits_are_recorded_once<S: ReceiptSigner>(
    before: EffectBroker<S>,
    after: EffectBroker<S>,
    effect: EffectView,
    approval: Option<ApprovalView>,
    epoch: u64,
    response: Json,
    now: Timestamp,
    r: KernelResult<Receipt>,
)
    requires
        recorded(before, after, effect, approval, epoch, response, now, r),
    ensures
        before@.has_receipt(effect.contract.idempotency_key) ==> r is Err && after@ == before@,
        r is Err ==> after@ == before@,
        r matches Ok(x) ==> {
            &&& !before@.has_receipt(effect.contract.idempotency_key)
            &&& !before@.receipts.contains_key(x@.id)
            &&& before.signed(x@)
            &&& x@.body.effect == effect.id
            &&& x@.body.contract_hash == effect.contract_hash
            &&& x@.body.policy_epoch == epoch
            &&& x@.body.external_response_digest == canonical_hash(response)
            &&& after@.receipts.contains_key(x@.id) && after@.receipts[x@.id].receipt == x@
            &&& after@.effects[effect.id].effect.phase == (PhaseView::Committed {
                receipt: x@.id,
            })
            &&& !after@.claims.contains_key(before@.effects[effect.id].effect.contract.idempotency_key)
        },
{
}

/// A proposal is taken exactly if a connector owns its operation and nothing was
/// committed under its key, unless its fresh identifier is taken.
pub proof fn law_proposals_are_taken_once(
    before: BrokerView,
    after: BrokerView,
    asked: EffectView,
    r: KernelResult<PendingEffect>,
)
    requires
        proposal_made(before, after, asked, r),
    ensures
        r matches Ok(e) ==> {
            &&& before.connectors.contains(route(asked.contract.operation))
            &&& !before.has_receipt(asked.contract.idempotency_key)
            &&& !before.effects.contains_key(e@.id)
            &&& after.effects.contains_key(e@.id)
            &&& after.effects[e@.id].effect == e@
            &&& e@.contract == asked.contract
            &&& e@.contract_hash == asked.contract_hash
            &&& e@.proposer == asked.proposer
            &&& e@.lease == asked.lease
            &&& e@.phase == asked.phase
        },
        r is Err ==> after == before,
        r is Err && before.connectors.contains(route(asked.contract.operation))
            && !before.has_receipt(asked.contract.idempotency_key) ==> effect_id_taken(before),
{
}

/// A recovery follows the connector's word: what it executed is committed, what it
/// did not is aborted, and what it cannot tell stays in doubt. What is not in doubt
/// stays as it is.
pub proof fn law_recovery_follows_the_connector<S: ReceiptSigner>(
    before: EffectBroker<S>,
    after: EffectBroker<S>,
    id: Seq<char>,
    probe: Option<CommitProbe>,
    now: Timestamp,
    r: InDoubtResolution,
)
    requires
        recovery_made(before, after, id, probe, now, r),
    ensures
        r is Committed ==> {
            &&& probe matches Some(CommitProbe::Committed(_))
            &&& before@.effects.contains_key(id)
            &&& before@.effects[id].effect.phase is Committing
        },
        r is Aborted ==> {
            &&& probe == Some(CommitProbe::NotCommitted)
            &&& before@.effects.contains_key(id)
            &&& before@.effects[id].effect.phase is Committing
            &&& after@.effects[id].effect.phase == (PhaseView::Aborted {
                reason: "crash recovery: connector confirmed the external effect never executed"@,
            })
        },
        r is StillInDoubt ==> after@ == before@,
        probe is None || probe == Some(CommitProbe::Unknown) ==> after@ == before@ && r
            is StillInDoubt,
        before@.effects.contains_key(id) && before@.effects[id].effect.phase is Committing
            && before@.connectors.contains(route(before@.effects[id].effect.contract.operation))
            && probe == Some(CommitProbe::NotCommitted) ==> r is Aborted,
        before@.effects.contains_key(id) && before@.effects[id].effect.phase is Committing
            && before@.connectors.contains(route(before@.effects[id].effect.contract.operation))
            && (probe matches Some(CommitProbe::Committed(_))) && !before@.has_receipt(
            before@.effects[id].effect.contract.idempotency_key,
        ) && !receipt_id_taken(before@) ==> r is Committed,
{
}

/// A preparation is recorded with its preview and all that it observed, on this
/// effect alone.
pub proof fn law_preparations_are_recorded(
    before: BrokerView,
    after: BrokerView,
    id: Seq<char>,
    prepared: PreparedEffect,
    r: KernelResult<()>,
    other: Seq<char>,
)
    requires
        preparation_recorded(before, after, id, prepared, r),
    ensures
        r is Ok ==> {
            &&& before.effects.contains_key(id)
            &&& after.effects[id].effect.phase == (PhaseView::Prepared {
                preview: prepared.preview@,
            })
            &&& after.effects[id].observed == Some(prepared.observed_preconditions@)
            &&& after.effects[id].approval == before.effects[id].approval
            &&& after.effects[id].effect.contract == before.effects[id].effect.contract
            &&& other != id ==> after.effects[other] == before.effects[other]
            &&& after.receipts == before.receipts && after.claims == before.claims
        },
        r is Err ==> after == before,
        r is Ok <==> before.effects.contains_key(id) && !(before.effects[id].effect.phase
            is Committing) && !(before.effects[id].effect.phase is Committed),
{
}

/// An approval is recorded with the approver, the instant, the policy epoch and the
/// hash of the very contract, and only of a prepared effect.
pub proof fn law_approvals_are_bound_to_contract_and_policy(
    before: BrokerView,
    after: BrokerView,
    id: Seq<char>,
    approver: Seq<char>,
    epoch: u64,
    now: Timestamp,
    r: KernelResult<()>,
    other: Seq<char>,
)
    requires
        approval_recorded(before, after, id, approver, epoch, now, r),
    ensures
        r is Ok <==> before.effects.contains_key(id) && before.effects[id].effect.phase is Prepared,
        r is Ok ==> {
            &&& after.effects[id].approval matches Some(a) && a.approver == approver
                && a.approved_at == now && a.policy_epoch == epoch && a.contract_hash
                == before.effects[id].effect.contract_hash
            &&& after.effects[id].effect.phase == (PhaseView::Approved {
                approver,
                approved_at: now,
                policy_epoch: epoch,
            })
            &&& after.effects[id].effect.contract == before.effects[id].effect.contract
            &&& other != id ==> after.effects[other] == before.effects[other]
            &&& after.receipts == before.receipts && after.claims == before.claims
        },
        r is Err ==> after == before,
{
}

/// A commit starts by handing out the effect for another look at the world, or stops
/// without one: a stale effect is aborted, and nothing else changes.
pub proof fn law_commits_start_by_looking_again(
    before: BrokerView,
    after: BrokerView,
    id: Seq<char>,
    epoch: u64,
    lease_valid: bool,
    r: KernelResult<CommitStart>,
)
    requires
        commit_started(before, after, id, epoch, lease_valid, r),
    ensures
        (r matches Ok(CommitStart::Observe(_))) <==> gate(before, id, epoch, lease_valid)
            is Observe,
        r matches Ok(CommitStart::Observe(t)) ==> after == before && t.spec_effect()
            == before.effects[id].effect && t.spec_epoch() == epoch && (
        before.effects[id].effect.phase is Approved ==> t.spec_approval()
            == before.effects[id].approval) && (before.effects[id].effect.phase is Prepared
            ==> t.spec_approval() is None),
        r matches Ok(CommitStart::Done(x)) ==> after == before && (gate(
            before,
            id,
            epoch,
            lease_valid,
        ) matches Gate::Done(receipt) && before.receipts.contains_key(receipt)
            && before.receipts[receipt].receipt == x@),
        gate(before, id, epoch, lease_valid) matches Gate::Stale(reason) ==> after.effects[id].effect.phase
            == (PhaseView::Aborted { reason }) && (r matches Err(KernelError::StaleAuthorization {
            reason: why,
        }) && why@ == reason),
        gate(before, id, epoch, lease_valid) is InDoubt ==> after == before && (r matches Err(
            KernelError::CommitInDoubt { .. },
        )),
        !(gate(before, id, epoch, lease_valid) is Stale) ==> after == before,
{
}

/// A compensation is recorded of a committed effect, with a signed receipt of its
/// own.
pub proof fn law_compensations_are_recorded<S: ReceiptSigner>(
    before: EffectBroker<S>,
    after: EffectBroker<S>,
    id: Seq<char>,
    result: CommitResult,
    now: Timestamp,
    r: KernelResult<Receipt>,
)
    requires
        compensation_recorded(before, after, id, result, now, r),
    ensures
        r matches Ok(x) ==> {
            &&& before@.effects[id].effect.phase is Committed || before@.effects[id].effect.phase
                is Compensated
            &&& before.signed(x@)
            &&& x@.body.effect == before@.effects[id].effect.id
            &&& x@.body.external_response_digest == canonical_hash(result.response@)
            &&& after@.receipts.contains_key(x@.id) && after@.receipts[x@.id].compensating
            &&& after@.effects[id].effect.phase == (PhaseView::Compensated {
                compensating_receipt: x@.id,
            })
        },
        r is Err ==> after@ == before@,
        before@.effects.contains_key(id) && before@.effects[id].effect.phase is Committed
            && !receipt_id_taken(before@) ==> r is Ok,
{
}

/// An operator's word settles only an effect in doubt: as committed with a receipt,
/// or as aborted with the given reason.
pub proof fn law_operators_settle_only_doubt<S: ReceiptSigner>(
    before: EffectBroker<S>,
    after: EffectBroker<S>,
    id: Seq<char>,
    outcome: OperatorResolution,
    now: Timestamp,
    r: KernelResult<Option<Receipt>>,
)
    requires
        doubt_resolved(before, after, id, outcome, now, r),
    ensures
        r is Ok ==> before@.effects.contains_key(id) && before@.effects[id].effect.phase
            is Committing,
        r is Err ==> after@ == before@,
        outcome matches OperatorResolution::Aborted { reason } ==> r is Ok
            ==> after@.effects[id].effect.phase == (PhaseView::Aborted { reason: reason@ })
            && r->Ok_0 is None,
        outcome is Committed && r is Ok ==> r->Ok_0 is Some && after@.effects[before@.effects[id].effect.id].effect.phase
            is Committed,
        before@.effects.contains_key(id) && before@.effects[id].effect.phase is Committing
            && outcome is Aborted ==> r is Ok,
{
}

/// A call took effect exactly if it came back, or the connector says so afterwards;
/// the receipt is then of that response.
pub proof fn law_outcomes_are_taken_at_their_word(outcome: CommitOutcome)
    ensures
        match outcome {
            CommitOutcome::Executed(result) => confirmed(outcome) == Some(result.response@),
            CommitOutcome::Failed { error, probe } => match probe {
                Some(CommitProbe::Committed(result)) => confirmed(outcome) == Some(
                    result.response@,
                ),
                Some(CommitProbe::NotCommitted) => confirmed(outcome) is None,
                Some(CommitProbe::Unknown) => confirmed(outcome) is None,
                None => confirmed(outcome) is None,
            },
        },
{
}

/// A receipt that settles a doubt carries the epoch that the effect was approved
/// under, zero where nobody approved it.
pub proof fn law_settled_doubts_keep_their_epoch(a: Option<ApprovalView>)
    ensures
        a matches Some(x) ==> approval_epoch(a) == x.policy_epoch,
        a is None ==> approval_epoch(a) == 0,
{
}

/// An abort is refused only of an effect that is not known, or that is or may be
/// committed, and the refusal says which.
pub proof fn law_refused_aborts_say_why(e: KernelError, b: BrokerView, id: Seq<char>)
    requires
        abort_error(e, b, id),
    ensures
        !b.effects.contains_key(id) ==> (e matches KernelError::NotFound { kind, id: got } && kind@
            == "effect"@ && got@ == id),
        b.effects.contains_key(id) ==> (e matches KernelError::WrongEffectPhase {
            effect,
            phase,
            expected,
        } && effect@ == b.effects[id].effect.id && phase@ == b.effects[id].effect.phase.name()
            && expected@ == "proposed|prepared|approved"@) && (b.effects[id].effect.phase
            is Committed || b.effects[id].effect.phase is Compensated
            || b.effects[id].effect.phase is Committing),
{
}

/// The world is as expected exactly if every expected member is observed with an equal
/// value; the answer covers all of them, and one that differs is enough against it.
pub proof fn law_every_precondition_is_held_against_the_world(
    expected: &Value,
    observed: &Value,
    r: Result<(), String>,
)
    requires
        call_ensures(preconditions_hold, (expected, observed), r),
    ensures
        expected@ matches Json::Object(m) ==> (m.dom().finite() ==> (r is Ok <==> forall|
            k: Seq<char>,
        | #[trigger]
            m.contains_key(k) ==> (observed@ matches Json::Object(o) && o.contains_key(k)
                && crate::json::json_eq(o[k], m[k])))),
        !(expected@ is Object) ==> r is Ok,
{
    if let Json::Object(m) = expected@ {
        if m.dom().finite() {
            crate::broker::model::law_world_holds_iff_every_member_does(m, observed@);
        }
    }
}

/// Every error of the broker reads as what it is about: what is not known by its kind
/// and name, a wrong phase by the phase and the one that was needed, a duplicate by the
/// key, a stale ground and a doubt by their reason.
pub proof fn law_broker_errors_read_as_what_they_are(
    e: KernelError,
    b: BrokerView,
    id: Seq<char>,
    phase: Seq<char>,
    expected: Seq<char>,
)
    ensures
        unknown_effect(e, id) ==> e is NotFound && e.spec_message() == "unknown object: "@
            + "effect"@ + " `"@ + id + "`"@,
        unknown_receipt(e, id) ==> e is NotFound && e.spec_message() == "unknown object: "@
            + "receipt"@ + " `"@ + id + "`"@,
        unknown_connector(e, id) ==> e is NotFound && e.spec_message() == "unknown object: "@
            + "connector"@ + " `"@ + route(id) + "`"@,
        phase_error(e, id, phase, expected) ==> e is WrongEffectPhase && e.spec_message()
            == "effect `"@ + id + "` is in phase "@ + phase + " but `"@ + expected
            + "` was required"@,
        stale_error(e, id) ==> e is StaleAuthorization && e.spec_message()
            == "commit-time revalidation failed: "@ + id,
        doubt_error(e, id, phase) ==> (e matches KernelError::CommitInDoubt { effect, reason }
            && effect@ == id && reason@ == phase),
        duplicate_error(e, b, id) ==> (e matches KernelError::DuplicateCommit { key, receipt }
            && key@ == id && b.receipts.contains_key(receipt@) && b.receipts[receipt@].key == id
            && !b.receipts[receipt@].compensating),
        broken_store(e) ==> e is Storage,
{
}

/// A ticket belongs to a store that has its effect under the same key, and an approval
/// where the ticket rests on one.
pub proof fn law_tickets_belong_to_their_store(b: BrokerView, t: CommitTicket)
    ensures
        knows(b, t) <==> b.effects.contains_key(t.spec_effect().id) && b.effects[
            t.spec_effect().id
        ].effect.contract.idempotency_key == t.spec_effect().contract.idempotency_key && (
        t.spec_approval() is Some ==> b.effects[t.spec_effect().id].approval is Some),
{
}

} // verus!
