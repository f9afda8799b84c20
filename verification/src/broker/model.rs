//! What the broker's store holds, and how each operation changes it.
use vstd::prelude::*;
use crate::effect::{BodyView, EffectView, PhaseView, ReceiptView};
use crate::hash::{canonical, canonical_hash, sorted_keys};
use crate::json::{Json, NumberView, json_eq};
use crate::text;
use crate::time::Timestamp;

verus! {

/// An approval: who approved which contract, when, and under which policy.
pub struct ApprovalView {
    pub approver: Seq<char>,
    pub approved_at: Timestamp,
    pub policy_epoch: u64,
    pub contract_hash: Seq<char>,
}

impl ApprovalView {
    /// The approval in JSON.
    pub open spec fn json(self) -> Json {
        Json::Object(
            map![
                "approver"@ => Json::Text(self.approver),
                "approved_at"@ => Json::Text(self.approved_at.wire_text()),
                "policy_epoch"@ => Json::Number(NumberView::PosInt(self.policy_epoch)),
                "contract_hash"@ => Json::Text(self.contract_hash)
            ],
        )
    }
}

/// A stored effect, with what its preparation observed and its approval.
pub struct RowView {
    pub effect: EffectView,
    pub observed: Option<Json>,
    pub approval: Option<ApprovalView>,
}

/// A stored receipt.
pub struct ReceiptRowView {
    pub receipt: ReceiptView,
    pub effect: Seq<char>,
    pub key: Seq<char>,
    pub compensating: bool,
}

/// The broker's store.
#[verifier::ext_equal]
pub struct BrokerView {
    /// Names of the registered connectors.
    pub connectors: Set<Seq<char>>,
    /// Effects by identifier.
    pub effects: Map<Seq<char>, RowView>,
    /// Effect identifiers in the order of their proposal.
    pub order: Seq<Seq<char>>,
    /// Receipts by identifier.
    pub receipts: Map<Seq<char>, ReceiptRowView>,
    /// Commit claims: idempotency key to the effect that holds it.
    pub claims: Map<Seq<char>, Seq<char>>,
}

/// The connector that an operation is routed to: the part before the first `.`.
pub open spec fn route(operation: Seq<char>) -> Seq<char> {
    operation.take(text::pos(operation, '.'))
}

impl RowView {
    pub open spec fn key(self) -> Seq<char> {
        self.effect.contract.idempotency_key
    }

    pub open spec fn with_phase(self, phase: PhaseView) -> RowView {
        RowView { effect: EffectView { phase, ..self.effect }, ..self }
    }
}

impl BrokerView {
    /// A committed (not compensating) receipt `r` exists under the key.
    pub open spec fn receipt_under(self, r: Seq<char>, key: Seq<char>) -> bool {
        self.receipts.contains_key(r) && !self.receipts[r].compensating && self.receipts[r].key
            == key
    }

    /// The key has a committed receipt.
    pub open spec fn has_receipt(self, key: Seq<char>) -> bool {
        exists|r: Seq<char>| #[trigger] self.receipt_under(r, key)
    }

    /// What every store keeps: rows stand under their identifiers, and a key has at
    /// most one committed receipt.
    pub open spec fn wf(self) -> bool {
        &&& self.order.no_duplicates()
        &&& forall|id: Seq<char>| #[trigger] self.effects.contains_key(id) <==> self.order.contains(
            id,
        )
        &&& forall|id: Seq<char>| #[trigger]
            self.effects.contains_key(id) ==> self.effects[id].effect.id == id
        &&& forall|r: Seq<char>| #[trigger]
            self.receipts.contains_key(r) ==> self.receipts[r].receipt.id == r
        &&& forall|r1: Seq<char>, r2: Seq<char>, key: Seq<char>|
            #![trigger self.receipt_under(r1, key), self.receipt_under(r2, key)]
            self.receipt_under(r1, key) && self.receipt_under(r2, key) ==> r1 == r2
    }

    /// The rows agree with each other: a claim is held by an effect that is being
    /// committed under that very key, an approved effect has its approval, and a
    /// committed effect has its receipt. A store that begins empty stays so; what
    /// was persisted is taken back in as it is.
    pub open spec fn consistent(self) -> bool {
        &&& forall|key: Seq<char>| #[trigger] self.claims.contains_key(key) ==> self.claim_ok(key)
        &&& forall|id: Seq<char>| #[trigger] self.effects.contains_key(id) ==> self.row_ok(id)
    }

    /// The claim on the key is held by an effect that is being committed under
    /// it.
    pub open spec fn claim_ok(self, key: Seq<char>) -> bool {
        let id = self.claims[key];
        &&& self.effects.contains_key(id)
        &&& self.effects[id].key() == key
        &&& self.effects[id].effect.phase is Committing
    }

    /// An approved effect has its approval, and a committed one its receipt.
    pub open spec fn row_ok(self, id: Seq<char>) -> bool {
        let row = self.effects[id];
        &&& row.effect.phase is Approved ==> row.approval is Some
        &&& row.effect.phase matches PhaseView::Committed { receipt } ==> self.receipt_under(
            receipt,
            row.key(),
        )
    }

    /// The store with one effect's phase changed.
    pub open spec fn with_phase(self, id: Seq<char>, phase: PhaseView) -> BrokerView {
        BrokerView {
            effects: self.effects.insert(id, self.effects[id].with_phase(phase)),
            ..self
        }
    }

    /// The effect may be claimed for commit: it is approved or prepared, no
    /// other effect holds its key, and nothing was committed under the key.
    pub open spec fn claimable(self, id: Seq<char>) -> bool {
        let row = self.effects[id];
        &&& self.effects.contains_key(id)
        &&& row.effect.phase is Approved || row.effect.phase is Prepared
        &&& self.claims.contains_key(row.key()) ==> self.claims[row.key()] == id
        &&& !self.has_receipt(row.key())
    }

    /// The store after the effect was claimed.
    pub open spec fn claimed(self, id: Seq<char>, at: Timestamp) -> BrokerView {
        BrokerView {
            claims: self.claims.insert(self.effects[id].key(), id),
            ..self.with_phase(id, PhaseView::Committing { claimed_at: at })
        }
    }

    /// The store after the claim was released and the phase restored; the phase
    /// of an effect that is no longer being committed stays.
    pub open spec fn released(self, id: Seq<char>, restore: PhaseView) -> BrokerView {
        let key = self.effects[id].key();
        BrokerView {
            claims: if self.claims.contains_key(key) && self.claims[key] == id {
                self.claims.remove(key)
            } else {
                self.claims
            },
            ..if self.effects[id].effect.phase is Committing {
                self.with_phase(id, restore)
            } else {
                self
            }
        }
    }

    /// The store after the effect was committed with the receipt.
    pub open spec fn finalized(self, id: Seq<char>, receipt: ReceiptView) -> BrokerView {
        BrokerView {
            receipts: self.receipts.insert(
                receipt.id,
                ReceiptRowView {
                    receipt,
                    effect: id,
                    key: self.effects[id].key(),
                    compensating: false,
                },
            ),
            claims: self.claims.remove(self.effects[id].key()),
            ..self.with_phase(id, PhaseView::Committed { receipt: receipt.id })
        }
    }

    /// The store after the effect was compensated with the receipt.
    pub open spec fn compensated(self, id: Seq<char>, receipt: ReceiptView) -> BrokerView {
        BrokerView {
            receipts: self.receipts.insert(
                receipt.id,
                ReceiptRowView {
                    receipt,
                    effect: id,
                    key: self.effects[id].key(),
                    compensating: true,
                },
            ),
            ..self.with_phase(id, PhaseView::Compensated { compensating_receipt: receipt.id })
        }
    }

    /// The store after the effect was proposed.
    pub open spec fn proposed(self, effect: EffectView) -> BrokerView {
        BrokerView {
            effects: self.effects.insert(
                effect.id,
                RowView { effect, observed: None, approval: None },
            ),
            order: self.order.push(effect.id),
            ..self
        }
    }
}

/// Why the observed world does not meet the expected values, for the first key
/// in key order from position `k` on that it does not meet.
pub open spec fn drift_from(
    expected: Map<Seq<char>, Json>,
    observed: Json,
    ks: Seq<Seq<char>>,
    k: int,
) -> Option<Seq<char>>
    decreases ks.len() - k,
{
    if k >= ks.len() {
        None
    } else {
        match crate::json::member(observed, ks[k]) {
            Some(o) => if json_eq(o, expected[ks[k]]) {
                drift_from(expected, observed, ks, k + 1)
            } else {
                Some(
                    "precondition `"@ + ks[k] + "` drifted: expected "@ + canonical(
                        expected[ks[k]],
                    ) + ", observed "@ + canonical(o),
                )
            },
            None => Some("precondition `"@ + ks[k] + "` is no longer observable"@),
        }
    }
}

/// Why the observed world does not meet the expected values; `None` when it
/// does. Anything but an object expects nothing.
pub open spec fn drift(expected: Json, observed: Json) -> Option<Seq<char>> {
    match expected {
        Json::Object(m) => drift_from(m, observed, sorted_keys(m), 0),
        _ => None,
    }
}

/// What becomes of a commit before the world is observed again.
pub enum Gate {
    /// There is no such effect.
    NotFound,
    /// The effect is committed already; this is its receipt.
    Done(Seq<char>),
    /// An earlier attempt is unresolved.
    InDoubt,
    /// The effect is approved, and its approval is not there.
    NoApproval,
    /// The effect is in no phase to be committed from.
    WrongPhase,
    /// What the commit rests on has changed.
    Stale(Seq<char>),
    /// The connector is not registered.
    NoConnector,
    /// The world has to be observed again.
    Observe,
}

/// The first reason, in the order of the checks, why what the commit rests on
/// has changed: the contract, the contract since its approval, the policy since
/// the approval, or the lease.
pub open spec fn staleness(
    row: RowView,
    epoch: u64,
    lease_valid: bool,
) -> Option<Seq<char>> {
    let live = row.effect.contract.hash();
    if live != row.effect.contract_hash {
        Some("contract content no longer matches its recorded hash"@)
    } else if row.effect.phase is Approved && row.approval->0.contract_hash != live {
        Some("contract hash changed since approval"@)
    } else if row.effect.phase is Approved && row.approval->0.policy_epoch != epoch {
        Some(
            "policy epoch advanced from "@ + text::decimal(row.approval->0.policy_epoch as nat)
                + " to "@ + text::decimal(epoch as nat) + " since approval"@,
        )
    } else if !lease_valid {
        Some("lease `"@ + row.effect.lease + "` is no longer valid"@)
    } else {
        None
    }
}

/// What becomes of a commit before the world is observed again.
pub open spec fn gate(b: BrokerView, id: Seq<char>, epoch: u64, lease_valid: bool) -> Gate {
    if !b.effects.contains_key(id) {
        Gate::NotFound
    } else {
        let row = b.effects[id];
        match row.effect.phase {
            PhaseView::Committed { receipt } => Gate::Done(receipt),
            PhaseView::Committing { .. } => Gate::InDoubt,
            PhaseView::Approved { .. } => if row.approval is None {
                Gate::NoApproval
            } else {
                revalidated(b, row, epoch, lease_valid)
            },
            PhaseView::Prepared { .. } => if row.effect.contract.class.spec_needs_approval() {
                Gate::WrongPhase
            } else {
                revalidated(b, row, epoch, lease_valid)
            },
            _ => Gate::WrongPhase,
        }
    }
}

/// What becomes of a commit from a phase to be committed from.
pub open spec fn revalidated(b: BrokerView, row: RowView, epoch: u64, lease_valid: bool) -> Gate {
    match staleness(row, epoch, lease_valid) {
        Some(reason) => Gate::Stale(reason),
        None => if b.connectors.contains(route(row.effect.contract.operation)) {
            Gate::Observe
        } else {
            Gate::NoConnector
        },
    }
}

/// What a receipt's witness is the hash of: the approval or, without one, a
/// note of the automatic commit of this contract.
pub open spec fn witness(approval: Option<ApprovalView>, contract_hash: Seq<char>) -> Json {
    match approval {
        Some(a) => a.json(),
        None => Json::Object(
            map!["auto_commit"@ => Json::Bool(true), "contract_hash"@ => Json::Text(contract_hash)],
        ),
    }
}

/// The body of the receipt of a commit.
pub open spec fn commit_body(
    effect: EffectView,
    approval: Option<ApprovalView>,
    epoch: u64,
    response: Json,
    now: Timestamp,
) -> BodyView {
    BodyView {
        effect: effect.id,
        who: effect.proposer,
        operation: effect.contract.operation,
        resource: effect.contract.resource,
        contract_hash: effect.contract_hash,
        branch: effect.branch,
        step: effect.step,
        policy_epoch: epoch,
        authorization_witness: canonical_hash(witness(approval, effect.contract_hash)),
        external_response_digest: canonical_hash(response),
        committed_at: now,
    }
}

/// The body of the receipt of a compensation.
pub open spec fn compensation_body(effect: EffectView, response: Json, now: Timestamp) -> BodyView {
    BodyView {
        effect: effect.id,
        who: effect.proposer,
        operation: effect.contract.operation + ".compensate"@,
        resource: effect.contract.resource,
        contract_hash: effect.contract_hash,
        branch: effect.branch,
        step: effect.step,
        policy_epoch: 0,
        authorization_witness: canonical_hash(
            Json::Object(map!["compensation_for"@ => Json::Text(effect.id)]),
        ),
        external_response_digest: canonical_hash(response),
        committed_at: now,
    }
}

/// The effects in one phase, or all of them, newest proposal first. Phase names
/// are compared without regard to ASCII case.
pub open spec fn listed(b: BrokerView, order: Seq<Seq<char>>, phase: Option<Seq<char>>) -> Seq<
    EffectView,
>
    decreases order.len(),
{
    if order.len() == 0 {
        Seq::empty()
    } else {
        let e = b.effects[order.last()].effect;
        let rest = listed(b, order.drop_last(), phase);
        if phase is Some && text::ascii_lower(e.phase.name()) != text::ascii_lower(phase->0) {
            rest
        } else {
            seq![e] + rest
        }
    }
}

/// The store after a persisted effect was taken back in.
pub open spec fn restored(b: BrokerView, row: RowView) -> BrokerView {
    BrokerView {
        effects: b.effects.insert(row.effect.id, row),
        order: b.order.push(row.effect.id),
        ..b
    }
}

/// An effect that was being committed when the process ended is in doubt after a
/// restart, whatever the policy and the lease say by then, and with its claim it
/// keeps every effect, itself included, from being committed under its key.
pub proof fn law_interrupted_commits_stay_in_doubt(
    b: BrokerView,
    row: RowView,
    other: Seq<char>,
    epoch: u64,
    lease_valid: bool,
)
    requires
        !b.effects.contains_key(row.effect.id),
        row.effect.phase is Committing,
        restored(b, row).effects.contains_key(other),
        restored(b, row).effects[other].key() == row.key(),
    ensures
        gate(restored(b, row), row.effect.id, epoch, lease_valid) == Gate::InDoubt,
        !restored(b, row).claimable(row.effect.id),
        b.claims.contains_key(row.key()) && b.claims[row.key()] == row.effect.id ==> !restored(
            b,
            row,
        ).claimable(other),
{
}

/// Of two effects that share an idempotency key, claiming one keeps the other,
/// and the one itself, from being claimed: at most one committer per key reaches
/// the external system.
pub proof fn law_one_committer_per_key(
    b: BrokerView,
    winner: Seq<char>,
    other: Seq<char>,
    at: Timestamp,
)
    requires
        b.wf(),
        b.claimable(winner),
        b.effects.contains_key(other),
        b.effects[other].key() == b.effects[winner].key(),
    ensures
        !b.claimed(winner, at).claimable(other),
{
}

/// A claim can be had only on a key that no effect holds.
pub proof fn law_held_key_is_not_claimable(b: BrokerView, id: Seq<char>)
    requires
        b.consistent(),
        b.claimable(id),
    ensures
        !b.claims.contains_key(b.effects[id].key()),
{
    let key = b.effects[id].key();
    if b.claims.contains_key(key) {
        assert(b.claim_ok(key));
    }
}

/// Nothing is ever claimed again under a key that has a committed receipt.
pub proof fn law_committed_key_is_closed(b: BrokerView, id: Seq<char>)
    requires
        b.effects.contains_key(id),
        b.has_receipt(b.effects[id].key()),
    ensures
        !b.claimable(id),
{
}

/// Committing closes the key: once the receipt is stored, no effect under the
/// key, this one included, can be claimed.
pub proof fn law_finalizing_closes_the_key(
    b: BrokerView,
    id: Seq<char>,
    receipt: ReceiptView,
    other: Seq<char>,
)
    requires
        b.effects.contains_key(id),
        b.effects.contains_key(other),
        b.effects[other].key() == b.effects[id].key(),
    ensures
        !b.finalized(id, receipt).claimable(other),
{
    let after = b.finalized(id, receipt);
    assert(after.receipt_under(receipt.id, b.effects[id].key()));
}

/// Compensation does not reopen the key.
pub proof fn law_compensation_keeps_the_key_closed(
    b: BrokerView,
    id: Seq<char>,
    receipt: ReceiptView,
    key: Seq<char>,
)
    requires
        b.has_receipt(key),
        !b.receipts.contains_key(receipt.id),
    ensures
        b.compensated(id, receipt).has_receipt(key),
{
    let r = choose|r: Seq<char>| #[trigger] b.receipt_under(r, key);
    assert(b.compensated(id, receipt).receipt_under(r, key));
}

/// Releasing a claim that is held undoes it: the effect can be claimed again.
pub proof fn law_release_allows_retry(b: BrokerView, id: Seq<char>, at: Timestamp)
    requires
        b.consistent(),
        b.claimable(id),
    ensures
        b.claimed(id, at).released(id, b.effects[id].effect.phase).claimable(id),
        b.claimed(id, at).released(id, b.effects[id].effect.phase) == b,
{
    law_held_key_is_not_claimable(b, id);
    let after = b.claimed(id, at).released(id, b.effects[id].effect.phase);
    assert(after.effects =~= b.effects);
    assert(after.claims =~= b.claims);
    assert(after =~= b);
}

/// An irreversible or opaque effect is let through only from an approval.
pub proof fn law_irreversible_effects_need_approval(
    b: BrokerView,
    id: Seq<char>,
    epoch: u64,
    lease_valid: bool,
)
    requires
        gate(b, id, epoch, lease_valid) is Observe,
        b.effects[id].effect.contract.class.spec_needs_approval(),
    ensures
        b.effects[id].effect.phase is Approved,
{
}

/// To be let through means that nothing the approval rested on has drifted:
/// the contract is the one that was hashed and approved, the policy epoch is the
/// approval's, and the lease is valid.
pub proof fn law_gate_revalidates_everything(
    b: BrokerView,
    id: Seq<char>,
    epoch: u64,
    lease_valid: bool,
)
    requires
        gate(b, id, epoch, lease_valid) is Observe,
    ensures
        lease_valid,
        b.effects[id].effect.contract.hash() == b.effects[id].effect.contract_hash,
        b.effects[id].effect.phase is Approved ==> b.effects[id].approval is Some
            && b.effects[id].approval->0.policy_epoch == epoch
            && b.effects[id].approval->0.contract_hash == b.effects[id].effect.contract_hash,
{
}

/// A world that has not moved does not count as drifted.
pub proof fn law_unchanged_world_does_not_drift(m: Map<Seq<char>, Json>)
    requires
        m.dom().finite(),
    ensures
        drift(Json::Object(m), Json::Object(m)) is None,
{
    let listed = text::lemma_ascending_exists(m.dom());
    let ks = sorted_keys(m);
    assert(text::ascending(ks) && ks.to_set() == m.dom());
    assert forall|i: int| 0 <= i < ks.len() implies m.contains_key(#[trigger] ks[i]) by {
        assert(ks.to_set().contains(ks[i]));
    }
    lemma_no_drift(m, sorted_keys(m), 0);
}

proof fn lemma_no_drift(m: Map<Seq<char>, Json>, ks: Seq<Seq<char>>, k: int)
    requires
        forall|i: int| 0 <= i < ks.len() ==> m.contains_key(#[trigger] ks[i]),
        0 <= k,
    ensures
        drift_from(m, Json::Object(m), ks, k) is None,
    decreases ks.len() - k,
{
    if k < ks.len() {
        lemma_no_drift(m, ks, k + 1);
    }
}

/// A phase change to or from anything but a commit keeps the store in order.
pub proof fn lemma_row_change_wf(b: BrokerView, id: Seq<char>, row: RowView)
    requires
        b.wf(),
        b.effects.contains_key(id),
        row.effect.id == id,
        row.key() == b.effects[id].key(),
    ensures
        ({
            let a = BrokerView { effects: b.effects.insert(id, row), ..b };
            let was = b.effects[id].effect.phase;
            let is = row.effect.phase;
            &&& a.wf()
            &&& b.consistent() && (is == was || (!(was is Committing) && !(is is Committing) && !(
            is is Committed))) && (is is Approved ==> row.approval is Some) ==> a.consistent()
        }),
{
    let a = BrokerView { effects: b.effects.insert(id, row), ..b };
    lemma_receipts_kept(b, a);
    let was = b.effects[id].effect.phase;
    let is = row.effect.phase;
    if b.consistent() && (is == was || (!(was is Committing) && !(is is Committing) && !(
    is is Committed))) && (is is Approved ==> row.approval is Some) {
        assert forall|key: Seq<char>| #[trigger] a.claims.contains_key(key) implies a.claim_ok(
            key,
        ) by {
            assert(b.claim_ok(key));
        }
        assert forall|i: Seq<char>| #[trigger] a.effects.contains_key(i) implies a.row_ok(i) by {
            assert(b.row_ok(i));
        }
    }
}

proof fn lemma_receipts_kept(b: BrokerView, a: BrokerView)
    requires
        b.wf(),
        a.receipts == b.receipts,
    ensures
        forall|r: Seq<char>, key: Seq<char>| #[trigger]
            a.receipt_under(r, key) == b.receipt_under(r, key),
        forall|r1: Seq<char>, r2: Seq<char>, key: Seq<char>|
            #![trigger a.receipt_under(r1, key), a.receipt_under(r2, key)]
            a.receipt_under(r1, key) && a.receipt_under(r2, key) ==> r1 == r2,
{
    assert forall|r1: Seq<char>, r2: Seq<char>, key: Seq<char>|
        #![trigger a.receipt_under(r1, key), a.receipt_under(r2, key)]
        a.receipt_under(r1, key) && a.receipt_under(r2, key) implies r1 == r2 by {
        assert(b.receipt_under(r1, key) && b.receipt_under(r2, key));
    }
}

/// A store with the same effects and receipts is as much in order.
pub proof fn lemma_same_receipts_wf(b: BrokerView, a: BrokerView)
    requires
        b.wf(),
        a.effects == b.effects,
        a.order == b.order,
        a.receipts == b.receipts,
    ensures
        a.wf(),
{
    lemma_receipts_kept(b, a);
}

/// Taking a persisted effect back in keeps the store in order.
pub proof fn lemma_restored_wf(b: BrokerView, row: RowView)
    requires
        b.wf(),
        !b.effects.contains_key(row.effect.id),
    ensures
        restored(b, row).wf(),
{
    let a = restored(b, row);
    let id = row.effect.id;
    lemma_receipts_kept(b, a);
    assert(!b.order.contains(id));
    assert forall|i: int, j: int|
        0 <= i < a.order.len() && 0 <= j < a.order.len() && i != j implies a.order[i]
        != a.order[j] by {
        if i < b.order.len() {
            assert(b.order.contains(b.order[i]));
        }
        if j < b.order.len() {
            assert(b.order.contains(b.order[j]));
        }
    }
    assert forall|x: Seq<char>| #[trigger] a.effects.contains_key(x) <==> a.order.contains(x) by {
        if b.order.contains(x) {
            let i = b.order.index_of(x);
            assert(a.order[i] == x);
        }
        assert(a.order[b.order.len() as int] == id);
        if a.order.contains(x) && x != id {
            let i = a.order.index_of(x);
            assert(b.order[i] == x);
        }
    }
}

/// Taking a persisted receipt back in keeps the store in order.
pub proof fn lemma_restored_receipt_wf(b: BrokerView, row: ReceiptRowView)
    requires
        b.wf(),
        !b.receipts.contains_key(row.receipt.id),
        row.compensating || !b.has_receipt(row.key),
    ensures
        (BrokerView { receipts: b.receipts.insert(row.receipt.id, row), ..b }).wf(),
{
    let a = BrokerView { receipts: b.receipts.insert(row.receipt.id, row), ..b };
    assert forall|r1: Seq<char>, r2: Seq<char>, k: Seq<char>|
        #![trigger a.receipt_under(r1, k), a.receipt_under(r2, k)]
        a.receipt_under(r1, k) && a.receipt_under(r2, k) implies r1 == r2 by {
        if r1 != row.receipt.id {
            assert(b.receipt_under(r1, k));
        }
        if r2 != row.receipt.id {
            assert(b.receipt_under(r2, k));
        }
    }
}

pub proof fn lemma_proposed_wf(b: BrokerView, effect: EffectView)
    requires
        b.wf(),
        !b.effects.contains_key(effect.id),
        effect.phase is Proposed,
    ensures
        b.proposed(effect).wf(),
        b.consistent() ==> b.proposed(effect).consistent(),
{
    let a = b.proposed(effect);
    lemma_receipts_kept(b, a);
    assert(!b.order.contains(effect.id));
    assert forall|i: int, j: int|
        0 <= i < a.order.len() && 0 <= j < a.order.len() && i != j implies a.order[i]
        != a.order[j] by {
        if i < b.order.len() {
            assert(b.order.contains(b.order[i]));
        }
        if j < b.order.len() {
            assert(b.order.contains(b.order[j]));
        }
    }
    assert forall|id: Seq<char>| #[trigger] a.effects.contains_key(id) <==> a.order.contains(
        id,
    ) by {
        if b.order.contains(id) {
            let i = b.order.index_of(id);
            assert(a.order[i] == id);
        }
        assert(a.order[b.order.len() as int] == effect.id);
        if a.order.contains(id) && id != effect.id {
            let i = a.order.index_of(id);
            assert(b.order[i] == id);
        }
    }
    if b.consistent() {
        assert forall|key: Seq<char>| #[trigger] a.claims.contains_key(key) implies a.claim_ok(
            key,
        ) by {
            assert(b.claim_ok(key));
        }
        assert forall|i: Seq<char>| #[trigger] a.effects.contains_key(i) implies a.row_ok(i) by {
            if i != effect.id {
                assert(b.effects.contains_key(i));
                assert(b.row_ok(i));
            }
        }
    }
}

pub proof fn lemma_claimed_wf(b: BrokerView, id: Seq<char>, at: Timestamp)
    requires
        b.wf(),
        b.claimable(id),
    ensures
        b.claimed(id, at).wf(),
        b.consistent() ==> b.claimed(id, at).consistent(),
{
    let a = b.claimed(id, at);
    lemma_receipts_kept(b, a);
    if b.consistent() {
        assert forall|key: Seq<char>| #[trigger] a.claims.contains_key(key) implies a.claim_ok(
            key,
        ) by {
            if key != b.effects[id].key() {
                assert(b.claims.contains_key(key));
                assert(b.claim_ok(key));
            }
        }
        assert forall|i: Seq<char>| #[trigger] a.effects.contains_key(i) implies a.row_ok(i) by {
            assert(b.row_ok(i));
        }
    }
}

pub proof fn lemma_released_wf(b: BrokerView, id: Seq<char>, restore: PhaseView)
    requires
        b.wf(),
        b.effects.contains_key(id),
        !(restore is Committing),
        !(restore is Committed),
        restore is Approved ==> b.effects[id].approval is Some,
    ensures
        b.released(id, restore).wf(),
        b.consistent() ==> b.released(id, restore).consistent(),
{
    let a = b.released(id, restore);
    lemma_receipts_kept(b, a);
    if b.consistent() {
        assert forall|key: Seq<char>| #[trigger] a.claims.contains_key(key) implies a.claim_ok(
            key,
        ) by {
            assert(b.claims.contains_key(key));
            assert(b.claim_ok(key));
        }
        assert forall|i: Seq<char>| #[trigger] a.effects.contains_key(i) implies a.row_ok(i) by {
            assert(b.row_ok(i));
        }
    }
}

pub proof fn lemma_finalized_wf(b: BrokerView, id: Seq<char>, receipt: ReceiptView)
    requires
        b.wf(),
        b.effects.contains_key(id),
        !b.receipts.contains_key(receipt.id),
        !b.has_receipt(b.effects[id].key()),
    ensures
        b.finalized(id, receipt).wf(),
        b.consistent() ==> b.finalized(id, receipt).consistent(),
{
    let a = b.finalized(id, receipt);
    let k = b.effects[id].key();
    assert forall|r: Seq<char>, key: Seq<char>| r != receipt.id implies #[trigger] a.receipt_under(
        r,
        key,
    ) == b.receipt_under(r, key) by {}
    assert forall|r1: Seq<char>, r2: Seq<char>, key: Seq<char>|
        #![trigger a.receipt_under(r1, key), a.receipt_under(r2, key)]
        a.receipt_under(r1, key) && a.receipt_under(r2, key) implies r1 == r2 by {
        if r1 != receipt.id {
            assert(b.receipt_under(r1, key));
        }
        if r2 != receipt.id {
            assert(b.receipt_under(r2, key));
        }
    }
    if b.consistent() {
        assert forall|key: Seq<char>| #[trigger] a.claims.contains_key(key) implies a.claim_ok(
            key,
        ) by {
            assert(b.claims.contains_key(key));
            assert(b.claim_ok(key));
        }
        assert forall|i: Seq<char>| #[trigger] a.effects.contains_key(i) implies a.row_ok(i) by {
            assert(b.row_ok(i));
            if i == id {
                assert(a.receipt_under(receipt.id, k));
            } else if let PhaseView::Committed { receipt: r } = b.effects[i].effect.phase {
                assert(b.receipt_under(r, b.effects[i].key()));
                assert(a.receipt_under(r, b.effects[i].key()));
            }
        }
    }
}

pub proof fn lemma_compensated_wf(b: BrokerView, id: Seq<char>, receipt: ReceiptView)
    requires
        b.wf(),
        b.effects.contains_key(id),
        b.effects[id].effect.phase is Committed || b.effects[id].effect.phase is Compensated,
        !b.receipts.contains_key(receipt.id),
    ensures
        b.compensated(id, receipt).wf(),
        b.consistent() ==> b.compensated(id, receipt).consistent(),
{
    let a = b.compensated(id, receipt);
    assert forall|r: Seq<char>, key: Seq<char>| #[trigger] a.receipt_under(r, key)
        == b.receipt_under(r, key) by {}
    assert forall|r1: Seq<char>, r2: Seq<char>, key: Seq<char>|
        #![trigger a.receipt_under(r1, key), a.receipt_under(r2, key)]
        a.receipt_under(r1, key) && a.receipt_under(r2, key) implies r1 == r2 by {
        assert(b.receipt_under(r1, key) && b.receipt_under(r2, key));
    }
    if b.consistent() {
        assert forall|key: Seq<char>| #[trigger] a.claims.contains_key(key) implies a.claim_ok(
            key,
        ) by {
            assert(b.claim_ok(key));
        }
        assert forall|i: Seq<char>| #[trigger] a.effects.contains_key(i) implies a.row_ok(i) by {
            assert(b.row_ok(i));
            if let PhaseView::Committed { receipt: r } = b.effects[i].effect.phase {
                if i != id {
                    assert(a.receipt_under(r, b.effects[i].key()));
                }
            }
        }
    }
}

/// The world meets what is expected of it exactly if it shows, for every expected
/// member, an equal value under the same key.
pub proof fn law_world_holds_iff_every_member_does(m: Map<Seq<char>, Json>, observed: Json)
    requires
        m.dom().finite(),
    ensures
        drift(Json::Object(m), observed) is None <==> forall|k: Seq<char>| #[trigger]
            m.contains_key(k) ==> (observed matches Json::Object(o) && o.contains_key(k) && json_eq(
                o[k],
                m[k],
            )),
{
    let listed = text::lemma_ascending_exists(m.dom());
    let ks = sorted_keys(m);
    assert(text::ascending(ks) && ks.to_set() == m.dom());
    lemma_drift_from(m, observed, ks, 0);
    assert forall|k: Seq<char>| #[trigger] m.contains_key(k) implies exists|i: int|
        0 <= i < ks.len() && ks[i] == k by {
        assert(ks.to_set().contains(k));
    }
    if drift(Json::Object(m), observed) is None {
        assert forall|k: Seq<char>| #[trigger] m.contains_key(k) implies met(m, observed, k) by {
            let i = choose|i: int| 0 <= i < ks.len() && ks[i] == k;
            assert(met(m, observed, ks[i]));
        }
    }
    if forall|k: Seq<char>| #[trigger]
        m.contains_key(k) ==> (observed matches Json::Object(o) && o.contains_key(k) && json_eq(
            o[k],
            m[k],
        )) {
        assert forall|i: int| 0 <= i < ks.len() implies #[trigger] met(m, observed, ks[i]) by {
            assert(ks.to_set().contains(ks[i]));
            assert(m.contains_key(ks[i]));
        }
    }
}

spec fn met(m: Map<Seq<char>, Json>, observed: Json, k: Seq<char>) -> bool {
    observed matches Json::Object(o) && o.contains_key(k) && json_eq(o[k], m[k])
}

proof fn lemma_drift_from(m: Map<Seq<char>, Json>, observed: Json, ks: Seq<Seq<char>>, k: int)
    requires
        0 <= k <= ks.len(),
    ensures
        drift_from(m, observed, ks, k) is None <==> forall|i: int|
            k <= i < ks.len() ==> #[trigger] met(m, observed, ks[i]),
    decreases ks.len() - k,
{
    if k < ks.len() {
        lemma_drift_from(m, observed, ks, k + 1);
        if drift_from(m, observed, ks, k) is None {
            assert forall|i: int| k <= i < ks.len() implies #[trigger] met(m, observed, ks[i]) by {
                if i > k {
                    assert(met(m, observed, ks[i]));
                }
            }
        }
        if forall|i: int| k <= i < ks.len() ==> #[trigger] met(m, observed, ks[i]) {
            assert(met(m, observed, ks[k]));
        }
    }
}

/// Anything but an object expects nothing of the world.
pub proof fn law_only_objects_expect_something(expected: Json, observed: Json)
    requires
        !(expected is Object),
    ensures
        drift(expected, observed) is None,
{
}

/// The reason that is given names the first key, in key order, that the world does
/// not meet, with what was expected and what is there.
pub proof fn law_drift_names_the_first_key(
    m: Map<Seq<char>, Json>,
    observed: Json,
    ks: Seq<Seq<char>>,
    i: int,
)
    requires
        ks == sorted_keys(m),
        0 <= i < ks.len(),
        forall|j: int|
            0 <= j < i ==> (observed matches Json::Object(o) && o.contains_key(#[trigger] ks[j])
                && json_eq(o[ks[j]], m[ks[j]])),
        !(observed matches Json::Object(o) && o.contains_key(ks[i]) && json_eq(o[ks[i]], m[ks[i]])),
    ensures
        drift(Json::Object(m), observed) == Some(
            if observed matches Json::Object(o) && o.contains_key(ks[i]) {
                "precondition `"@ + ks[i] + "` drifted: expected "@ + canonical(m[ks[i]])
                    + ", observed "@ + canonical(observed->Object_0[ks[i]])
            } else {
                "precondition `"@ + ks[i] + "` is no longer observable"@
            },
        ),
{
    lemma_drift_reaches(m, observed, ks, 0, i);
}

proof fn lemma_drift_reaches(
    m: Map<Seq<char>, Json>,
    observed: Json,
    ks: Seq<Seq<char>>,
    k: int,
    i: int,
)
    requires
        0 <= k <= i < ks.len(),
        forall|j: int|
            k <= j < i ==> (observed matches Json::Object(o) && o.contains_key(#[trigger] ks[j])
                && json_eq(o[ks[j]], m[ks[j]])),
    ensures
        drift_from(m, observed, ks, k) == drift_from(m, observed, ks, i),
    decreases i - k,
{
    if k < i {
        assert(observed matches Json::Object(o) && o.contains_key(ks[k]) && json_eq(
            o[ks[k]],
            m[ks[k]],
        ));
        lemma_drift_reaches(m, observed, ks, k + 1, i);
    }
}

/// A commit goes on to look at the world exactly if the effect is approved, under
/// this policy epoch and for this very contract, or prepared and of a class that
/// needs no approval; the contract is still the one that was hashed; the lease is
/// valid; and a connector owns the operation.
pub proof fn law_commits_go_on_only_on_firm_ground(
    b: BrokerView,
    id: Seq<char>,
    epoch: u64,
    lease_valid: bool,
)
    ensures
        gate(b, id, epoch, lease_valid) is Observe <==> {
            let row = b.effects[id];
            &&& b.effects.contains_key(id)
            &&& match row.effect.phase {
                PhaseView::Approved { .. } => row.approval matches Some(a) && a.contract_hash
                    == row.effect.contract.hash() && a.policy_epoch == epoch,
                PhaseView::Prepared { .. } => !(row.effect.contract.class is Irreversible) && !(
                row.effect.contract.class is OpaqueExternal),
                _ => false,
            }
            &&& row.effect.contract_hash == row.effect.contract.hash()
            &&& lease_valid
            &&& b.connectors.contains(route(row.effect.contract.operation))
        },
{
}

/// How a commit is answered that does not go on: a committed effect with its receipt,
/// one in flight as in doubt, one that is not ready as such, and one whose ground has
/// shifted as stale, with the first thing that has.
pub proof fn law_commits_that_stop_say_why(
    b: BrokerView,
    id: Seq<char>,
    epoch: u64,
    lease_valid: bool,
)
    requires
        b.effects.contains_key(id),
    ensures
        ({
            let row = b.effects[id];
            let e = row.effect;
            let g = gate(b, id, epoch, lease_valid);
            let auto = e.phase is Prepared && !(e.contract.class is Irreversible) && !(
            e.contract.class is OpaqueExternal);
            let ready = auto || (e.phase is Approved && row.approval is Some);
            let changed = e.contract.hash() != e.contract_hash;
            let a = row.approval->0;
            &&& e.phase matches PhaseView::Committed { receipt } ==> g == Gate::Done(receipt)
            &&& e.phase is Committing ==> g == Gate::InDoubt
            &&& e.phase is Approved && row.approval is None ==> g == Gate::NoApproval
            &&& e.phase is Proposed || e.phase is Aborted || e.phase is Compensated || (
            e.phase is Prepared && !auto) ==> g == Gate::WrongPhase
            &&& ready && changed ==> g == Gate::Stale(
                "contract content no longer matches its recorded hash"@,
            )
            &&& ready && !changed && e.phase is Approved && a.contract_hash != e.contract.hash()
                ==> g == Gate::Stale("contract hash changed since approval"@)
            &&& ready && !changed && e.phase is Approved && a.contract_hash == e.contract.hash()
                && a.policy_epoch != epoch ==> g == Gate::Stale(
                "policy epoch advanced from "@ + text::decimal(a.policy_epoch as nat) + " to "@
                    + text::decimal(epoch as nat) + " since approval"@,
            )
            &&& ready && !changed && (e.phase is Prepared || (a.contract_hash == e.contract.hash()
                && a.policy_epoch == epoch)) && !lease_valid ==> g == Gate::Stale(
                "lease `"@ + e.lease + "` is no longer valid"@,
            )
        }),
{
}

/// An effect can be claimed for commit exactly if it is approved or prepared, no
/// other effect holds its key, and no committed receipt stands under the key.
pub proof fn law_claims_go_to_ready_effects(b: BrokerView, id: Seq<char>)
    ensures
        b.claimable(id) <==> {
            let row = b.effects[id];
            let key = row.effect.contract.idempotency_key;
            &&& b.effects.contains_key(id)
            &&& row.effect.phase is Approved || row.effect.phase is Prepared
            &&& !b.claims.contains_key(key) || b.claims[key] == id
            &&& forall|r: Seq<char>| #[trigger]
                b.receipts.contains_key(r) ==> b.receipts[r].compensating || b.receipts[r].key
                    != key
        },
{
    let key = b.effects[id].effect.contract.idempotency_key;
    if b.has_receipt(key) {
        let r = choose|r: Seq<char>| #[trigger] b.receipt_under(r, key);
        assert(b.receipts.contains_key(r));
    }
    assert forall|r: Seq<char>| #[trigger] b.receipts.contains_key(r) && !b.receipts[r].compensating
        && b.receipts[r].key == key implies b.has_receipt(key) by {
        assert(b.receipt_under(r, key));
    }
}

/// Claiming moves this effect to `committing`, gives it its key, and changes nothing
/// else.
pub proof fn law_claiming_changes_one_effect(
    b: BrokerView,
    id: Seq<char>,
    at: Timestamp,
    other: Seq<char>,
)
    requires
        b.effects.contains_key(id),
    ensures
        ({
            let a = b.claimed(id, at);
            let key = b.effects[id].effect.contract.idempotency_key;
            &&& a.effects[id].effect == (EffectView {
                phase: PhaseView::Committing { claimed_at: at },
                ..b.effects[id].effect
            })
            &&& a.effects[id].observed == b.effects[id].observed
            &&& a.effects[id].approval == b.effects[id].approval
            &&& a.effects.dom() == b.effects.dom()
            &&& other != id ==> a.effects[other] == b.effects[other]
            &&& a.claims.contains_key(key) && a.claims[key] == id
            &&& other != key ==> a.claims.contains_key(other) == b.claims.contains_key(other)
                && a.claims[other] == b.claims[other]
            &&& a.receipts == b.receipts && a.order == b.order && a.connectors == b.connectors
        }),
{
    assert(b.claimed(id, at).effects.dom() =~= b.effects.dom());
}

/// Releasing puts an effect that was being committed back, frees its key where it
/// held it, and changes nothing else.
pub proof fn law_releasing_changes_one_effect(
    b: BrokerView,
    id: Seq<char>,
    restore: PhaseView,
    other: Seq<char>,
)
    requires
        b.effects.contains_key(id),
    ensures
        ({
            let a = b.released(id, restore);
            let key = b.effects[id].effect.contract.idempotency_key;
            &&& b.effects[id].effect.phase is Committing ==> a.effects[id].effect == (EffectView {
                phase: restore,
                ..b.effects[id].effect
            })
            &&& !(b.effects[id].effect.phase is Committing) ==> a.effects[id] == b.effects[id]
            &&& other != id ==> a.effects.contains_key(other) == b.effects.contains_key(other)
                && a.effects[other] == b.effects[other]
            &&& !(a.claims.contains_key(key) && a.claims[key] == id)
            &&& b.claims.contains_key(key) && b.claims[key] != id ==> a.claims == b.claims
            &&& other != key ==> a.claims.contains_key(other) == b.claims.contains_key(other)
                && a.claims[other] == b.claims[other]
            &&& a.receipts == b.receipts && a.order == b.order && a.connectors == b.connectors
        }),
{
}

/// Committing stores the receipt under the effect's key, as a committed one, names it
/// in the effect's phase, frees the key's claim, and changes nothing else.
pub proof fn law_committing_stores_the_receipt(
    b: BrokerView,
    id: Seq<char>,
    receipt: ReceiptView,
    other: Seq<char>,
)
    requires
        b.effects.contains_key(id),
    ensures
        ({
            let a = b.finalized(id, receipt);
            let key = b.effects[id].effect.contract.idempotency_key;
            &&& a.effects[id].effect == (EffectView {
                phase: PhaseView::Committed { receipt: receipt.id },
                ..b.effects[id].effect
            })
            &&& other != id ==> a.effects.contains_key(other) == b.effects.contains_key(other)
                && a.effects[other] == b.effects[other]
            &&& a.receipts.contains_key(receipt.id)
            &&& a.receipts[receipt.id].receipt == receipt
            &&& a.receipts[receipt.id].effect == id
            &&& a.receipts[receipt.id].key == key
            &&& !a.receipts[receipt.id].compensating
            &&& other != receipt.id ==> a.receipts.contains_key(other) == b.receipts.contains_key(
                other,
            ) && a.receipts[other] == b.receipts[other]
            &&& !a.claims.contains_key(key)
            &&& other != key ==> a.claims.contains_key(other) == b.claims.contains_key(other)
                && a.claims[other] == b.claims[other]
            &&& a.order == b.order && a.connectors == b.connectors
        }),
{
}

/// Compensating stores a compensating receipt and names it in the effect's phase; the
/// receipt of the commit stays.
pub proof fn law_compensating_stores_the_receipt(
    b: BrokerView,
    id: Seq<char>,
    receipt: ReceiptView,
    other: Seq<char>,
)
    requires
        b.effects.contains_key(id),
    ensures
        ({
            let a = b.compensated(id, receipt);
            &&& a.effects[id].effect == (EffectView {
                phase: PhaseView::Compensated { compensating_receipt: receipt.id },
                ..b.effects[id].effect
            })
            &&& other != id ==> a.effects.contains_key(other) == b.effects.contains_key(other)
                && a.effects[other] == b.effects[other]
            &&& a.receipts.contains_key(receipt.id)
            &&& a.receipts[receipt.id].receipt == receipt
            &&& a.receipts[receipt.id].effect == id
            &&& a.receipts[receipt.id].compensating
            &&& other != receipt.id ==> a.receipts.contains_key(other) == b.receipts.contains_key(
                other,
            ) && a.receipts[other] == b.receipts[other]
            &&& a.claims == b.claims && a.order == b.order && a.connectors == b.connectors
        }),
{
}

/// A proposal is stored as it is, the newest of all, with neither observation nor
/// approval.
pub proof fn law_proposals_are_stored(b: BrokerView, effect: EffectView, other: Seq<char>)
    ensures
        ({
            let a = b.proposed(effect);
            &&& a.effects.contains_key(effect.id)
            &&& a.effects[effect.id].effect == effect
            &&& a.effects[effect.id].observed is None
            &&& a.effects[effect.id].approval is None
            &&& other != effect.id ==> a.effects.contains_key(other) == b.effects.contains_key(
                other,
            ) && a.effects[other] == b.effects[other]
            &&& a.order == b.order.push(effect.id)
            &&& a.receipts == b.receipts && a.claims == b.claims && a.connectors == b.connectors
        }),
{
}

/// An operation goes to the connector that its part before the first dot names.
pub proof fn law_operations_go_by_their_prefix(operation: Seq<char>)
    ensures
        ({
            let c = route(operation);
            &&& c.len() <= operation.len()
            &&& c == operation.take(c.len() as int)
            &&& forall|i: int| 0 <= i < c.len() ==> #[trigger] c[i] != '.'
            &&& c.len() < operation.len() ==> operation[c.len() as int] == '.'
        }),
{
    text::lemma_pos_is_first(operation, '.');
}

/// A receipt says who did what, where and under which policy, what authorized it, and
/// what came back.
pub proof fn law_receipts_say_what_was_done(
    effect: EffectView,
    approval: Option<ApprovalView>,
    epoch: u64,
    response: Json,
    now: Timestamp,
)
    ensures
        ({
            let r = commit_body(effect, approval, epoch, response, now);
            &&& r.effect == effect.id
            &&& r.who == effect.proposer
            &&& r.operation == effect.contract.operation
            &&& r.resource == effect.contract.resource
            &&& r.contract_hash == effect.contract_hash
            &&& r.branch == effect.branch
            &&& r.step == effect.step
            &&& r.policy_epoch == epoch
            &&& approval matches Some(a) ==> r.authorization_witness == canonical_hash(a.json())
            &&& r.external_response_digest == canonical_hash(response)
            &&& r.committed_at == now
            &&& {
                let c = compensation_body(effect, response, now);
                &&& c.effect == effect.id
                &&& c.who == effect.proposer
                &&& c.operation == effect.contract.operation + ".compensate"@
                &&& c.resource == effect.contract.resource
                &&& c.contract_hash == effect.contract_hash
                &&& c.branch == effect.branch
                &&& c.step == effect.step
                &&& c.external_response_digest == canonical_hash(response)
                &&& c.committed_at == now
            }
        }),
{
}

/// What authorized a commit tells approvals apart: two approvals with the same
/// witness are by the same approver, of the same contract, under the same policy.
pub proof fn law_witnesses_tell_approvals_apart(a: ApprovalView, b: ApprovalView)
    requires
        a.json() == b.json(),
    ensures
        a.approver == b.approver,
        a.policy_epoch == b.policy_epoch,
        a.contract_hash == b.contract_hash,
        a.approved_at.wire_text() == b.approved_at.wire_text(),
{
    reveal_strlit("approver");
    reveal_strlit("approved_at");
    reveal_strlit("policy_epoch");
    reveal_strlit("contract_hash");
    assert("approver"@.len() == 8 && "approved_at"@.len() == 11 && "policy_epoch"@.len() == 12
        && "contract_hash"@.len() == 13);
    let m = a.json()->Object_0;
    let n = b.json()->Object_0;
    assert(m["approver"@] == Json::Text(a.approver) && n["approver"@] == Json::Text(b.approver));
    assert(m["approved_at"@] == Json::Text(a.approved_at.wire_text()) && n["approved_at"@]
        == Json::Text(b.approved_at.wire_text()));
    assert(m["policy_epoch"@] == Json::Number(NumberView::PosInt(a.policy_epoch))
        && n["policy_epoch"@] == Json::Number(NumberView::PosInt(b.policy_epoch)));
    assert(m["contract_hash"@] == Json::Text(a.contract_hash) && n["contract_hash"@] == Json::Text(
        b.contract_hash,
    ));
}

/// The newest effect is listed first, where it is in the wanted phase, before all
/// that are listed without it.
pub proof fn law_effects_are_listed_newest_first(
    b: BrokerView,
    order: Seq<Seq<char>>,
    id: Seq<char>,
    phase: Option<Seq<char>>,
)
    ensures
        listed(b, Seq::empty(), phase) == Seq::<EffectView>::empty(),
        ({
            let e = b.effects[id].effect;
            let older = listed(b, order, phase);
            let all = listed(b, order.push(id), phase);
            if phase matches Some(p) && text::ascii_lower(e.phase.name()) != text::ascii_lower(p) {
                all == older
            } else {
                all == seq![e] + older
            }
        }),
{
    assert(order.push(id).drop_last() =~= order);
}

/// A persisted effect is taken back in as it is, the newest of those there.
pub proof fn law_effects_come_back_as_they_are(b: BrokerView, row: RowView, other: Seq<char>)
    ensures
        ({
            let a = restored(b, row);
            &&& a.effects.contains_key(row.effect.id)
            &&& a.effects[row.effect.id] == row
            &&& other != row.effect.id ==> a.effects.contains_key(other) == b.effects.contains_key(
                other,
            ) && a.effects[other] == b.effects[other]
            &&& a.order == b.order.push(row.effect.id)
            &&& a.receipts == b.receipts && a.claims == b.claims && a.connectors == b.connectors
        }),
{
}

/// In JSON every term of an approval stands under its own name; an automatic commit is
/// witnessed by a note that names the contract.
pub proof fn law_witnesses_have_their_names(a: ApprovalView, contract_hash: Seq<char>)
    ensures
        witness(Some(a), contract_hash) matches Json::Object(m) && {
            &&& m.contains_key("approver"@) && m["approver"@] == Json::Text(a.approver)
            &&& m.contains_key("approved_at"@) && m["approved_at"@] == Json::Text(
                a.approved_at.wire_text(),
            )
            &&& m.contains_key("policy_epoch"@) && m["policy_epoch"@] == Json::Number(
                NumberView::PosInt(a.policy_epoch),
            )
            &&& m.contains_key("contract_hash"@) && m["contract_hash"@] == Json::Text(
                a.contract_hash,
            )
        },
        witness(None, contract_hash) matches Json::Object(m) && m.contains_key("auto_commit"@)
            && m["auto_commit"@] == Json::Bool(true) && m.contains_key("contract_hash"@)
            && m["contract_hash"@] == Json::Text(contract_hash),
{
    reveal_strlit("approver");
    reveal_strlit("approved_at");
    reveal_strlit("policy_epoch");
    reveal_strlit("contract_hash");
    reveal_strlit("auto_commit");
    assert("approver"@.len() == 8 && "approved_at"@.len() == 11 && "policy_epoch"@.len() == 12
        && "contract_hash"@.len() == 13 && "auto_commit"@.len() == 11);
}

/// In a consistent store a key is held only by an effect that is being committed under
/// it, an approved effect has its approval, and a committed one its receipt.
pub proof fn law_consistent_rows_agree(b: BrokerView, key: Seq<char>, id: Seq<char>)
    requires
        b.consistent(),
    ensures
        b.claims.contains_key(key) ==> b.effects.contains_key(b.claims[key])
            && b.effects[b.claims[key]].effect.contract.idempotency_key == key
            && b.effects[b.claims[key]].effect.phase is Committing,
        b.effects.contains_key(id) && b.effects[id].effect.phase is Approved
            ==> b.effects[id].approval is Some,
        b.effects.contains_key(id) ==> (b.effects[id].effect.phase matches PhaseView::Committed {
            receipt,
        } ==> b.receipts.contains_key(receipt) && b.receipts[receipt].key
            == b.effects[id].effect.contract.idempotency_key && !b.receipts[receipt].compensating),
{
    if b.claims.contains_key(key) {
        assert(b.claim_ok(key));
    }
    if b.effects.contains_key(id) {
        assert(b.row_ok(id));
    }
}

} // verus!
