//! External effects: each transition at the broker, and the event that it
//! leaves in the ledger.
use vstd::prelude::*;
use crate::api::connector::fileless;
use crate::api::kernel::{Kernel, same_but_broker_and_ledger, same_but_ledger};
use crate::api::step::NodePlan;
use crate::broker::effects::{
    CommitStart, InDoubtResolution, OperatorResolution, approval_recorded, commit_started,
    compensation_recorded, doubt_resolved, never_executed, preparation_recorded, recovery_made,
};
use crate::capability::LeaseView;
use crate::delta::DeltaView;
use crate::effect::{EffectClass, EffectView, PendingEffect, Receipt, ReceiptView};
use crate::error::{KernelError, KernelResult};
use crate::identity::keys::{KernelKeypair, verification};
use crate::ids::{EffectId, EpisodeId, LeaseId, PrincipalId, ReceiptId};
use crate::json::{Json, JsonMap, NumberView, Value, member, object2, object3};
use crate::ledger::event::{EventKind, EventView};
use crate::ledger::query::irreversible_commit;
use crate::ledger::store::{Attribution, EventWriter, grown, next_seq, receipt_stored, room_for};
use crate::state::{StateDelta, StateNode};
use crate::time::Timestamp;
use crate::traits::{CommitProbe, CommitResult, PreparedEffect};

verus! {

/// What the events of an effect are attributed to.
pub open spec fn effect_attribution(e: EffectView, episode: Seq<char>) -> Attribution {
    Attribution { episode, branch: Some(e.branch), step: Some(e.step), principal: e.proposer }
}

/// A writer for the events of an effect.
pub fn effect_writer(effect: &PendingEffect, episode: &EpisodeId) -> (r: EventWriter)
    ensures
        r@ == effect_attribution(effect@, episode@),
{
    EventWriter {
        episode: episode.clone(),
        branch: Some(effect.branch.clone()),
        step: Some(effect.step.clone()),
        principal: effect.proposer.clone(),
    }
}

/// The lease can still back a commit: it is known, not revoked and not expired.
/// Its uses do not matter, for the proposal has consumed one.
pub open spec fn lease_live(leases: Map<Seq<char>, LeaseView>, id: Seq<char>, now: Timestamp) -> bool {
    leases.contains_key(id) && !leases[id].revoked && now.before(leases[id].expires_at)
}

/// What the ledger records of a commit, and under which kind.
pub open spec fn commit_event(e: EffectView, result: KernelResult<Receipt>) -> (EventKind, Json) {
    match result {
        Ok(receipt) => (
            EventKind::EffectCommitted,
            Json::Object(
                map![
                    "effect_id"@ => Json::Text(e.id),
                    "receipt_id"@ => Json::Text(receipt@.id),
                    "class"@ => Json::Text(e.contract.class.spec_wire())
                ],
            ),
        ),
        Err(error) => (
            EventKind::EffectAborted,
            Json::Object(
                if error is CommitInDoubt {
                    map![
                        "effect_id"@ => Json::Text(e.id),
                        "in_doubt"@ => Json::Bool(true),
                        "reason"@ => Json::Text(error.spec_message())
                    ]
                } else {
                    map![
                        "effect_id"@ => Json::Text(e.id),
                        "reason"@ => Json::Text(error.spec_message())
                    ]
                },
            ),
        ),
    }
}

/// The receipts with one more; a key or an identifier that is taken keeps its
/// receipt.
pub open spec fn receipts_with(m: Map<Seq<char>, ReceiptView>, key: Seq<char>, receipt: ReceiptView) -> Map<
    Seq<char>,
    ReceiptView,
> {
    if m.contains_key(key) || receipt_stored(m, receipt.id) {
        m
    } else {
        m.insert(key, receipt)
    }
}

/// A resolution in JSON.
pub open spec fn resolution_json(r: InDoubtResolution) -> Json {
    Json::Object(
        match r {
            InDoubtResolution::Committed { receipt } => map![
                "resolution"@ => Json::Text("committed"@),
                "receipt"@ => Json::Text(receipt@)
            ],
            InDoubtResolution::Aborted => map!["resolution"@ => Json::Text("aborted"@)],
            InDoubtResolution::StillInDoubt => map![
                "resolution"@ => Json::Text("still_in_doubt"@)
            ],
        },
    )
}

fn resolution_value(r: &InDoubtResolution) -> (v: Value)
    ensures
        v@ == resolution_json(*r),
{
    let mut m = JsonMap::new();
    match r {
        InDoubtResolution::Committed { receipt } => {
            m.insert("resolution".to_owned(), Value::text("committed"));
            m.insert("receipt".to_owned(), Value::text(receipt.as_str()));
        },
        InDoubtResolution::Aborted => {
            m.insert("resolution".to_owned(), Value::text("aborted"));
        },
        InDoubtResolution::StillInDoubt => {
            m.insert("resolution".to_owned(), Value::text("still_in_doubt"));
        },
    }
    Value::Object(m)
}

/// What the ledger records of a recovery, and under which kind: the commit that was
/// confirmed, or the abort; nothing of an effect that stays in doubt.
pub open spec fn recovery_event(e: EffectView, r: InDoubtResolution) -> Option<(EventKind, Json)> {
    match r {
        InDoubtResolution::Committed { receipt } => Some(
            (
                EventKind::EffectCommitted,
                Json::Object(
                    map![
                        "effect_id"@ => Json::Text(e.id),
                        "receipt_id"@ => Json::Text(receipt@),
                        "class"@ => Json::Text(e.contract.class.spec_wire()),
                        "recovery"@ => Json::Bool(true),
                        "resolution"@ => resolution_json(r)
                    ],
                ),
            ),
        ),
        InDoubtResolution::Aborted => Some(
            (
                EventKind::EffectAborted,
                Json::Object(
                    map![
                        "effect_id"@ => Json::Text(e.id),
                        "reason"@ => Json::Text(never_executed()),
                        "recovery"@ => Json::Bool(true),
                        "resolution"@ => resolution_json(r)
                    ],
                ),
            ),
        ),
        InDoubtResolution::StillInDoubt => None,
    }
}

/// The events after a recovery.
pub open spec fn recovery_log(
    events: Seq<EventView>,
    e: EffectView,
    episode: Seq<char>,
    r: InDoubtResolution,
    now: Timestamp,
) -> Seq<EventView> {
    match recovery_event(e, r) {
        Some((kind, payload)) => grown(
            events,
            effect_attribution(e, episode),
            kind,
            payload,
            Seq::empty(),
            now,
        ),
        None => events,
    }
}

/// The delta of a commit.
pub open spec fn committed_delta(policy_epoch: u64, receipt: Seq<char>) -> DeltaView {
    DeltaView {
        effects_committed: seq![receipt],
        ..fileless(policy_epoch, Seq::empty(), Seq::empty())
    }
}

/// The receipts after the operator settled an effect.
pub open spec fn receipts_settled(
    m: Map<Seq<char>, ReceiptView>,
    key: Seq<char>,
    r: KernelResult<Option<Receipt>>,
) -> Map<Seq<char>, ReceiptView> {
    match r {
        Ok(Some(receipt)) => receipts_with(m, key, receipt@),
        _ => m,
    }
}

impl Kernel {
    /// Whether a lease can still back a commit.
    pub fn lease_is_live(&self, lease: &LeaseId, now: Timestamp) -> (r: bool)
        ensures
            r == lease_live(self.leases@, lease@, now),
    {
        match self.leases.get(lease) {
            Ok(l) => !l.revoked && now.is_before(&l.expires_at),
            Err(_) => false,
        }
    }

    /// Record the dry-run preview of a proposed effect.
    pub fn prepare_effect(
        &mut self,
        effect: &EffectId,
        prepared: &PreparedEffect,
        episode: &EpisodeId,
        now: Timestamp,
    ) -> (r: KernelResult<()>)
        requires
            old(self).wf(),
            room_for(old(self).ledger.events(), 1),
        ensures
            final(self).wf(),
            same_but_broker_and_ledger(*final(self), *old(self)),
            final(self).broker.spec_signer() == old(self).broker.spec_signer(),
            preparation_recorded(
                old(self).broker@,
                final(self).broker@,
                effect@,
                *prepared,
                r,
            ),
            final(self).ledger.raw() == old(self).ledger.raw(),
            final(self).ledger.receipts() == old(self).ledger.receipts(),
            final(self).ledger.events() == match r {
                Ok(_) => grown(
                    old(self).ledger.events(),
                    effect_attribution(old(self).broker@.effects[effect@].effect, episode@),
                    EventKind::EffectPrepared,
                    Json::Object(
                        map![
                            "effect_id"@ => Json::Text(effect@),
                            "preview"@ => prepared.preview@
                        ],
                    ),
                    Seq::empty(),
                    now,
                ),
                Err(_) => old(self).ledger.events(),
            },
    {
        if let Err(e) = self.broker.record_prepared(effect, prepared) {
            return Err(e);
        }
        match self.broker.effect(effect) {
            Ok(e) => {
                let writer = effect_writer(&e, episode);
                let payload = object2(
                    "effect_id",
                    Value::text(effect.as_str()),
                    "preview",
                    prepared.preview.clone(),
                );
                writer.record(&mut self.ledger, EventKind::EffectPrepared, payload, now);
                Ok(())
            },
            Err(e) => Err(e),
        }
    }

    /// Approve a prepared effect, pinning the current policy epoch.
    pub fn approve_effect(
        &mut self,
        effect: &EffectId,
        approver: &PrincipalId,
        episode: &EpisodeId,
        now: Timestamp,
    ) -> (r: KernelResult<()>)
        requires
            old(self).wf(),
            room_for(old(self).ledger.events(), 1),
        ensures
            final(self).wf(),
            same_but_broker_and_ledger(*final(self), *old(self)),
            final(self).broker.spec_signer() == old(self).broker.spec_signer(),
            approval_recorded(
                old(self).broker@,
                final(self).broker@,
                effect@,
                approver@,
                old(self).policy.spec_document().policy_epoch,
                now,
                r,
            ),
            final(self).ledger.raw() == old(self).ledger.raw(),
            final(self).ledger.receipts() == old(self).ledger.receipts(),
            final(self).ledger.events() == match r {
                Ok(_) => grown(
                    old(self).ledger.events(),
                    effect_attribution(old(self).broker@.effects[effect@].effect, episode@),
                    EventKind::EffectApproved,
                    Json::Object(
                        map![
                            "effect_id"@ => Json::Text(effect@),
                            "approver"@ => Json::Text(approver@),
                            "policy_epoch"@ => Json::Number(
                                NumberView::PosInt(old(self).policy.spec_document().policy_epoch),
                            )
                        ],
                    ),
                    Seq::empty(),
                    now,
                ),
                Err(_) => old(self).ledger.events(),
            },
    {
        let epoch = self.policy_epoch();
        if let Err(e) = self.broker.approve(effect, approver.clone(), epoch, now) {
            return Err(e);
        }
        match self.broker.effect(effect) {
            Ok(e) => {
                let writer = effect_writer(&e, episode);
                let payload = object3(
                    "effect_id",
                    Value::text(effect.as_str()),
                    "approver",
                    Value::text(approver.as_str()),
                    "policy_epoch",
                    Value::from_u64(epoch),
                );
                writer.record(&mut self.ledger, EventKind::EffectApproved, payload, now);
                Ok(())
            },
            Err(e) => Err(e),
        }
    }

    /// Start to commit an effect: the broker looks again at the contract hash,
    /// the current policy epoch and the live lease. What follows (what the
    /// connector observes, the claim, the call itself) goes through the broker;
    /// how it ends is recorded by [`Kernel::record_commit`].
    pub fn commit_effect(&mut self, effect: &EffectId, now: Timestamp) -> (r: KernelResult<
        CommitStart,
    >)
        requires
            old(self).wf(),
        ensures
            final(self).wf(),
            same_but_broker_and_ledger(*final(self), *old(self)),
            final(self).ledger == old(self).ledger,
            final(self).broker.spec_signer() == old(self).broker.spec_signer(),
            commit_started(
                old(self).broker@,
                final(self).broker@,
                effect@,
                old(self).policy.spec_document().policy_epoch,
                old(self).broker@.effects.contains_key(effect@) && lease_live(
                    old(self).leases@,
                    old(self).broker@.effects[effect@].effect.lease,
                    now,
                ),
                r,
            ),
    {
        let epoch = self.policy_epoch();
        let valid = match self.broker.effect(effect) {
            Ok(e) => self.lease_is_live(&e.lease, now),
            Err(_) => false,
        };
        self.broker.commit(effect, epoch, valid)
    }

    /// Record how a commit ended. The receipt in the broker store is the durable
    /// record of the external effect; the ledger's copy and the state that is
    /// returned follow it, and their failure never invents a second commit. An
    /// outcome in doubt is marked as such: nothing was aborted, and nothing may
    /// retry.
    pub fn record_commit(
        &mut self,
        effect: &PendingEffect,
        result: &KernelResult<Receipt>,
        episode: &EpisodeId,
        head: &StateNode,
        now: Timestamp,
    ) -> (r: Option<NodePlan>)
        requires
            old(self).wf(),
            room_for(old(self).ledger.events(), 1),
        ensures
            final(self).wf(),
            same_but_ledger(*final(self), *old(self)),
            final(self).ledger.raw() == old(self).ledger.raw(),
            final(self).ledger.events() == grown(
                old(self).ledger.events(),
                effect_attribution(effect@, episode@),
                commit_event(effect@, *result).0,
                commit_event(effect@, *result).1,
                Seq::empty(),
                now,
            ),
            match *result {
                Ok(receipt) => {
                    &&& final(self).ledger.receipts() == receipts_with(
                        old(self).ledger.receipts(),
                        effect@.contract.idempotency_key,
                        receipt@,
                    )
                    &&& r matches Some(p) && p.delta@ == committed_delta(
                        head.delta.policy_epoch,
                        receipt@.id,
                    ) && p.workspace_root == head.workspace_root && p.replay_class
                        == head.replay_class && p.cause == next_seq(old(self).ledger.events())
                },
                Err(_) => {
                    &&& final(self).ledger.receipts() == old(self).ledger.receipts()
                    &&& r is None
                },
            },
    {
        let writer = effect_writer(effect, episode);
        match result {
            Ok(receipt) => {
                let stored = self.ledger.store_receipt(
                    receipt,
                    effect.contract.idempotency_key.as_str(),
                );
                let payload = object3(
                    "effect_id",
                    Value::text(effect.id.as_str()),
                    "receipt_id",
                    Value::text(receipt.id.as_str()),
                    "class",
                    Value::text(effect.contract.class.wire()),
                );
                let event = writer.record(
                    &mut self.ledger,
                    EventKind::EffectCommitted,
                    payload,
                    now,
                );
                let mut effects_committed: Vec<ReceiptId> = Vec::new();
                effects_committed.push(receipt.id.clone());
                let delta = StateDelta {
                    files: Vec::new(),
                    processes_started: Vec::new(),
                    processes_exited: Vec::new(),
                    tool_sessions: Vec::new(),
                    policy_epoch: head.delta.policy_epoch,
                    effects_proposed: Vec::new(),
                    effects_committed,
                };
                proof {
                    assert(delta@ =~= committed_delta(head.delta.policy_epoch, receipt@.id));
                }
                Some(
                    NodePlan {
                        delta,
                        workspace_root: head.workspace_root.clone(),
                        replay_class: head.replay_class,
                        cause: event.body.seq,
                    },
                )
            },
            Err(error) => {
                let reason = error.message();
                let payload = match error {
                    KernelError::CommitInDoubt { .. } => object3(
                        "effect_id",
                        Value::text(effect.id.as_str()),
                        "in_doubt",
                        Value::Bool(true),
                        "reason",
                        Value::Text(reason),
                    ),
                    _ => object2(
                        "effect_id",
                        Value::text(effect.id.as_str()),
                        "reason",
                        Value::Text(reason),
                    ),
                };
                writer.record(&mut self.ledger, EventKind::EffectAborted, payload, now);
                None
            },
        }
    }

    /// Recover one effect in doubt from its connector's answer, `None` when the
    /// connector gave none, and record how it was resolved: a commit as committed,
    /// with its receipt and class, an abort as aborted, either with the resolution.
    /// An effect that stays in doubt, or is not in doubt, leaves no event.
    pub fn recover_in_doubt_effect(
        &mut self,
        effect: &EffectId,
        probe: Option<CommitProbe>,
        episode: &EpisodeId,
        now: Timestamp,
    ) -> (r: InDoubtResolution)
        requires
            old(self).wf(),
            room_for(old(self).ledger.events(), 1),
        ensures
            final(self).wf(),
            same_but_broker_and_ledger(*final(self), *old(self)),
            final(self).broker.spec_signer() == old(self).broker.spec_signer(),
            recovery_made(old(self).broker, final(self).broker, effect@, probe, now, r),
            final(self).ledger.raw() == old(self).ledger.raw(),
            final(self).ledger.receipts() == old(self).ledger.receipts(),
            final(self).ledger.events() == recovery_log(
                old(self).ledger.events(),
                old(self).broker@.effects[effect@].effect,
                episode@,
                r,
                now,
            ),
    {
        let known = self.broker.effect(effect);
        let resolution = self.broker.recover_one(effect, probe, now);
        if let Ok(pending) = known {
            let writer = effect_writer(&pending, episode);
            let mut m = JsonMap::new();
            m.insert("effect_id".to_owned(), Value::text(effect.as_str()));
            match &resolution {
                InDoubtResolution::Committed { receipt } => {
                    m.insert("receipt_id".to_owned(), Value::text(receipt.as_str()));
                    m.insert("class".to_owned(), Value::text(pending.contract.class.wire()));
                    m.insert("recovery".to_owned(), Value::Bool(true));
                    m.insert("resolution".to_owned(), resolution_value(&resolution));
                    let payload = Value::Object(m);
                    writer.record(&mut self.ledger, EventKind::EffectCommitted, payload, now);
                },
                InDoubtResolution::Aborted => {
                    m.insert(
                        "reason".to_owned(),
                        Value::text(
                            "crash recovery: connector confirmed the external effect never executed",
                        ),
                    );
                    m.insert("recovery".to_owned(), Value::Bool(true));
                    m.insert("resolution".to_owned(), resolution_value(&resolution));
                    let payload = Value::Object(m);
                    writer.record(&mut self.ledger, EventKind::EffectAborted, payload, now);
                },
                InDoubtResolution::StillInDoubt => {},
            }
        }
        resolution
    }

    /// Operator override for an in-doubt effect (out-of-band verified). The
    /// ledger keeps the receipt under the effect's idempotency key.
    pub fn resolve_in_doubt_effect(
        &mut self,
        effect: &EffectId,
        outcome: OperatorResolution,
        now: Timestamp,
    ) -> (r: KernelResult<Option<Receipt>>)
        requires
            old(self).wf(),
        ensures
            final(self).wf(),
            same_but_broker_and_ledger(*final(self), *old(self)),
            final(self).broker.spec_signer() == old(self).broker.spec_signer(),
            doubt_resolved(old(self).broker, final(self).broker, effect@, outcome, now, r),
            final(self).ledger.events() == old(self).ledger.events(),
            final(self).ledger.raw() == old(self).ledger.raw(),
            final(self).ledger.receipts() == receipts_settled(
                old(self).ledger.receipts(),
                old(self).broker@.effects[effect@].key(),
                r,
            ),
    {
        let key = match self.broker.effect(effect) {
            Ok(e) => e.contract.idempotency_key,
            Err(e) => {
                return Err(e);
            },
        };
        let r = self.broker.resolve_in_doubt(effect, outcome, now);
        if let Ok(Some(receipt)) = &r {
            let stored = self.ledger.store_receipt(receipt, key.as_str());
        }
        r
    }

    /// Record the compensating action for a committed effect.
    pub fn compensate_effect(
        &mut self,
        effect: &EffectId,
        result: &CommitResult,
        episode: &EpisodeId,
        now: Timestamp,
    ) -> (r: KernelResult<Receipt>)
        requires
            old(self).wf(),
            room_for(old(self).ledger.events(), 1),
        ensures
            final(self).wf(),
            same_but_broker_and_ledger(*final(self), *old(self)),
            final(self).broker.spec_signer() == old(self).broker.spec_signer(),
            compensation_recorded(
                old(self).broker,
                final(self).broker,
                effect@,
                *result,
                now,
                r,
            ),
            final(self).ledger.raw() == old(self).ledger.raw(),
            final(self).ledger.receipts() == old(self).ledger.receipts(),
            final(self).ledger.events() == match r {
                Ok(receipt) => grown(
                    old(self).ledger.events(),
                    effect_attribution(old(self).broker@.effects[effect@].effect, episode@),
                    EventKind::EffectAborted,
                    Json::Object(
                        map![
                            "effect_id"@ => Json::Text(effect@),
                            "compensating_receipt"@ => Json::Text(receipt@.id),
                            "compensated"@ => Json::Bool(true)
                        ],
                    ),
                    Seq::empty(),
                    now,
                ),
                Err(_) => old(self).ledger.events(),
            },
    {
        let pending = match self.broker.effect(effect) {
            Ok(e) => e,
            Err(e) => {
                return Err(e);
            },
        };
        match self.broker.record_compensated(effect, result, now) {
            Ok(receipt) => {
                let writer = effect_writer(&pending, episode);
                let payload = object3(
                    "effect_id",
                    Value::text(effect.as_str()),
                    "compensating_receipt",
                    Value::text(receipt.id.as_str()),
                    "compensated",
                    Value::Bool(true),
                );
                writer.record(&mut self.ledger, EventKind::EffectAborted, payload, now);
                Ok(receipt)
            },
            Err(e) => Err(e),
        }
    }

    /// Verify a receipt signature against the kernel public key.
    pub fn verify_receipt(&self, receipt: &Receipt) -> (r: KernelResult<bool>)
        ensures
            match (r, verification(self.public_key@, receipt@.body.json(), receipt@.signature)) {
                (Ok(b), Ok(v)) => b == v,
                (Err(e), Err(why)) => e matches KernelError::Other(m) && m@ == "key error: "@ + why,
                _ => false,
            },
    {
        let body = receipt.body.to_value();
        match KernelKeypair::verify_canonical(
            &self.public_key,
            &body,
            receipt.signature.as_str(),
        ) {
            Ok(b) => Ok(b),
            Err(e) => Err(e.into_kernel()),
        }
    }
}

/// Every receipt that the kernel's broker signs passes the kernel's own
/// verification.
pub proof fn law_kernel_receipts_verify(k: Kernel, receipt: ReceiptView)
    requires
        k.wf(),
        k.broker.signed(receipt),
    ensures
        verification(k.public_key@, receipt.body.json(), receipt.signature) == Ok::<
            bool,
            Seq<char>,
        >(true),
{
    crate::identity::keys::law_receipts_verify(k.broker, receipt);
}

/// A recovery is recorded as what it was: the ledger gains a commit only where the
/// effect was committed, and that commit is found among the irreversible ones
/// where the effect cannot be undone.
pub proof fn law_recoveries_are_recorded_as_resolved(
    events: Seq<EventView>,
    e: EffectView,
    episode: Seq<char>,
    r: InDoubtResolution,
    now: Timestamp,
)
    ensures
        ({
            let after = recovery_log(events, e, episode, r, now);
            let n = events.len() as int;
            &&& r is StillInDoubt ==> after == events
            &&& !(r is StillInDoubt) ==> after.len() == n + 1 && after.take(n) == events
            &&& r is Committed ==> after[n].body.kind == EventKind::EffectCommitted
            &&& r is Aborted ==> after[n].body.kind == EventKind::EffectAborted
            &&& r is Committed && (e.contract.class == EffectClass::Irreversible || e.contract.class
                == EffectClass::OpaqueExternal) ==> irreversible_commit(after[n])
        }),
{
    let after = recovery_log(events, e, episode, r, now);
    if !(r is StillInDoubt) {
        assert(after.take(events.len() as int) =~= events);
    }
    assert("class"@ != "recovery"@ && "class"@ != "resolution"@) by {
        reveal_strlit("class");
        reveal_strlit("recovery");
        reveal_strlit("resolution");
        assert("class"@.len() != "recovery"@.len());
        assert("class"@.len() != "resolution"@.len());
    }
    if let InDoubtResolution::Committed { .. } = r {
        let last = after[events.len() as int];
        assert(member(last.body.payload, "class"@) == Some(Json::Text(e.contract.class.spec_wire())));
    }
}

/// A lease backs a commit as long as it is known, not revoked and not expired; how
/// often it was used does not matter.
pub proof fn law_leases_back_commits_until_they_expire(
    leases: Map<Seq<char>, LeaseView>,
    id: Seq<char>,
    now: Timestamp,
    uses: u32,
)
    ensures
        lease_live(leases, id, now) <==> leases.contains_key(id) && !leases[id].revoked && (now.secs
            < leases[id].expires_at.secs || (now.secs == leases[id].expires_at.secs && now.nanos
            < leases[id].expires_at.nanos)),
        leases.contains_key(id) ==> lease_live(
            leases.insert(id, LeaseView { remaining_uses: uses, ..leases[id] }),
            id,
            now,
        ) == lease_live(leases, id, now),
{
}

/// A commit is recorded as what it was: with its receipt and class where it went
/// through, as aborted with the reason where it did not, and marked where nobody knows.
pub proof fn law_commits_are_recorded_as_they_went(e: EffectView, result: KernelResult<Receipt>)
    ensures
        ({
            let (kind, payload) = commit_event(e, result);
            &&& kind is EffectCommitted <==> result is Ok
            &&& kind is EffectAborted <==> result is Err
            &&& member(payload, "effect_id"@) == Some(Json::Text(e.id))
            &&& result matches Ok(x) ==> member(payload, "receipt_id"@) == Some(
                Json::Text(x@.id),
            ) && member(payload, "class"@) == Some(
                Json::Text(e.contract.class.spec_wire()),
            ) && member(payload, "reason"@) is None
            &&& result matches Err(x) ==> member(payload, "reason"@) == Some(
                Json::Text(x.spec_message()),
            ) && member(payload, "receipt_id"@) is None
            &&& member(payload, "in_doubt"@) == Some(Json::Bool(true)) <==> (
            result matches Err(KernelError::CommitInDoubt { .. }))
        }),
{
    lemma_effect_keys();
}

proof fn lemma_effect_keys()
    ensures
        "effect_id"@ != "receipt_id"@ && "effect_id"@ != "class"@ && "effect_id"@ != "in_doubt"@,
        "effect_id"@ != "reason"@ && "receipt_id"@ != "class"@ && "receipt_id"@ != "in_doubt"@,
        "receipt_id"@ != "reason"@ && "class"@ != "in_doubt"@ && "class"@ != "reason"@,
        "in_doubt"@ != "reason"@ && "recovery"@ != "reason"@ && "recovery"@ != "in_doubt"@,
        "recovery"@ != "effect_id"@ && "recovery"@ != "receipt_id"@ && "recovery"@ != "class"@,
        "resolution"@ != "reason"@ && "resolution"@ != "recovery"@ && "resolution"@ != "effect_id"@,
        "resolution"@ != "receipt_id"@ && "resolution"@ != "class"@ && "resolution"@ != "receipt"@,
{
    reveal_strlit("effect_id");
    reveal_strlit("receipt_id");
    reveal_strlit("class");
    reveal_strlit("in_doubt");
    reveal_strlit("reason");
    reveal_strlit("recovery");
    reveal_strlit("resolution");
    reveal_strlit("receipt");
    assert("effect_id"@.len() == 9 && "receipt_id"@.len() == 10 && "class"@.len() == 5);
    assert("in_doubt"@.len() == 8 && "reason"@.len() == 6 && "recovery"@.len() == 8);
    assert("resolution"@.len() == 10 && "receipt"@.len() == 7);
    assert("in_doubt"@[0] != "recovery"@[0]);
    assert("receipt_id"@[2] != "resolution"@[2]);
}

/// A recovery is recorded with its effect and marked as one; a commit names its
/// receipt and an abort its reason.
pub proof fn law_recoveries_name_their_effect(e: EffectView, r: InDoubtResolution)
    ensures
        recovery_event(e, r) is None <==> r is StillInDoubt,
        recovery_event(e, r) matches Some((kind, payload)) ==> {
            &&& member(payload, "effect_id"@) == Some(Json::Text(e.id))
            &&& member(payload, "recovery"@) == Some(Json::Bool(true))
            &&& member(payload, "resolution"@) == Some(resolution_json(r))
            &&& kind is EffectCommitted <==> r is Committed
            &&& kind is EffectAborted <==> r is Aborted
            &&& r matches InDoubtResolution::Committed { receipt } ==> member(
                payload,
                "receipt_id"@,
            ) == Some(Json::Text(receipt@)) && member(payload, "class"@) == Some(
                Json::Text(e.contract.class.spec_wire()),
            )
        },
        member(resolution_json(r), "resolution"@) == Some(
            Json::Text(
                match r {
                    InDoubtResolution::Committed { .. } => "committed"@,
                    InDoubtResolution::Aborted => "aborted"@,
                    InDoubtResolution::StillInDoubt => "still_in_doubt"@,
                },
            ),
        ),
        r matches InDoubtResolution::Committed { receipt } ==> member(
            resolution_json(r),
            "receipt"@,
        ) == Some(Json::Text(receipt@)),
{
    lemma_effect_keys();
}

/// A key answers with one receipt for good: the first that is stored under it. An
/// identifier is stored once.
pub proof fn law_first_receipt_stays(
    m: Map<Seq<char>, ReceiptView>,
    key: Seq<char>,
    receipt: ReceiptView,
    other: Seq<char>,
)
    ensures
        m.contains_key(other) ==> receipts_with(m, key, receipt).contains_key(other)
            && receipts_with(m, key, receipt)[other] == m[other],
        other != key ==> (receipts_with(m, key, receipt).contains_key(other) <==> m.contains_key(
            other,
        )),
        !m.contains_key(key) && (forall|k: Seq<char>| #[trigger]
            m.contains_key(k) ==> m[k].id != receipt.id) ==> receipts_with(
            m,
            key,
            receipt,
        ).contains_key(key) && receipts_with(m, key, receipt)[key] == receipt,
        m.contains_key(other) && m[other].id == receipt.id ==> receipts_with(m, key, receipt) == m,
{
    if m.contains_key(other) && m[other].id == receipt.id {
        assert(crate::ledger::store::stored_under(m, other, receipt.id));
    }
}

/// The settled receipts gain one exactly where the operator's word made one.
pub proof fn law_settling_stores_what_was_made(
    m: Map<Seq<char>, ReceiptView>,
    key: Seq<char>,
    r: KernelResult<Option<Receipt>>,
)
    ensures
        r is Err ==> receipts_settled(m, key, r) == m,
        r matches Ok(None) ==> receipts_settled(m, key, r) == m,
        r matches Ok(Some(x)) ==> receipts_settled(m, key, r) == receipts_with(m, key, x@),
{
}

/// A commit changes no file: its delta says which receipt was committed, and under
/// which policy.
pub proof fn law_commits_change_no_file(epoch: u64, receipt: Seq<char>)
    ensures
        committed_delta(epoch, receipt).effects_committed == seq![receipt],
        committed_delta(epoch, receipt).files.len() == 0,
        committed_delta(epoch, receipt).effects_proposed.len() == 0,
        committed_delta(epoch, receipt).tool_sessions.len() == 0,
        committed_delta(epoch, receipt).policy_epoch == epoch,
{
}

/// The events of an effect are those of its proposer's step on its branch.
pub proof fn law_effects_are_attributed_to_their_step(e: EffectView, episode: Seq<char>)
    ensures
        effect_attribution(e, episode).episode == episode,
        effect_attribution(e, episode).branch == Some(e.branch),
        effect_attribution(e, episode).step == Some(e.step),
        effect_attribution(e, episode).principal == e.proposer,
{
}

} // verus!
