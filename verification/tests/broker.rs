//! The effect broker: propose, prepare, approve, commit exactly once, recover.
use agent_kernel::broker::effects::{
    CommitOutcome, CommitStart, CommitTicket, EffectBroker, InDoubtResolution, OperatorResolution,
    ReceiptSigner,
};
use agent_kernel::broker::secrets::SecretVault;
use agent_kernel::effect::{EffectClass, EffectContract, EffectPhase, PendingEffect, Receipt};
use agent_kernel::error::{KernelError, KernelResult};
use agent_kernel::hash::{canonical_json, hash_bytes, hash_canonical};
use agent_kernel::ids::{BranchId, EffectId, LeaseId, PrincipalId, ReceiptId, StepId};
use agent_kernel::json::{object1, object2, Value};
use agent_kernel::time::Timestamp;
use agent_kernel::traits::{CommitProbe, CommitResult, PreparedEffect};

const NOW: Timestamp = Timestamp { secs: 1_700_000_000, nanos: 0 };

struct TestSigner;

impl ReceiptSigner for TestSigner {
    fn sign(&self, message: &[u8]) -> (String, String) {
        (hash_bytes(message).as_str().to_string(), "test-key".to_string())
    }
}

/// How the external world answers a probe.
#[derive(Clone, Copy)]
enum ProbeMode {
    Unknown,
    /// Answer truthfully from the world's own execution record.
    FromRecord,
}

/// A fake external world whose observable state (a "head sha") can be changed
/// between broker calls.
struct World {
    sha: String,
    commits: u64,
    /// Upcoming commits to fail *without* executing.
    fail_before_effect: u64,
    /// Upcoming commits to fail *after* executing: the effect happened, the
    /// caller never learned.
    fail_after_effect: u64,
    probe_mode: ProbeMode,
}

impl World {
    fn prepare(&self) -> PreparedEffect {
        PreparedEffect {
            preview: object1("will", Value::text("push")),
            observed_preconditions: object1("head_sha", Value::text(&self.sha)),
        }
    }

    fn commit(&mut self, vault: &SecretVault) -> KernelResult<CommitResult> {
        if self.fail_before_effect > 0 {
            self.fail_before_effect -= 1;
            return Err(KernelError::Connector("simulated network error (pre-effect)".to_string()));
        }
        // The secret must never appear in any broker artifact.
        let auth = vault.with_secret("api_token", |s: &str| format!("Bearer {s}"))?;
        assert!(auth.contains("s3cr3t"));
        self.commits += 1;
        if self.fail_after_effect > 0 {
            self.fail_after_effect -= 1;
            return Err(KernelError::Connector("simulated lost response (post-effect)".to_string()));
        }
        Ok(CommitResult { response: object2("status", Value::text("ok"), "id", Value::from_u64(42)) })
    }

    fn probe(&self) -> CommitProbe {
        match self.probe_mode {
            ProbeMode::Unknown => CommitProbe::Unknown,
            ProbeMode::FromRecord if self.commits > 0 => CommitProbe::Committed(CommitResult {
                response: object2("status", Value::text("ok"), "via", Value::text("probe")),
            }),
            ProbeMode::FromRecord => CommitProbe::NotCommitted,
        }
    }
}

struct Rig {
    broker: EffectBroker<TestSigner>,
    world: World,
    vault: SecretVault,
}

fn rig() -> Rig {
    let mut vault = SecretVault::in_memory();
    vault.insert("api_token", "s3cr3t-hunter2");
    let mut broker = EffectBroker::in_memory(TestSigner);
    broker.register_connector("mock");
    Rig {
        broker,
        world: World {
            sha: "sha-1".to_string(),
            commits: 0,
            fail_before_effect: 0,
            fail_after_effect: 0,
            probe_mode: ProbeMode::Unknown,
        },
        vault,
    }
}

fn contract(class: EffectClass, key: &str) -> EffectContract {
    EffectContract {
        operation: "mock.push".to_string(),
        resource: "org/repo".to_string(),
        arguments: object1("branch", Value::text("main")),
        preconditions: object1("head_sha", Value::text("sha-1")),
        idempotency_key: key.to_string(),
        class,
    }
}

impl Rig {
    fn try_propose(&mut self, c: EffectContract) -> KernelResult<PendingEffect> {
        self.broker.propose(
            c,
            PrincipalId::generate(),
            BranchId::generate(),
            StepId::generate(),
            LeaseId::generate(),
            NOW,
        )
    }

    fn propose(&mut self, c: EffectContract) -> PendingEffect {
        self.try_propose(c).expect("propose")
    }

    fn prepare(&mut self, id: &EffectId) -> KernelResult<()> {
        self.broker.prepare(id)?;
        let prepared = self.world.prepare();
        self.broker.record_prepared(id, &prepared)
    }

    fn approve(&mut self, id: &EffectId, epoch: u64) {
        self.broker.approve(id, PrincipalId::generate(), epoch, NOW).expect("approve");
    }

    fn carry_out(&mut self, ticket: CommitTicket) -> KernelResult<Receipt> {
        let outcome = match self.world.commit(&self.vault) {
            Ok(result) => CommitOutcome::Executed(result),
            Err(error) => CommitOutcome::Failed { error, probe: Some(self.world.probe()) },
        };
        self.broker.finish_commit(ticket, outcome, NOW)
    }

    fn commit(&mut self, id: &EffectId, epoch: u64, lease_valid: bool) -> KernelResult<Receipt> {
        match self.broker.commit(id, epoch, lease_valid)? {
            CommitStart::Done(receipt) => Ok(receipt),
            CommitStart::Observe(ticket) => {
                let observed = self.world.prepare();
                self.broker.claim_commit(&ticket, &observed, NOW)?;
                self.carry_out(ticket)
            }
        }
    }

    fn compensate(&mut self, id: &EffectId) -> KernelResult<Receipt> {
        self.broker.compensate(id)?;
        let result = CommitResult { response: object1("status", Value::text("reverted")) };
        self.broker.record_compensated(id, &result, NOW)
    }

    fn recover_in_doubt(&mut self) -> Vec<InDoubtResolution> {
        let mut out = Vec::new();
        for fx in self.broker.in_doubt_effects() {
            let probe = self.world.probe();
            out.push(self.broker.recover_one(&fx.id, Some(probe), NOW));
        }
        out
    }

    fn phase(&self, id: &EffectId) -> EffectPhase {
        self.broker.effect(id).expect("effect").phase
    }
}

fn body(r: &Receipt) -> String {
    canonical_json(&r.body.to_value())
}

#[test]
fn happy_path_lifecycle() {
    let mut r = rig();
    let fx = r.propose(contract(EffectClass::Compensatable, "k-1"));
    r.prepare(&fx.id).expect("prepare");
    r.approve(&fx.id, 7);
    let receipt = r.commit(&fx.id, 7, true).expect("commit");
    assert_eq!(receipt.body.operation, "mock.push");
    assert_eq!(receipt.body.contract_hash.as_str(), fx.contract_hash.as_str());
    assert_eq!(receipt.body.policy_epoch, 7);
    assert_eq!(receipt.key_id, "test-key");
    assert_eq!(receipt.signature, hash_bytes(body(&receipt).as_bytes()).as_str());
    assert_eq!(r.world.commits, 1);
    // Phase is Committed and receipt is durable.
    assert!(matches!(r.phase(&fx.id), EffectPhase::Committed { .. }));
    assert_eq!(body(&r.broker.receipt(&receipt.id).expect("receipt")), body(&receipt));
    // Compensation produces a second, compensating receipt.
    let comp = r.compensate(&fx.id).expect("compensate");
    assert_eq!(comp.body.operation, "mock.push.compensate");
    assert!(matches!(r.phase(&fx.id), EffectPhase::Compensated { .. }));
    assert!(matches!(r.compensate(&fx.id), Err(KernelError::WrongEffectPhase { .. })));
}

#[test]
fn stale_precondition_aborts_commit() {
    let mut r = rig();
    let fx = r.propose(contract(EffectClass::Compensatable, "k-2"));
    r.prepare(&fx.id).expect("prepare");
    r.approve(&fx.id, 1);
    // The world moves under us.
    r.world.sha = "sha-2".to_string();
    match r.commit(&fx.id, 1, true).expect_err("must abort") {
        KernelError::StaleAuthorization { reason } => {
            assert!(reason.contains("head_sha"), "reason: {reason}")
        }
        other => panic!("expected StaleAuthorization, got {other:?}"),
    }
    assert_eq!(r.world.commits, 0);
    assert!(matches!(r.phase(&fx.id), EffectPhase::Aborted { .. }));
}

#[test]
fn changed_contract_aborts_commit() {
    let mut r = rig();
    let fx = r.propose(contract(EffectClass::Compensatable, "k-3"));
    r.prepare(&fx.id).expect("prepare");
    r.approve(&fx.id, 1);
    // Swap the stored contract arguments so the content no longer matches the
    // hash the approver saw.
    let mut stored = r.broker.effect(&fx.id).expect("effect");
    stored.contract.arguments = object1("branch", Value::text("release"));
    r.broker.save_effect(stored);
    let err = r.commit(&fx.id, 1, true).expect_err("must abort");
    assert!(matches!(err, KernelError::StaleAuthorization { .. }), "{err:?}");
    assert_eq!(r.world.commits, 0);
}

#[test]
fn policy_epoch_change_aborts_commit() {
    let mut r = rig();
    let fx = r.propose(contract(EffectClass::Compensatable, "k-4"));
    r.prepare(&fx.id).expect("prepare");
    r.approve(&fx.id, 3);
    match r.commit(&fx.id, 4, true).expect_err("must abort") {
        KernelError::StaleAuthorization { reason } => {
            assert!(reason.contains("policy epoch"), "{reason}")
        }
        other => panic!("{other:?}"),
    }
}

#[test]
fn invalid_lease_aborts_commit() {
    let mut r = rig();
    let fx = r.propose(contract(EffectClass::Compensatable, "k-5"));
    r.prepare(&fx.id).expect("prepare");
    r.approve(&fx.id, 1);
    match r.commit(&fx.id, 1, false).expect_err("must abort") {
        KernelError::StaleAuthorization { reason } => assert!(reason.contains("lease")),
        other => panic!("{other:?}"),
    }
}

#[test]
fn duplicate_idempotency_key_is_rejected() {
    let mut r = rig();
    let fx = r.propose(contract(EffectClass::Compensatable, "k-6"));
    r.prepare(&fx.id).expect("prepare");
    r.approve(&fx.id, 1);
    r.commit(&fx.id, 1, true).expect("commit");
    // A new proposal with the same key must be refused up front.
    let err = r.try_propose(contract(EffectClass::Compensatable, "k-6")).expect_err("duplicate");
    assert!(matches!(err, KernelError::DuplicateCommit { .. }), "{err:?}");
}

#[test]
fn irreversible_requires_explicit_approval() {
    let mut r = rig();
    let mut c = contract(EffectClass::Irreversible, "k-7");
    c.operation = "mock.email".to_string();
    let fx = r.propose(c);
    r.prepare(&fx.id).expect("prepare");
    // Committing straight from Prepared must be refused for irreversible
    // effects.
    let err = r.commit(&fx.id, 1, true).expect_err("needs approval");
    assert!(
        matches!(err, KernelError::WrongEffectPhase { expected: "approved", .. }),
        "{err:?}"
    );
    assert_eq!(r.world.commits, 0);
    // With approval, it commits.
    r.approve(&fx.id, 1);
    r.commit(&fx.id, 1, true).expect("commit");
}

#[test]
fn reversible_may_commit_from_prepared() {
    let mut r = rig();
    let fx = r.propose(contract(EffectClass::Compensatable, "k-8"));
    r.prepare(&fx.id).expect("prepare");
    let receipt = r.commit(&fx.id, 9, true).expect("commit");
    assert_eq!(receipt.body.policy_epoch, 9);
}

#[test]
fn no_secret_bytes_in_serialized_artifacts() {
    let mut r = rig();
    let fx = r.propose(contract(EffectClass::Compensatable, "k-9"));
    r.prepare(&fx.id).expect("prepare");
    r.approve(&fx.id, 1);
    let receipt = r.commit(&fx.id, 1, true).expect("commit");
    let effect_text = format!("{:?}", r.broker.effect(&fx.id).expect("fx"));
    let receipt_text = format!("{receipt:?}");
    for leak in ["s3cr3t", "hunter2"] {
        assert!(!effect_text.contains(leak), "secret leaked into PendingEffect");
        assert!(!receipt_text.contains(leak), "secret leaked into Receipt");
        assert!(!body(&receipt).contains(leak), "secret leaked into the signed body");
    }
}

#[test]
fn abort_and_wrong_phase_transitions() {
    let mut r = rig();
    let fx = r.propose(contract(EffectClass::Compensatable, "k-10"));
    // prepare twice fails
    r.prepare(&fx.id).expect("prepare");
    assert!(r.prepare(&fx.id).is_err());
    r.broker.abort(&fx.id, "operator cancelled").expect("abort");
    assert!(matches!(r.phase(&fx.id), EffectPhase::Aborted { .. }));
    // committed effects cannot be aborted
    let fx2 = r.propose(contract(EffectClass::Compensatable, "k-11"));
    r.prepare(&fx2.id).expect("prepare");
    r.commit(&fx2.id, 1, true).expect("commit");
    assert!(r.broker.abort(&fx2.id, "nope").is_err());
    assert!(matches!(
        r.broker.effect(&EffectId::generate()),
        Err(KernelError::NotFound { kind: "effect", .. })
    ));
    assert!(matches!(
        r.broker.receipt(&ReceiptId::generate()),
        Err(KernelError::NotFound { kind: "receipt", .. })
    ));
}

#[test]
fn concurrent_commits_reach_the_connector_exactly_once() {
    let mut r = rig();
    let mut c = contract(EffectClass::Irreversible, "k-race");
    c.operation = "mock.email".to_string();
    let fx = r.propose(c);
    r.prepare(&fx.id).expect("prepare");
    r.approve(&fx.id, 1);
    // Eight committers get to the claim before any of them makes it.
    let mut tickets = Vec::new();
    for _ in 0..8 {
        match r.broker.commit(&fx.id, 1, true).expect("start") {
            CommitStart::Observe(t) => tickets.push(t),
            CommitStart::Done(_) => panic!("nothing is committed yet"),
        }
    }
    let observed = r.world.prepare();
    let mut winner = None;
    let mut conflicts = 0;
    for t in tickets {
        match r.broker.claim_commit(&t, &observed, NOW) {
            Ok(()) => {
                assert!(winner.is_none(), "one claim only");
                winner = Some(t);
            }
            Err(
                KernelError::WrongEffectPhase { .. }
                | KernelError::CommitInDoubt { .. }
                | KernelError::DuplicateCommit { .. },
            ) => conflicts += 1,
            Err(other) => panic!("unexpected commit error: {other:?}"),
        }
    }
    assert_eq!(conflicts, 7);
    let receipt = r.carry_out(winner.expect("one winner")).expect("commit");
    assert_eq!(r.world.commits, 1, "the external system must be reached exactly once");
    // And a later sequential retry idempotently returns that receipt.
    let again = r.commit(&fx.id, 1, true).expect("idempotent retry");
    assert_eq!(again.id.as_str(), receipt.id.as_str());
    assert_eq!(r.world.commits, 1);
}

#[test]
fn two_effects_sharing_a_key_commit_exactly_once() {
    let mut r = rig();
    let a = r.propose(contract(EffectClass::Compensatable, "k-shared"));
    let b = r.propose(contract(EffectClass::Compensatable, "k-shared"));
    r.prepare(&a.id).expect("prepare a");
    r.prepare(&b.id).expect("prepare b");
    let mut tickets = Vec::new();
    for id in [&a.id, &b.id] {
        match r.broker.commit(id, 1, true).expect("start") {
            CommitStart::Observe(t) => tickets.push(t),
            CommitStart::Done(_) => panic!("nothing is committed yet"),
        }
    }
    let observed = r.world.prepare();
    let second = tickets.pop().unwrap();
    let first = tickets.pop().unwrap();
    r.broker.claim_commit(&first, &observed, NOW).expect("claim");
    let err = r.broker.claim_commit(&second, &observed, NOW).expect_err("loser");
    assert!(
        matches!(err, KernelError::DuplicateCommit { .. } | KernelError::WrongEffectPhase { .. }),
        "loser gets a conflict, got {err:?}"
    );
    r.carry_out(first).expect("commit");
    let err = r.commit(&b.id, 1, true).expect_err("the key is closed");
    assert!(matches!(err, KernelError::DuplicateCommit { .. }), "{err:?}");
    assert_eq!(r.world.commits, 1);
}

#[test]
fn lost_response_resolves_via_probe_without_reexecution() {
    let mut r = rig();
    r.world.probe_mode = ProbeMode::FromRecord;
    r.world.fail_after_effect = 1;
    let fx = r.propose(contract(EffectClass::Compensatable, "k-lost"));
    r.prepare(&fx.id).expect("prepare");
    let receipt = r.commit(&fx.id, 1, true).expect("probe recovers the receipt");
    assert_eq!(r.world.commits, 1, "no re-execution");
    assert!(matches!(r.phase(&fx.id), EffectPhase::Committed { .. }));
    // The receipt digests the probed response.
    assert_eq!(body(&r.broker.receipt(&receipt.id).expect("receipt")), body(&receipt));
    let probed = object2("status", Value::text("ok"), "via", Value::text("probe"));
    assert_eq!(
        receipt.body.external_response_digest.as_str(),
        hash_canonical(&probed).as_str()
    );
}

#[test]
fn definitive_failure_releases_the_claim_for_retry() {
    let mut r = rig();
    r.world.probe_mode = ProbeMode::FromRecord;
    r.world.fail_before_effect = 1;
    let fx = r.propose(contract(EffectClass::Compensatable, "k-retry"));
    r.prepare(&fx.id).expect("prepare");
    let err = r.commit(&fx.id, 1, true).expect_err("first attempt fails");
    assert!(matches!(err, KernelError::Connector(_)), "{err:?}");
    // Phase restored; claim released; retry executes for real.
    assert!(matches!(r.phase(&fx.id), EffectPhase::Prepared { .. }));
    r.commit(&fx.id, 1, true).expect("retry commits");
    assert_eq!(r.world.commits, 1);
}

#[test]
fn indeterminate_failure_parks_in_doubt_until_recovery() {
    let mut r = rig();
    r.world.fail_after_effect = 1;
    let fx = r.propose(contract(EffectClass::Compensatable, "k-doubt"));
    r.prepare(&fx.id).expect("prepare");
    let err = r.commit(&fx.id, 1, true).expect_err("in doubt");
    assert!(matches!(err, KernelError::CommitInDoubt { .. }), "{err:?}");
    assert_eq!(r.broker.in_doubt_effects().len(), 1);
    // A blind retry must NOT reach the connector again.
    let err = r.commit(&fx.id, 1, true).expect_err("still in doubt");
    assert!(matches!(err, KernelError::CommitInDoubt { .. }), "{err:?}");
    assert_eq!(r.world.commits, 1);
    // Recovery with a now-answerable connector finalizes truthfully.
    r.world.probe_mode = ProbeMode::FromRecord;
    let resolutions = r.recover_in_doubt();
    assert_eq!(resolutions.len(), 1);
    assert!(matches!(resolutions[0], InDoubtResolution::Committed { .. }));
    assert!(matches!(r.phase(&fx.id), EffectPhase::Committed { .. }));
    assert_eq!(r.world.commits, 1, "recovery never re-executes");
}

#[test]
fn operator_resolution_settles_unanswerable_in_doubt_effects() {
    let mut r = rig();
    r.world.fail_after_effect = 1;
    let fx = r.propose(contract(EffectClass::Compensatable, "k-op"));
    r.prepare(&fx.id).expect("prepare");
    let _ = r.commit(&fx.id, 1, true);
    // Recovery cannot help while the probe answers Unknown.
    let resolutions = r.recover_in_doubt();
    assert!(matches!(resolutions[0], InDoubtResolution::StillInDoubt));
    // The operator verified out-of-band that the effect DID happen.
    let response = object2("status", Value::text("ok"), "verified", Value::text("manually"));
    let receipt = r
        .broker
        .resolve_in_doubt(&fx.id, OperatorResolution::Committed { response }, NOW)
        .expect("resolve")
        .expect("receipt");
    assert!(matches!(r.phase(&fx.id), EffectPhase::Committed { .. }));
    assert_eq!(body(&r.broker.receipt(&receipt.id).expect("stored")), body(&receipt));
}

#[test]
fn an_operator_may_find_that_nothing_happened() {
    let mut r = rig();
    r.world.fail_after_effect = 1;
    let fx = r.propose(contract(EffectClass::Compensatable, "k-none"));
    r.prepare(&fx.id).expect("prepare");
    let _ = r.commit(&fx.id, 1, true);
    assert!(r.broker.abort(&fx.id, "blind").is_err(), "in doubt: not to be aborted blindly");
    let none = r
        .broker
        .resolve_in_doubt(
            &fx.id,
            OperatorResolution::Aborted { reason: "checked by hand".to_string() },
            NOW,
        )
        .expect("resolve");
    assert!(none.is_none());
    assert!(matches!(r.phase(&fx.id), EffectPhase::Aborted { .. }));
    // The key is free for a fresh proposal.
    r.propose(contract(EffectClass::Compensatable, "k-none"));
}

#[test]
fn effects_are_listed_newest_first() {
    let mut r = rig();
    let a = r.propose(contract(EffectClass::Compensatable, "k-a"));
    let b = r.propose(contract(EffectClass::Compensatable, "k-b"));
    r.prepare(&a.id).expect("prepare");
    let prepared = r.broker.list_effects(Some("prepared"));
    assert_eq!(prepared.len(), 1);
    assert_eq!(prepared[0].id.as_str(), a.id.as_str());
    let all = r.broker.list_effects(None);
    assert_eq!(all.len(), 2);
    assert_eq!(all[0].id.as_str(), b.id.as_str());
}

#[test]
fn operations_without_a_connector_are_refused() {
    let mut r = rig();
    let mut c = contract(EffectClass::Compensatable, "k-x");
    c.operation = "other.push".to_string();
    assert!(matches!(
        r.try_propose(c),
        Err(KernelError::NotFound { kind: "connector", ref id }) if id == "other"
    ));
    assert_eq!(r.broker.connector_for("mock.anything").unwrap(), "mock");
}

#[test]
fn an_interrupted_commit_is_in_doubt_after_a_restart() {
    let mut r = rig();
    let fx = r.propose(contract(EffectClass::Compensatable, "k-crash"));
    r.prepare(&fx.id).expect("prepare");
    match r.broker.commit(&fx.id, 1, true).expect("start") {
        CommitStart::Observe(t) => r.broker.claim_commit(&t, &r.world.prepare(), NOW).unwrap(),
        CommitStart::Done(_) => panic!("nothing is committed yet"),
    }
    // The external system acted, and then the process died.
    r.world.commits = 1;
    let other = r.propose(contract(EffectClass::Compensatable, "k-crash"));
    r.prepare(&other.id).expect("prepare");
    let rows = vec![r.broker.row(&fx.id).unwrap(), r.broker.row(&other.id).unwrap()];
    let claims = r.broker.claims();
    assert_eq!(claims.len(), 1);
    assert_eq!((claims[0].0.as_str(), claims[0].1.as_str()), ("k-crash", fx.id.as_str()));
    r.broker = EffectBroker::in_memory(TestSigner);
    r.broker.register_connector("mock");
    for row in rows {
        r.broker.restore_effect(row).unwrap();
    }
    for (key, effect) in claims {
        r.broker.restore_claim(&key, effect).unwrap();
    }
    assert!(r.broker.restore_claim("k-crash", other.id.clone()).is_err(), "held already");
    let observed = r.world.prepare();
    match r.broker.commit(&other.id, 1, true).expect("start") {
        CommitStart::Observe(t) => {
            assert!(r.broker.claim_commit(&t, &observed, NOW).is_err(), "the key is held")
        }
        CommitStart::Done(_) => panic!("nothing is committed yet"),
    }
    assert!(matches!(r.commit(&fx.id, 1, true), Err(KernelError::CommitInDoubt { .. })));
    r.world.probe_mode = ProbeMode::FromRecord;
    let resolutions = r.recover_in_doubt();
    assert!(matches!(resolutions[0], InDoubtResolution::Committed { .. }));
    assert_eq!(r.world.commits, 1);
    // What was committed survives the next restart too.
    let row = r.broker.row(&fx.id).unwrap();
    let receipt = match &row.effect.phase {
        EffectPhase::Committed { receipt } => r.broker.receipt(receipt).unwrap(),
        other => panic!("expected a committed effect, got {other:?}"),
    };
    let mut again = EffectBroker::in_memory(TestSigner);
    let key = "k-crash".to_string();
    again.restore_receipt(receipt.clone(), fx.id.clone(), key.clone(), false).unwrap();
    let mut twin = receipt;
    twin.id = ReceiptId::generate();
    assert!(again.restore_receipt(twin, fx.id.clone(), key, false).is_err());
    again.restore_effect(row).unwrap();
    assert!(again.restore_effect(r.broker.row(&fx.id).unwrap()).is_err(), "there already");
    assert!(again.row(&EffectId::generate()).is_err());
    match again.commit(&fx.id, 1, true).expect("done") {
        CommitStart::Done(x) => assert_eq!(x.body.effect.as_str(), fx.id.as_str()),
        CommitStart::Observe(_) => panic!("committed already"),
    }
}

#[test]
fn persisted_effects_are_taken_back_in_as_they_are() {
    let mut r = rig();
    let approved = r.propose(contract(EffectClass::Irreversible, "k-a"));
    let committed = r.propose(contract(EffectClass::Compensatable, "k-b"));
    let first = r.propose(contract(EffectClass::Compensatable, "k-c"));
    let second = r.propose(contract(EffectClass::Compensatable, "k-c"));
    let receipt = ReceiptId::generate();
    let mut again = EffectBroker::in_memory(TestSigner);
    again.register_connector("mock");
    for (fx, phase) in [
        (
            &approved,
            EffectPhase::Approved {
                approver: PrincipalId::generate(),
                approved_at: NOW,
                policy_epoch: 1,
            },
        ),
        (&committed, EffectPhase::Committed { receipt: receipt.clone() }),
        (&first, EffectPhase::Committing { claimed_at: NOW }),
        (&second, EffectPhase::Committing { claimed_at: NOW }),
    ] {
        let mut row = r.broker.row(&fx.id).unwrap();
        row.effect.phase = phase;
        again.restore_effect(row).expect("restore");
    }
    // An approval or a receipt that is missing is missed where it is needed.
    assert!(matches!(
        again.commit(&approved.id, 1, true),
        Err(KernelError::Storage(ref m)) if m == "approved effect missing approval record"
    ));
    assert!(matches!(
        again.commit(&committed.id, 1, true),
        Err(KernelError::NotFound { kind: "receipt", ref id }) if id == receipt.as_str()
    ));
    assert_eq!(again.in_doubt_effects().len(), 2);
    for fx in [&first, &second] {
        assert!(matches!(again.commit(&fx.id, 1, true), Err(KernelError::CommitInDoubt { .. })));
    }
}

#[test]
fn a_late_preparation_overwrites_all_but_a_commit() {
    let mut r = rig();
    let fx = r.propose(contract(EffectClass::Compensatable, "k-late"));
    let late = PreparedEffect {
        preview: object1("late", Value::Bool(true)),
        observed_preconditions: object1("head_sha", Value::text("sha-1")),
    };
    let prepared = |r: &Rig, id: &EffectId| match r.phase(id) {
        EffectPhase::Prepared { preview } => canonical_json(&preview) == "{\"late\":true}",
        _ => false,
    };
    r.prepare(&fx.id).expect("prepare");
    r.approve(&fx.id, 1);
    r.broker.record_prepared(&fx.id, &late).expect("after the approval");
    assert!(prepared(&r, &fx.id));
    r.broker.abort(&fx.id, "no").expect("abort");
    r.broker.record_prepared(&fx.id, &late).expect("after the abort");
    assert!(prepared(&r, &fx.id));
    // In doubt, and once committed, the effect stays as it is.
    r.world.fail_after_effect = 1;
    let _ = r.commit(&fx.id, 1, true);
    assert!(matches!(
        r.broker.record_prepared(&fx.id, &late),
        Err(KernelError::WrongEffectPhase { .. })
    ));
    assert!(matches!(r.phase(&fx.id), EffectPhase::Committing { .. }));
    r.world.probe_mode = ProbeMode::FromRecord;
    r.recover_in_doubt();
    assert!(r.broker.record_prepared(&fx.id, &late).is_err());
    assert!(matches!(r.phase(&fx.id), EffectPhase::Committed { .. }));
    assert_eq!(r.world.commits, 1);
}
