//! The ledger: its chain, its queries, and what it keeps beside the events.
use agent_kernel::effect::{Receipt, ReceiptBody};
use agent_kernel::error::KernelError;
use agent_kernel::hash::{canonical_json, hash_bytes};
use agent_kernel::ids::{BranchId, EffectId, EpisodeId, PrincipalId, ReceiptId, StateId, StepId};
use agent_kernel::json::{object1, object2, JsonMap, Number, Value};
use agent_kernel::ledger::event::{EventKind, LedgerEvent, NewEvent};
use agent_kernel::ledger::query::TraceQuery;
use agent_kernel::ledger::store::Ledger;
use agent_kernel::state::{FileChange, StateDelta};
use agent_kernel::time::Timestamp;

fn at(secs: i64) -> Timestamp {
    Timestamp { secs, nanos: 0 }
}

const NOW: Timestamp = Timestamp { secs: 1_700_000_000, nanos: 0 };

fn text(k: &str, v: &str) -> Value {
    object1(k, Value::text(v))
}

fn num(k: &str, v: u64) -> Value {
    object1(k, Value::Number(Number::PosInt(v)))
}

fn empty() -> Value {
    Value::Object(JsonMap::new())
}

fn ev(kind: EventKind, ep: &EpisodeId, payload: Value) -> NewEvent {
    NewEvent {
        kind,
        episode: ep.clone(),
        branch: None,
        step: None,
        principal: PrincipalId::generate(),
        payload,
        caused_by: vec![],
    }
}

fn wire(e: &LedgerEvent) -> String {
    canonical_json(&e.to_value())
}

fn receipt(key_hint: &str) -> Receipt {
    Receipt {
        id: ReceiptId::generate(),
        body: ReceiptBody {
            effect: EffectId::generate(),
            who: PrincipalId::generate(),
            operation: "github.create_pull_request".to_string(),
            resource: "org/repo".to_string(),
            contract_hash: hash_bytes(key_hint.as_bytes()),
            branch: BranchId::generate(),
            step: StepId::generate(),
            policy_epoch: 1,
            authorization_witness: hash_bytes(b"witness"),
            external_response_digest: hash_bytes(b"resp"),
            committed_at: NOW,
        },
        signature: "00".to_string(),
        key_id: "kernel-key-1".to_string(),
    }
}

#[test]
fn append_chains_hashes_and_verifies() {
    let mut ledger = Ledger::open_in_memory();
    let ep = EpisodeId::generate();
    let e1 = ledger.append(ev(EventKind::Objective, &ep, text("goal", "fix bug")), NOW);
    let e2 = ledger.append(ev(EventKind::DeclaredIntent, &ep, text("intent", "edit files")), NOW);
    assert_eq!(e1.body.seq, 1);
    assert!(e1.body.prev_event_hash.is_none());
    assert_eq!(
        e2.body.prev_event_hash.as_ref().map(|h| h.as_str()),
        Some(e1.event_hash.as_str())
    );
    assert_eq!(ledger.verify_chain().unwrap(), 2);
    assert_eq!(wire(&ledger.get(2).unwrap()), wire(&e2));
}

#[test]
fn tampering_with_a_row_is_detected() {
    let mut ledger = Ledger::open_in_memory();
    let ep = EpisodeId::generate();
    ledger.append(ev(EventKind::Objective, &ep, text("goal", "honest")), NOW);
    ledger.append(ev(EventKind::ToolInvocation, &ep, text("tool", "bash")), NOW);
    assert_eq!(ledger.verify_chain().unwrap(), 2);

    // Someone edits the payload of the first persisted event.
    let mut rows = vec![ledger.get(1).unwrap(), ledger.get(2).unwrap()];
    rows[0].body.payload = text("goal", "evil");
    let edited = Ledger::restore(rows).unwrap();
    let err = edited.verify_chain().unwrap_err();
    assert!(err.message().contains("seq 1"), "got: {}", err.message());

    assert_eq!(
        err.message(),
        "storage error: ledger tampering detected at seq 1: content hash mismatch"
    );
    // A change that also touches the link is found at the same event.
    let mut rows = vec![ledger.get(1).unwrap(), ledger.get(2).unwrap()];
    rows[1].body.prev_event_hash = None;
    let err = Ledger::restore(rows).unwrap().verify_chain().unwrap_err();
    assert!(err.message().contains("broken at seq 2"), "got: {}", err.message());

    // Restored as they were, the events verify again.
    let rows = vec![ledger.get(1).unwrap(), ledger.get(2).unwrap()];
    assert_eq!(Ledger::restore(rows).unwrap().verify_chain().unwrap(), 2);

    // Deleting an event also breaks the chain.
    let rows = vec![ledger.get(2).unwrap()];
    assert!(Ledger::restore(rows).unwrap().verify_chain().is_err());
}

#[test]
fn events_out_of_sequence_are_refused() {
    let mut ledger = Ledger::open_in_memory();
    let ep = EpisodeId::generate();
    ledger.append(ev(EventKind::Objective, &ep, empty()), NOW);
    ledger.append(ev(EventKind::Objective, &ep, empty()), NOW);
    let rows = vec![ledger.get(2).unwrap(), ledger.get(1).unwrap()];
    assert!(matches!(Ledger::restore(rows), Err(KernelError::Storage(_))));
}

#[test]
fn raw_blob_store_and_fetch() {
    let mut ledger = Ledger::open_in_memory();
    let h = ledger.store_raw(b"very long stdout ...");
    assert_eq!(h.as_str(), hash_bytes(b"very long stdout ...").as_str());
    // idempotent
    assert_eq!(ledger.store_raw(b"very long stdout ...").as_str(), h.as_str());
    assert_eq!(ledger.fetch_raw(&h).unwrap(), b"very long stdout ...");
    assert!(matches!(
        ledger.fetch_raw(&hash_bytes(b"missing")),
        Err(KernelError::NotFound { kind: "raw_output", .. })
    ));
}

#[test]
fn query_filters_by_episode_kind_principal_seq_and_limit() {
    let mut ledger = Ledger::open_in_memory();
    let ep1 = EpisodeId::generate();
    let ep2 = EpisodeId::generate();
    let alice = PrincipalId::generate();
    let branch = BranchId::generate();
    let step = StepId::generate();

    let w = ledger.writer(ep1.clone(), Some(branch.clone()), Some(step.clone()), alice.clone());
    w.record(&mut ledger, EventKind::Objective, num("n", 1), NOW);
    w.record(&mut ledger, EventKind::ToolInvocation, num("n", 2), NOW);
    w.record(&mut ledger, EventKind::ToolInvocation, num("n", 3), NOW);
    ledger.append(ev(EventKind::ToolInvocation, &ep2, num("n", 4)), NOW);

    let by_ep = ledger.query(&TraceQuery { episode: Some(ep1.clone()), ..Default::default() });
    assert_eq!(by_ep.len(), 3);
    assert!(by_ep.iter().all(|e| e.body.branch.as_ref().map(|b| b.as_str()) == Some(branch.as_str())));
    assert!(by_ep.iter().all(|e| e.body.step.as_ref().map(|s| s.as_str()) == Some(step.as_str())));

    let tools_for_alice = ledger.query(&TraceQuery {
        kinds: vec![EventKind::ToolInvocation],
        principal: Some(alice.clone()),
        ..Default::default()
    });
    assert_eq!(tools_for_alice.len(), 2);

    let ranged =
        ledger.query(&TraceQuery { seq_range: Some((2, 4)), limit: Some(2), ..Default::default() });
    assert_eq!(ranged.iter().map(|e| e.body.seq).collect::<Vec<_>>(), vec![2, 3]);

    // Everything happened "now"; a past-only window is empty.
    let empty = ledger.query(&TraceQuery {
        time_range: Some((at(NOW.secs - 10_800), at(NOW.secs - 7_200))),
        ..Default::default()
    });
    assert!(empty.is_empty());
    let all = ledger.query(&TraceQuery { time_range: Some((NOW, NOW)), ..Default::default() });
    assert_eq!(all.len(), 4);
}

#[test]
fn a_limit_counts_the_events_inside_the_time_range() {
    let mut ledger = Ledger::open_in_memory();
    let ep = EpisodeId::generate();
    for n in 0..4 {
        ledger.append(ev(EventKind::Objective, &ep, num("n", n)), at(NOW.secs + n as i64));
    }
    let from = Some((at(NOW.secs + 2), at(NOW.secs + 9)));
    let query = |limit| TraceQuery { time_range: from, limit, ..Default::default() };
    let seqs = |events: Vec<LedgerEvent>| -> Vec<i64> {
        events.iter().map(|e| e.body.seq).collect()
    };
    assert_eq!(seqs(ledger.query(&query(None))), vec![3, 4]);
    assert_eq!(seqs(ledger.query(&query(Some(1)))), vec![3]);
    assert_eq!(seqs(ledger.query(&query(Some(2)))), vec![3, 4]);
    assert!(ledger.query(&query(Some(0))).is_empty());
}

#[test]
fn causal_query_path_modifications() {
    let mut ledger = Ledger::open_in_memory();
    let ep = EpisodeId::generate();
    let delta = StateDelta {
        files: vec![FileChange::Added {
            path: "src/main.rs".to_string(),
            blob: hash_bytes(b"fn main() {}"),
            mode: 0o644,
        }],
        ..Default::default()
    };
    let payload = object2("state_id", Value::text("st-1"), "delta", delta.to_value());
    ledger.append(ev(EventKind::StateDeltaRecorded, &ep, payload), NOW);
    let payload =
        object2("state_id", Value::text("st-2"), "delta", StateDelta::default().to_value());
    ledger.append(ev(EventKind::StateDeltaRecorded, &ep, payload), NOW);

    let hits = ledger.events_modifying_path("src/main.rs");
    assert_eq!(hits.len(), 1);
    assert_eq!(hits[0].body.seq, 1);
    assert!(ledger.events_modifying_path("nope.rs").is_empty());
}

#[test]
fn causal_query_events_leading_to_effect() {
    let mut ledger = Ledger::open_in_memory();
    let ep = EpisodeId::generate();
    let fx = EffectId::generate();
    let e1 = ledger.append(ev(EventKind::Objective, &ep, empty()), NOW);
    let e2 = ledger.append(ev(EventKind::DeclaredIntent, &ep, empty()), NOW);
    ledger.append(ev(EventKind::OsEvent, &ep, object1("noise", Value::Bool(true))), NOW);
    let mut proposed = ev(EventKind::EffectProposed, &ep, text("effect_id", fx.as_str()));
    proposed.caused_by = vec![e2.body.seq];
    let e4 = ledger.append(proposed, NOW);
    // Link committed -> proposed and objective.
    let mut committed = ev(
        EventKind::EffectCommitted,
        &ep,
        object2("effect_id", Value::text(fx.as_str()), "class", Value::text("irreversible")),
    );
    committed.caused_by = vec![e4.body.seq, e1.body.seq];
    ledger.append(committed, NOW);

    let chain = ledger.events_leading_to_effect(fx.as_str());
    let seqs: Vec<i64> = chain.iter().map(|e| e.body.seq).collect();
    assert_eq!(seqs, vec![1, 2, 4, 5]); // noise (3) excluded
}

#[test]
fn irreversible_effects_are_listed_since_a_state() {
    let mut ledger = Ledger::open_in_memory();
    let ep = EpisodeId::generate();
    let state = StateId::generate();
    let commit = |class: &str| object2("effect_id", Value::text("fx"), "class", Value::text(class));
    ledger.append(ev(EventKind::EffectCommitted, &ep, commit("irreversible")), NOW);
    let payload = object2(
        "state_id",
        Value::text(state.as_str()),
        "delta",
        StateDelta::default().to_value(),
    );
    ledger.append(ev(EventKind::StateDeltaRecorded, &ep, payload), NOW);
    ledger.append(ev(EventKind::EffectCommitted, &ep, commit("remote_reversible")), NOW);
    ledger.append(ev(EventKind::EffectCommitted, &ep, commit("irreversible")), NOW);
    let found = ledger.irreversible_effects_since(&state).unwrap();
    let seqs: Vec<i64> = found.iter().map(|e| e.body.seq).collect();
    assert_eq!(seqs, vec![4]);
    assert!(matches!(
        ledger.irreversible_effects_since(&StateId::generate()),
        Err(KernelError::NotFound { .. })
    ));
}

#[test]
fn receipts_are_kept_once_per_key() {
    let mut ledger = Ledger::open_in_memory();
    let first = receipt("a");
    ledger.store_receipt(&first, "key").unwrap();
    let found = ledger.receipt_by_idempotency_key("key").unwrap();
    assert_eq!(found.id.as_str(), first.id.as_str());
    assert!(ledger.receipt_by_idempotency_key("other").is_none());
    assert_eq!(
        ledger.get_receipt(&first.id).unwrap().body.contract_hash.as_str(),
        hash_bytes(b"a").as_str()
    );
    assert!(matches!(
        ledger.get_receipt(&ReceiptId::generate()),
        Err(KernelError::NotFound { .. })
    ));
    let second = receipt("b");
    assert!(matches!(
        ledger.store_receipt(&second, "key"),
        Err(KernelError::DuplicateCommit { .. })
    ));
}

#[test]
fn kinds_are_found_by_their_names() {
    assert_eq!(EventKind::parse("os_event"), Some(EventKind::OsEvent));
    assert_eq!(EventKind::parse("effect_committed"), Some(EventKind::EffectCommitted));
    assert_eq!(EventKind::OsEvent.as_str(), "os_event");
    assert_eq!(EventKind::parse("OsEvent"), None);
}

#[test]
fn timestamps_read_as_rfc_3339() {
    assert_eq!(NOW.to_wire(), "2023-11-14T22:13:20Z");
    assert_eq!(Timestamp { secs: 0, nanos: 5_000_000 }.to_wire(), "1970-01-01T00:00:00.005Z");
    assert_eq!(NOW.to_message(), "2023-11-14 22:13:20 UTC");
    assert_eq!(NOW.plus_seconds(60), at(1_700_000_060));
}
