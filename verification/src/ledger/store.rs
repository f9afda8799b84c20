//! The append-only ledger: hash chain, queries, raw-output blobs, and receipt
//! persistence.
use vstd::prelude::*;
use crate::bytes;
use crate::effect::{Receipt, ReceiptView};
use crate::error::{KernelError, KernelResult};
use crate::hash::{ContentHash, hash_bytes, hash_text};
use crate::ids::{BranchId, EpisodeId, PrincipalId, ReceiptId, StateId, StepId};
use crate::json::{Json, Value};
use crate::ledger::event::{EventBody, EventBodyView, EventKind, EventView, LedgerEvent, NewEvent};
use crate::ledger::query;
use crate::ledger::query::{TraceQuery, anchor_of, irreversible_after, leading, modifying};
use crate::table::Table;
use crate::text;
use crate::time::Timestamp;

verus! {

/// The append-only, tamper-evident causal ledger.
///
/// Every appended event embeds the previous event's content hash, so any
/// mutation of a persisted row is detected by [`Ledger::verify_chain`].
#[derive(Debug)]
pub struct Ledger {
    events: Vec<LedgerEvent>,
    raw: Table<Vec<u8>>,
    receipts: Table<Receipt>,
}

/// Each event comes before every later one.
pub open spec fn in_sequence(events: Seq<EventView>) -> bool {
    forall|i: int, j: int|
        #![trigger events[i], events[j]]
        0 <= i < j < events.len() ==> events[i].body.seq < events[j].body.seq
}

/// The hash that the event at `i` has to name as the one before it.
pub open spec fn link_before(events: Seq<EventView>, i: int) -> Option<Seq<char>> {
    if i <= 0 {
        None
    } else {
        Some(events[i - 1].event_hash)
    }
}

/// The event at `i` names the hash of the event before it, and its own hash is
/// that of its body.
pub open spec fn linked(events: Seq<EventView>, i: int) -> bool {
    &&& events[i].body.prev_event_hash == link_before(events, i)
    &&& events[i].body.hash() == events[i].event_hash
}

/// What is wrong with the first event from position `i` on that is not linked.
pub open spec fn chain_error(events: Seq<EventView>, i: int) -> Option<Seq<char>>
    decreases events.len() - i,
{
    if i >= events.len() {
        None
    } else if events[i].body.prev_event_hash != link_before(events, i) {
        Some(
            "ledger chain broken at seq "@ + text::signed_decimal(events[i].body.seq as int)
                + ": prev_event_hash mismatch"@,
        )
    } else if events[i].body.hash() != events[i].event_hash {
        Some(
            "ledger tampering detected at seq "@ + text::signed_decimal(events[i].body.seq as int)
                + ": content hash mismatch"@,
        )
    } else {
        chain_error(events, i + 1)
    }
}

/// The sequence number of the next event.
pub open spec fn next_seq(events: Seq<EventView>) -> int {
    if events.len() == 0 {
        1
    } else {
        events.last().body.seq + 1
    }
}

/// What an event is attributed to.
#[verifier::ext_equal]
pub struct Attribution {
    pub episode: Seq<char>,
    pub branch: Option<Seq<char>>,
    pub step: Option<Seq<char>>,
    pub principal: Seq<char>,
}

/// The event that follows in a ledger of `events`.
pub open spec fn entry(
    events: Seq<EventView>,
    by: Attribution,
    kind: EventKind,
    payload: Json,
    caused_by: Seq<i64>,
    now: Timestamp,
) -> EventView {
    let body = EventBodyView {
        seq: next_seq(events) as i64,
        kind,
        episode: by.episode,
        branch: by.branch,
        step: by.step,
        principal: by.principal,
        timestamp: now,
        payload,
        caused_by,
        prev_event_hash: link_before(events, events.len() as int),
    };
    EventView { body, event_hash: body.hash() }
}

/// The events after one more was recorded.
pub open spec fn grown(
    events: Seq<EventView>,
    by: Attribution,
    kind: EventKind,
    payload: Json,
    caused_by: Seq<i64>,
    now: Timestamp,
) -> Seq<EventView> {
    events.push(entry(events, by, kind, payload, caused_by, now))
}

/// There are sequence numbers left for `n` more events.
pub open spec fn room_for(events: Seq<EventView>, n: int) -> bool {
    next_seq(events) + n - 1 <= i64::MAX
}

/// What a new event is attributed to.
pub open spec fn attribution_of(event: NewEvent) -> Attribution {
    Attribution {
        episode: event.episode@,
        branch: event.branch.deep_view(),
        step: event.step.deep_view(),
        principal: event.principal@,
    }
}

/// The event that appending gives.
pub open spec fn appended(events: Seq<EventView>, event: NewEvent, now: Timestamp) -> EventView {
    entry(events, attribution_of(event), event.kind, event.payload@, event.caused_by@, now)
}

spec fn byte_views(m: Map<Seq<char>, Vec<u8>>) -> Map<Seq<char>, Seq<u8>> {
    m.map_values(|v: Vec<u8>| v@)
}

spec fn receipt_views(m: Map<Seq<char>, Receipt>) -> Map<Seq<char>, ReceiptView> {
    m.map_values(|r: Receipt| r@)
}

/// A receipt of that identifier is stored under the key.
pub open spec fn stored_under(
    m: Map<Seq<char>, ReceiptView>,
    key: Seq<char>,
    id: Seq<char>,
) -> bool {
    m.contains_key(key) && m[key].id == id
}

/// A receipt of that identifier is stored.
pub open spec fn receipt_stored(m: Map<Seq<char>, ReceiptView>, id: Seq<char>) -> bool {
    exists|key: Seq<char>| #[trigger] stored_under(m, key, id)
}

/// Every blob stands under its own hash.
pub open spec fn self_addressed(raw: Map<Seq<char>, Seq<u8>>) -> bool {
    forall|h: Seq<char>| #[trigger] raw.contains_key(h) ==> hash_text(raw[h]) == h
}

/// No receipt stands under two keys.
pub open spec fn one_key_each(m: Map<Seq<char>, ReceiptView>) -> bool {
    forall|k1: Seq<char>, k2: Seq<char>, id: Seq<char>|
        #![trigger stored_under(m, k1, id), stored_under(m, k2, id)]
        stored_under(m, k1, id) && stored_under(m, k2, id) ==> k1 == k2
}

/// The error for something that is not in the ledger.
pub open spec fn missing(e: KernelError, what: Seq<char>, which: Seq<char>) -> bool {
    e matches KernelError::NotFound { kind, id } && kind@ == what && id@ == which
}

impl Ledger {
    /// The events in sequence order.
    pub closed spec fn events(&self) -> Seq<EventView> {
        self.events.deep_view()
    }

    /// The raw outputs by content hash.
    pub closed spec fn raw(&self) -> Map<Seq<char>, Seq<u8>> {
        byte_views(self.raw@)
    }

    /// The receipts by idempotency key.
    pub closed spec fn receipts(&self) -> Map<Seq<char>, ReceiptView> {
        receipt_views(self.receipts@)
    }

    /// Events stand in sequence, raw outputs under their own hashes, and no
    /// receipt under two keys.
    pub open spec fn wf(&self) -> bool {
        &&& in_sequence(self.events())
        &&& self_addressed(self.raw())
        &&& one_key_each(self.receipts())
    }

    /// There is a sequence number left.
    pub open spec fn has_room(&self) -> bool {
        room_for(self.events(), 1)
    }

    /// Whether there are sequence numbers left for `n` more events.
    pub fn room(&self, n: u32) -> (r: bool)
        ensures
            r == room_for(self.events(), n as int),
    {
        let len = self.events.len();
        let next: i128 = if len == 0 {
            1
        } else {
            proof {
                assert(self.events.deep_view().last() == self.events@[len - 1]@);
            }
            self.events[len - 1].body.seq as i128 + 1
        };
        next + n as i128 - 1 <= i64::MAX as i128
    }

    /// An empty ledger.
    pub fn open_in_memory() -> (r: Self)
        ensures
            r.wf(),
            r.events() == Seq::<EventView>::empty(),
            r.raw() == Map::<Seq<char>, Seq<u8>>::empty(),
            r.receipts() == Map::<Seq<char>, ReceiptView>::empty(),
    {
        let r = Ledger { events: Vec::new(), raw: Table::new(), receipts: Table::new() };
        proof {
            assert(r.events() =~= Seq::<EventView>::empty());
            assert(r.raw() =~= Map::<Seq<char>, Seq<u8>>::empty());
            assert(r.receipts() =~= Map::<Seq<char>, ReceiptView>::empty());
        }
        r
    }

    /// A ledger of persisted events, which have to stand in sequence. Nothing is
    /// said of their chain: see [`Ledger::verify_chain`].
    pub fn restore(events: Vec<LedgerEvent>) -> (r: KernelResult<Self>)
        ensures
            match r {
                Ok(l) => {
                    &&& l.wf()
                    &&& l.events() == events.deep_view()
                    &&& l.raw() == Map::<Seq<char>, Seq<u8>>::empty()
                    &&& l.receipts() == Map::<Seq<char>, ReceiptView>::empty()
                },
                Err(e) => !in_sequence(events.deep_view()) && (e matches KernelError::Storage(m)
                    && m@ == "ledger events are not in sequence"@),
            },
    {
        let ghost ev = events.deep_view();
        let mut i: usize = 1;
        while i < events.len()
            invariant
                1 <= i,
                ev == events.deep_view(),
                forall|a: int, b: int|
                    #![trigger ev[a], ev[b]]
                    0 <= a < b < i && b < ev.len() ==> ev[a].body.seq < ev[b].body.seq,
            decreases events.len() - i,
        {
            proof {
                assert(ev[i as int] == events@[i as int]@);
                assert(ev[i - 1] == events@[i - 1]@);
            }
            if events[i - 1].body.seq >= events[i].body.seq {
                return Err(KernelError::Storage("ledger events are not in sequence".to_owned()));
            }
            proof {
                assert forall|a: int, b: int|
                    #![trigger ev[a], ev[b]]
                    0 <= a < b < i + 1 && b < ev.len() implies ev[a].body.seq < ev[b].body.seq by {
                    if b == i && a < i - 1 {
                        assert(ev[a].body.seq < ev[i - 1].body.seq);
                    }
                }
            }
            i = i + 1;
        }
        let r = Ledger { events, raw: Table::new(), receipts: Table::new() };
        proof {
            assert(r.raw() =~= Map::<Seq<char>, Seq<u8>>::empty());
            assert(r.receipts() =~= Map::<Seq<char>, ReceiptView>::empty());
        }
        Ok(r)
    }

    /// Append an event to the chain, assigning its sequence number, timestamp,
    /// previous-hash link and content hash.
    pub fn append(&mut self, event: NewEvent, now: Timestamp) -> (r: LedgerEvent)
        requires
            old(self).wf(),
            old(self).has_room(),
        ensures
            final(self).wf(),
            r@ == appended(old(self).events(), event, now),
            final(self).events() == old(self).events().push(r@),
            final(self).raw() == old(self).raw(),
            final(self).receipts() == old(self).receipts(),
    {
        let ghost ev = self.events();
        let n = self.events.len();
        let (seq, prev_event_hash) = if n == 0 {
            (1i64, None)
        } else {
            proof {
                assert(ev.last() == self.events@[n - 1]@);
            }
            let last = &self.events[n - 1];
            (last.body.seq + 1, Some(last.event_hash.clone()))
        };
        let body = EventBody {
            seq,
            kind: event.kind,
            episode: event.episode,
            branch: event.branch,
            step: event.step,
            principal: event.principal,
            timestamp: now,
            payload: event.payload,
            caused_by: event.caused_by,
            prev_event_hash,
        };
        let event_hash = body.compute_hash();
        let e = LedgerEvent { body, event_hash };
        let ghost rest = (self.raw(), self.receipts());
        self.events.push(e.clone());
        proof {
            assert(self.raw() == rest.0 && self.receipts() == rest.1);
            let after = self.events();
            assert(after =~= ev.push(e@));
            assert forall|i: int, j: int|
                #![trigger after[i], after[j]]
                0 <= i < j < after.len() implies after[i].body.seq < after[j].body.seq by {
                if j == ev.len() {
                    assert(after[i] == ev[i]);
                    if i < ev.len() - 1 {
                        assert(ev[i].body.seq < ev[ev.len() - 1].body.seq);
                    }
                } else {
                    assert(ev[i].body.seq < ev[j].body.seq);
                }
            }
        }
        e
    }

    /// Verify the entire hash chain: every event's stored hash must equal the
    /// recomputed hash of its body, and every `prev_event_hash` must equal the
    /// previous event's hash. Returns the number of verified events; fails with
    /// [`KernelError::Storage`] naming the first bad sequence.
    pub fn verify_chain(&self) -> (r: KernelResult<u64>)
        ensures
            match r {
                Ok(count) => chain_error(self.events(), 0) is None && count == self.events().len(),
                Err(e) => e matches KernelError::Storage(m) && chain_error(self.events(), 0)
                    == Some(m@),
            },
    {
        let ghost ev = self.events();
        let mut i: usize = 0;
        while i < self.events.len()
            invariant
                i <= self.events.len(),
                ev == self.events.deep_view(),
                chain_error(ev, 0) == chain_error(ev, i as int),
            decreases self.events.len() - i,
        {
            let e = &self.events[i];
            proof {
                assert(ev[i as int] == e@);
                if i > 0 {
                    assert(ev[i - 1] == self.events@[i - 1]@);
                }
            }
            let follows = match &e.body.prev_event_hash {
                Some(h) => i > 0 && text::str_eq(
                    h.as_str(),
                    self.events[i - 1].event_hash.as_str(),
                ),
                None => i == 0,
            };
            if !follows {
                let seq = text::to_signed_decimal(e.body.seq);
                return Err(
                    KernelError::Storage(
                        text::cat3(
                            "ledger chain broken at seq ",
                            seq.as_str(),
                            ": prev_event_hash mismatch",
                        ),
                    ),
                );
            }
            let recomputed = e.body.compute_hash();
            if !text::str_eq(recomputed.as_str(), e.event_hash.as_str()) {
                let seq = text::to_signed_decimal(e.body.seq);
                return Err(
                    KernelError::Storage(
                        text::cat3(
                            "ledger tampering detected at seq ",
                            seq.as_str(),
                            ": content hash mismatch",
                        ),
                    ),
                );
            }
            i = i + 1;
        }
        Ok(i as u64)
    }

    /// Store a large raw output (stdout, model response bytes, …) by content
    /// hash. Idempotent. Reference the returned hash from event payloads.
    pub fn store_raw(&mut self, bytes: &[u8]) -> (h: ContentHash)
        requires
            old(self).wf(),
        ensures
            final(self).wf(),
            h@ == hash_text(bytes@),
            final(self).raw() == if old(self).raw().contains_key(h@) {
                old(self).raw()
            } else {
                old(self).raw().insert(h@, bytes@)
            },
            final(self).events() == old(self).events(),
            final(self).receipts() == old(self).receipts(),
    {
        let h = hash_bytes(bytes);
        let ghost rest = (self.events(), self.receipts());
        if self.raw.get(h.as_str()).is_none() {
            let ghost before = self.raw@;
            let copy = bytes::copy(bytes);
            let ghost c0 = copy;
            self.raw.put(h.as_str().to_owned(), copy);
            proof {
                assert(byte_views(before.insert(h@, c0)) =~= byte_views(before).insert(
                    h@,
                    bytes@,
                ));
                assert(self.events() == rest.0 && self.receipts() == rest.1);
            }
        }
        h
    }

    /// Retrieve a raw output by hash.
    pub fn fetch_raw(&self, hash: &ContentHash) -> (r: KernelResult<&Vec<u8>>)
        ensures
            match r {
                Ok(v) => self.raw().contains_key(hash@) && v@ == self.raw()[hash@],
                Err(e) => !self.raw().contains_key(hash@) && missing(e, "raw_output"@, hash@),
            },
    {
        match self.raw.get(hash.as_str()) {
            Some(v) => Ok(v),
            None => Err(
                KernelError::NotFound { kind: "raw_output", id: hash.as_str().to_owned() },
            ),
        }
    }

    /// An [`EventWriter`] with the given attribution.
    pub fn writer(
        &self,
        episode: EpisodeId,
        branch: Option<BranchId>,
        step: Option<StepId>,
        principal: PrincipalId,
    ) -> (r: EventWriter)
        ensures
            r@ == (Attribution {
                episode: episode@,
                branch: branch.deep_view(),
                step: step.deep_view(),
                principal: principal@,
            }),
    {
        EventWriter { episode, branch, step, principal }
    }

    /// Filtered event query, returned in sequence order.
    pub fn query(&self, q: &TraceQuery) -> (out: Vec<LedgerEvent>)
        ensures
            out.deep_view() == q.result(self.events()),
    {
        q.run(&self.events)
    }

    /// Fetch a single event by sequence number.
    pub fn get(&self, seq: i64) -> (r: KernelResult<LedgerEvent>)
        ensures
            match r {
                Ok(e) => e@.body.seq == seq && self.events().contains(e@),
                Err(e) => missing(e, "ledger_event"@, text::signed_decimal(seq as int)) && forall|
                    i: int,
                |
                    0 <= i < self.events().len() ==> (#[trigger] self.events()[i]).body.seq != seq,
            },
    {
        let ghost ev = self.events();
        let mut i: usize = 0;
        while i < self.events.len()
            invariant
                i <= self.events.len(),
                ev == self.events.deep_view(),
                forall|j: int| 0 <= j < i ==> (#[trigger] ev[j]).body.seq != seq,
            decreases self.events.len() - i,
        {
            proof {
                assert(ev[i as int] == self.events@[i as int]@);
            }
            if self.events[i].body.seq == seq {
                proof {
                    assert(self.events()[i as int] == self.events@[i as int]@);
                }
                return Ok(self.events[i].clone());
            }
            i = i + 1;
        }
        Err(KernelError::NotFound { kind: "ledger_event", id: text::to_signed_decimal(seq) })
    }

    /// Causal query: every event that recorded a state delta touching `path`.
    pub fn events_modifying_path(&self, path: &str) -> (out: Vec<LedgerEvent>)
        ensures
            out.deep_view() == modifying(self.events(), path@),
    {
        query::events_modifying_path(&self.events, path)
    }

    /// Causal query: the events that led to effect `effect_id`, in sequence
    /// order (the effect events themselves included).
    pub fn events_leading_to_effect(&self, effect_id: &str) -> (out: Vec<LedgerEvent>)
        ensures
            out.deep_view() == leading(self.events(), effect_id@, self.events().len()),
    {
        query::events_leading_to_effect(&self.events, effect_id)
    }

    /// Causal query: irreversible effects committed since state `state`.
    pub fn irreversible_effects_since(&self, state: &StateId) -> (r: KernelResult<
        Vec<LedgerEvent>,
    >)
        ensures
            match (r, anchor_of(self.events(), state@, 0)) {
                (Ok(out), Some(a)) => out.deep_view() == irreversible_after(
                    self.events(),
                    self.events()[a].body.seq,
                ),
                (Err(e), None) => missing(e, "state_delta_event"@, state@),
                _ => false,
            },
    {
        match query::irreversible_effects_since(&self.events, state.as_str()) {
            Some(out) => Ok(out),
            None => Err(
                KernelError::NotFound { kind: "state_delta_event", id: state.as_str().to_owned() },
            ),
        }
    }

    /// Persist a signed [`Receipt`] under its effect's idempotency key. Storing
    /// a different receipt under an existing key fails with
    /// [`KernelError::DuplicateCommit`]; re-storing the same receipt is a no-op.
    /// A receipt that another key has cannot be stored.
    pub fn store_receipt(&mut self, receipt: &Receipt, idempotency_key: &str) -> (r: KernelResult<()>)
        requires
            old(self).wf(),
        ensures
            final(self).wf(),
            final(self).events() == old(self).events(),
            final(self).raw() == old(self).raw(),
            if old(self).receipts().contains_key(idempotency_key@) {
                let existing = old(self).receipts()[idempotency_key@];
                &&& final(self).receipts() == old(self).receipts()
                &&& if existing.id == receipt@.id {
                    r is Ok
                } else {
                    r matches Err(e) && (e matches KernelError::DuplicateCommit { key, receipt: id }
                        && key@ == idempotency_key@ && id@ == existing.id)
                }
            } else if receipt_stored(old(self).receipts(), receipt@.id) {
                &&& final(self).receipts() == old(self).receipts()
                &&& r matches Err(e) && (e matches KernelError::Storage(m) && m@
                    == "receipt identifier already in use"@)
            } else {
                &&& r is Ok
                &&& final(self).receipts() == old(self).receipts().insert(
                    idempotency_key@,
                    receipt@,
                )
            },
    {
        if let Some(existing) = self.receipts.get(idempotency_key) {
            if text::str_eq(existing.id.as_str(), receipt.id.as_str()) {
                return Ok(());
            }
            return Err(
                KernelError::DuplicateCommit {
                    key: idempotency_key.to_owned(),
                    receipt: existing.id.as_str().to_owned(),
                },
            );
        }
        if self.position_of(&receipt.id).is_some() {
            return Err(KernelError::Storage("receipt identifier already in use".to_owned()));
        }
        let ghost before = self.receipts@;
        let ghost rv = self.receipts();
        let ghost rest = (self.events(), self.raw());
        let copy = receipt.clone();
        let ghost c0 = copy;
        self.receipts.put(idempotency_key.to_owned(), copy);
        proof {
            assert(receipt_views(before.insert(idempotency_key@, c0)) =~= receipt_views(
                before,
            ).insert(idempotency_key@, receipt@));
            assert(self.events() == rest.0 && self.raw() == rest.1);
            let after = self.receipts();
            assert forall|k1: Seq<char>, k2: Seq<char>, id: Seq<char>|
                #![trigger stored_under(after, k1, id), stored_under(after, k2, id)]
                stored_under(after, k1, id) && stored_under(after, k2, id) implies k1 == k2 by {
                if k1 != idempotency_key@ {
                    assert(stored_under(rv, k1, id));
                }
                if k2 != idempotency_key@ {
                    assert(stored_under(rv, k2, id));
                }
            }
        }
        Ok(())
    }

    fn position_of(&self, id: &ReceiptId) -> (r: Option<usize>)
        ensures
            self.receipts.keyed(),
            match r {
                Some(i) => i < self.receipts.keys().len() && stored_under(
                    self.receipts(),
                    self.receipts.keys()[i as int],
                    id@,
                ),
                None => !receipt_stored(self.receipts(), id@),
            },
    {
        let n = self.receipts.len();
        let mut i: usize = 0;
        while i < n
            invariant
                i <= n,
                n == self.receipts.keys().len(),
                self.receipts.keyed(),
                forall|j: int|
                    0 <= j < i ==> !stored_under(
                        self.receipts(),
                        #[trigger] self.receipts.keys()[j],
                        id@,
                    ),
            decreases n - i,
        {
            let (_, row) = self.receipts.at(i);
            if text::str_eq(row.id.as_str(), id.as_str()) {
                return Some(i);
            }
            i = i + 1;
        }
        proof {
            if receipt_stored(self.receipts(), id@) {
                let k = choose|k: Seq<char>| #[trigger] stored_under(self.receipts(), k, id@);
                assert(self.receipts@.contains_key(k));
                let j = self.receipts.keys().index_of(k);
                assert(self.receipts.keys()[j] == k);
            }
        }
        None
    }

    /// Look up a receipt by idempotency key (`None` if never committed).
    pub fn receipt_by_idempotency_key(&self, key: &str) -> (r: Option<Receipt>)
        ensures
            match r {
                Some(x) => self.receipts().contains_key(key@) && x@ == self.receipts()[key@],
                None => !self.receipts().contains_key(key@),
            },
    {
        match self.receipts.get(key) {
            Some(x) => Some(x.clone()),
            None => None,
        }
    }

    /// Look up a receipt by id.
    pub fn get_receipt(&self, id: &ReceiptId) -> (r: KernelResult<Receipt>)
        ensures
            match r {
                Ok(x) => x@.id == id@ && exists|k: Seq<char>| #[trigger]
                    stored_under(self.receipts(), k, id@) && self.receipts()[k] == x@,
                Err(e) => !receipt_stored(self.receipts(), id@) && missing(e, "receipt"@, id@),
            },
    {
        match self.position_of(id) {
            Some(i) => {
                let (key, row) = self.receipts.at(i);
                proof {
                    assert(stored_under(self.receipts(), key@, id@));
                }
                Ok(row.clone())
            },
            None => Err(KernelError::NotFound { kind: "receipt", id: id.as_str().to_owned() }),
        }
    }
}

/// A per-step handle the kernel uses to record events with fixed
/// episode/branch/step/principal attribution.
#[derive(Debug)]
pub struct EventWriter {
    pub episode: EpisodeId,
    pub branch: Option<BranchId>,
    pub step: Option<StepId>,
    pub principal: PrincipalId,
}

impl EventWriter {
    /// What the events of this writer are attributed to.
    pub open spec fn view(&self) -> Attribution {
        Attribution {
            episode: self.episode@,
            branch: self.branch.deep_view(),
            step: self.step.deep_view(),
            principal: self.principal@,
        }
    }

    /// Record an event with this writer's attribution and no causal parents.
    pub fn record(&self, ledger: &mut Ledger, kind: EventKind, payload: Value, now: Timestamp) -> (r:
        LedgerEvent)
        requires
            old(ledger).wf(),
            old(ledger).has_room(),
        ensures
            final(ledger).wf(),
            r@ == entry(old(ledger).events(), self@, kind, payload@, Seq::empty(), now),
            final(ledger).events() == grown(
                old(ledger).events(),
                self@,
                kind,
                payload@,
                Seq::empty(),
                now,
            ),
            final(ledger).raw() == old(ledger).raw(),
            final(ledger).receipts() == old(ledger).receipts(),
    {
        self.record_caused_by(ledger, kind, payload, Vec::new(), now)
    }

    /// Record an event citing the sequence numbers of its causal parents.
    pub fn record_caused_by(
        &self,
        ledger: &mut Ledger,
        kind: EventKind,
        payload: Value,
        caused_by: Vec<i64>,
        now: Timestamp,
    ) -> (r: LedgerEvent)
        requires
            old(ledger).wf(),
            old(ledger).has_room(),
        ensures
            final(ledger).wf(),
            r@ == entry(old(ledger).events(), self@, kind, payload@, caused_by@, now),
            final(ledger).events() == grown(
                old(ledger).events(),
                self@,
                kind,
                payload@,
                caused_by@,
                now,
            ),
            final(ledger).raw() == old(ledger).raw(),
            final(ledger).receipts() == old(ledger).receipts(),
    {
        let branch = match &self.branch {
            Some(b) => Some(b.clone()),
            None => None,
        };
        let step = match &self.step {
            Some(s) => Some(s.clone()),
            None => None,
        };
        ledger.append(
            NewEvent {
                kind,
                episode: self.episode.clone(),
                branch,
                step,
                principal: self.principal.clone(),
                payload,
                caused_by,
            },
            now,
        )
    }
}

proof fn lemma_chain_error(events: Seq<EventView>, i: int)
    requires
        0 <= i,
    ensures
        chain_error(events, i) is None <==> forall|j: int|
            i <= j < events.len() ==> #[trigger] linked(events, j),
    decreases events.len() - i,
{
    if i < events.len() {
        lemma_chain_error(events, i + 1);
        if linked(events, i) {
            assert(chain_error(events, i) == chain_error(events, i + 1));
            assert forall|j: int|
                i <= j < events.len() && chain_error(events, i + 1) is None implies #[trigger] linked(
                events,
                j,
            ) by {}
        } else {
            assert(!linked(events, i));
            assert(chain_error(events, i) is Some);
        }
    }
}

/// A chain verifies exactly if every event's hash is that of its body and every
/// event names the hash of the one before: a change to any body, hash or link
/// that does not keep these is found.
pub proof fn law_chain_verifies_iff_linked(events: Seq<EventView>)
    ensures
        chain_error(events, 0) is None <==> forall|i: int|
            0 <= i < events.len() ==> #[trigger] linked(events, i),
{
    lemma_chain_error(events, 0);
}

/// Appending keeps a chain that verifies.
pub proof fn law_appending_keeps_the_chain(
    events: Seq<EventView>,
    event: NewEvent,
    now: Timestamp,
)
    requires
        chain_error(events, 0) is None,
    ensures
        chain_error(events.push(appended(events, event, now)), 0) is None,
{
    let after = events.push(appended(events, event, now));
    law_chain_verifies_iff_linked(events);
    law_chain_verifies_iff_linked(after);
    assert forall|i: int| 0 <= i < after.len() implies #[trigger] linked(after, i) by {
        if i < events.len() {
            assert(linked(events, i));
        }
        if i > 0 {
            assert(after[i - 1] == events[i - 1]);
        }
    }
}

proof fn lemma_first_unlinked(events: Seq<EventView>, k: int, i: int)
    requires
        0 <= k <= i,
        forall|j: int| k <= j < i && j < events.len() ==> #[trigger] linked(events, j),
        i <= events.len(),
    ensures
        chain_error(events, k) == chain_error(events, i),
    decreases i - k,
{
    if k < i {
        assert(linked(events, k));
        lemma_first_unlinked(events, k + 1, i);
    }
}

/// A body that was changed without its hash is found. In a chain that verified
/// before, the error names the changed event by its sequence number: its content
/// does not match its hash or, where the change touched its link, the link is
/// broken there.
pub proof fn law_changed_bodies_are_detected(events: Seq<EventView>, i: int, body: EventBodyView)
    requires
        0 <= i < events.len(),
        body.hash() != events[i].event_hash,
    ensures
        ({
            let after = events.update(i, EventView { body, ..events[i] });
            let seq = text::signed_decimal(body.seq as int);
            &&& chain_error(after, 0) is Some
            &&& chain_error(events, 0) is None ==> chain_error(after, 0) == Some(
                if body.prev_event_hash == events[i].body.prev_event_hash {
                    "ledger tampering detected at seq "@ + seq + ": content hash mismatch"@
                } else {
                    "ledger chain broken at seq "@ + seq + ": prev_event_hash mismatch"@
                },
            )
        }),
{
    let after = events.update(i, EventView { body, ..events[i] });
    law_chain_verifies_iff_linked(after);
    assert(!linked(after, i));
    if chain_error(events, 0) is None {
        law_chain_verifies_iff_linked(events);
        assert forall|j: int| 0 <= j < i implies #[trigger] linked(after, j) by {
            assert(linked(events, j));
            assert(after[j] == events[j]);
            if j > 0 {
                assert(after[j - 1] == events[j - 1]);
            }
        }
        lemma_first_unlinked(after, 0, i);
        assert(linked(events, i));
        if i > 0 {
            assert(after[i - 1] == events[i - 1]);
        }
    }
}

/// Taking out an event that others follow is found, unless its hash is the one
/// that it names as the one before.
pub proof fn law_removed_events_are_detected(events: Seq<EventView>, i: int)
    requires
        chain_error(events, 0) is None,
        0 <= i < events.len() - 1,
        events[i].body.prev_event_hash != Some(events[i].event_hash),
    ensures
        chain_error(events.remove(i), 0) is Some,
{
    let after = events.remove(i);
    law_chain_verifies_iff_linked(events);
    law_chain_verifies_iff_linked(after);
    assert(linked(events, i) && linked(events, i + 1));
    assert(after[i] == events[i + 1]);
    if i > 0 {
        assert(after[i - 1] == events[i - 1]);
    }
    assert(!linked(after, i));
}

/// An event is recorded as it was given, behind all earlier ones, which stay: with
/// the next sequence number, the hash of the one before it, and the hash of its own
/// body. Numbers start at one.
pub proof fn law_events_are_recorded_as_given(
    events: Seq<EventView>,
    by: Attribution,
    kind: EventKind,
    payload: Json,
    caused_by: Seq<i64>,
    now: Timestamp,
)
    requires
        room_for(events, 1),
        events.len() > 0 ==> events.last().body.seq >= 0,
    ensures
        ({
            let after = grown(events, by, kind, payload, caused_by, now);
            let n = events.len() as int;
            let e = after[n];
            &&& after.len() == n + 1
            &&& forall|i: int| 0 <= i < n ==> #[trigger] after[i] == events[i]
            &&& n == 0 ==> e.body.seq == 1 && e.body.prev_event_hash is None
            &&& n > 0 ==> e.body.seq == events[n - 1].body.seq + 1 && e.body.prev_event_hash
                == Some(events[n - 1].event_hash)
            &&& e.body.kind == kind
            &&& e.body.episode == by.episode
            &&& e.body.branch == by.branch
            &&& e.body.step == by.step
            &&& e.body.principal == by.principal
            &&& e.body.timestamp == now
            &&& e.body.payload == payload
            &&& e.body.caused_by == caused_by
            &&& e.event_hash == e.body.hash()
        }),
{
}

/// A new event is attributed to what it names.
pub proof fn law_new_events_are_appended_as_given(
    events: Seq<EventView>,
    event: NewEvent,
    now: Timestamp,
)
    ensures
        ({
            let e = appended(events, event, now);
            &&& e.body.kind == event.kind
            &&& e.body.episode == event.episode@
            &&& event.branch matches Some(b) ==> e.body.branch == Some(b@)
            &&& event.branch is None ==> e.body.branch is None
            &&& event.step matches Some(s) ==> e.body.step == Some(s@)
            &&& event.step is None ==> e.body.step is None
            &&& e.body.principal == event.principal@
            &&& e.body.payload == event.payload@
            &&& e.body.caused_by == event.caused_by@
            &&& e.body.timestamp == now
        }),
{
}

/// A chain verifies exactly if the first event names no predecessor, every other one
/// the hash of the event right before it, and each has the hash of its body.
pub proof fn law_chain_is_linked_event_by_event(events: Seq<EventView>)
    ensures
        chain_error(events, 0) is None <==> {
            &&& events.len() > 0 ==> events[0].body.prev_event_hash is None
            &&& forall|i: int, j: int|
                0 <= i && j == i + 1 && j < events.len() ==> (
                #[trigger] events[j]).body.prev_event_hash == Some(
                    (#[trigger] events[i]).event_hash,
                )
            &&& forall|i: int|
                0 <= i < events.len() ==> (#[trigger] events[i]).event_hash
                    == events[i].body.hash()
        },
{
    law_chain_verifies_iff_linked(events);
    if chain_error(events, 0) is None {
        assert forall|i: int, j: int|
            0 <= i && j == i + 1 && j < events.len() implies (
        #[trigger] events[j]).body.prev_event_hash == Some((#[trigger] events[i]).event_hash) by {
            assert(linked(events, j));
        }
        assert forall|i: int| 0 <= i < events.len() implies (#[trigger] events[i]).event_hash
            == events[i].body.hash() by {
            assert(linked(events, i));
        }
        if events.len() > 0 {
            assert(linked(events, 0));
        }
    }
    if {
        &&& events.len() > 0 ==> events[0].body.prev_event_hash is None
        &&& forall|i: int, j: int|
            0 <= i && j == i + 1 && j < events.len() ==> (#[trigger] events[j]).body.prev_event_hash
                == Some((#[trigger] events[i]).event_hash)
        &&& forall|i: int|
            0 <= i < events.len() ==> (#[trigger] events[i]).event_hash == events[i].body.hash()
    } {
        assert forall|i: int| 0 <= i < events.len() implies #[trigger] linked(events, i) by {
            if i > 0 {
                assert(events[i].body.prev_event_hash == Some(events[i - 1].event_hash));
            }
        }
    }
}

/// Numbers start at one and go up by one, event by event, as long as there is room.
pub proof fn law_numbers_go_up_by_one(
    events: Seq<EventView>,
    by: Attribution,
    kind: EventKind,
    payload: Json,
    caused_by: Seq<i64>,
    now: Timestamp,
)
    requires
        room_for(events, 1),
        events.len() > 0 ==> i64::MIN < events.last().body.seq + 1,
    ensures
        events.len() == 0 ==> grown(events, by, kind, payload, caused_by, now).last().body.seq == 1,
        events.len() > 0 ==> grown(events, by, kind, payload, caused_by, now).last().body.seq
            == events.last().body.seq + 1,
        next_seq(grown(events, by, kind, payload, caused_by, now)) == next_seq(events) + 1,
        events.len() == 0 ==> (room_for(events, 1) <==> 1 <= i64::MAX),
        events.len() > 0 ==> (room_for(events, 1) <==> events.last().body.seq < i64::MAX),
{
}

/// An event comes before all that come after it.
pub proof fn law_events_stand_in_sequence(events: Seq<EventView>, e: EventView)
    requires
        in_sequence(events),
    ensures
        in_sequence(events.push(e)) <==> forall|i: int|
            0 <= i < events.len() ==> (#[trigger] events[i]).body.seq < e.body.seq,
{
    let more = events.push(e);
    let n = events.len() as int;
    if in_sequence(more) {
        assert forall|i: int| 0 <= i < events.len() implies (#[trigger] events[i]).body.seq
            < e.body.seq by {
            assert(more[i].body.seq < more[n].body.seq);
        }
    }
    if forall|i: int| 0 <= i < events.len() ==> (#[trigger] events[i]).body.seq < e.body.seq {
        assert forall|i: int, j: int|
            #![trigger more[i], more[j]]
            0 <= i < j < more.len() implies more[i].body.seq < more[j].body.seq by {
            assert(more[i] == events[i]);
            if j < n {
                assert(more[j] == events[j]);
            }
        }
    }
}

/// A receipt is stored exactly if some key holds one of its identifier.
pub proof fn law_receipts_are_stored_under_a_key(
    m: Map<Seq<char>, ReceiptView>,
    key: Seq<char>,
    receipt: ReceiptView,
    id: Seq<char>,
)
    requires
        !m.contains_key(key),
    ensures
        receipt_stored(m.insert(key, receipt), id) <==> receipt_stored(m, id) || receipt.id == id,
{
    let more = m.insert(key, receipt);
    if receipt.id == id {
        assert(stored_under(more, key, id));
    }
    if receipt_stored(m, id) {
        let k = choose|k: Seq<char>| #[trigger] stored_under(m, k, id);
        assert(stored_under(more, k, id));
    }
    if receipt_stored(more, id) {
        let k = choose|k: Seq<char>| #[trigger] stored_under(more, k, id);
        if k != key {
            assert(stored_under(m, k, id));
        }
    }
}

/// What the ledger does not hold is named by kind and name.
pub proof fn law_missing_records_are_named(e: KernelError, what: Seq<char>, which: Seq<char>)
    requires
        missing(e, what, which),
    ensures
        e is NotFound,
        e.spec_message() == "unknown object: "@ + what + " `"@ + which + "`"@,
{
}

} // verus!
