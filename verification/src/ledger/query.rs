//! Queries over the events of a ledger.
use vstd::prelude::*;
use crate::delta::delta_in;
use crate::ids::{BranchId, EpisodeId, PrincipalId, StepId};
use crate::json::{Json, member, text_of};
use crate::ledger::event::{EventKind, EventView, LedgerEvent};
use crate::state::StateDelta;
use crate::text;
use crate::time::Timestamp;

verus! {

/// Filters for a trace query. All fields are optional and AND-combined.
#[derive(Debug)]
pub struct TraceQuery {
    pub episode: Option<EpisodeId>,
    pub branch: Option<BranchId>,
    /// Restrict to events produced by a specific step.
    pub step: Option<StepId>,
    /// Inclusive ledger-sequence range: the total order over steps.
    pub seq_range: Option<(i64, i64)>,
    pub principal: Option<PrincipalId>,
    /// Empty = all kinds.
    pub kinds: Vec<EventKind>,
    /// Inclusive UTC time range.
    pub time_range: Option<(Timestamp, Timestamp)>,
    /// Maximum number of events returned (default: unlimited).
    pub limit: Option<usize>,
}

impl Default for TraceQuery {
    fn default() -> (r: Self)
        ensures
            r.episode is None,
            r.branch is None,
            r.step is None,
            r.seq_range is None,
            r.principal is None,
            r.kinds@.len() == 0,
            r.time_range is None,
            r.limit is None,
    {
        TraceQuery {
            episode: None,
            branch: None,
            step: None,
            seq_range: None,
            principal: None,
            kinds: Vec::new(),
            time_range: None,
            limit: None,
        }
    }
}

/// A filter of text is met: there is none, or it is the text.
pub open spec fn text_filter(want: Option<Seq<char>>, got: Option<Seq<char>>) -> bool {
    want is None || want == got
}

impl TraceQuery {
    /// The event passes every filter but that of time.
    pub open spec fn admits(&self, e: EventView) -> bool {
        &&& text_filter(self.episode.deep_view(), Some(e.body.episode))
        &&& text_filter(self.branch.deep_view(), e.body.branch)
        &&& text_filter(self.step.deep_view(), e.body.step)
        &&& text_filter(self.principal.deep_view(), Some(e.body.principal))
        &&& match self.seq_range {
            Some((lo, hi)) => lo <= e.body.seq <= hi,
            None => true,
        }
        &&& self.kinds@.len() == 0 || self.kinds@.contains(e.body.kind)
    }

    /// The event passes the filter of time.
    pub open spec fn in_time(&self, e: EventView) -> bool {
        match self.time_range {
            Some((lo, hi)) => !e.body.timestamp.before(lo) && !hi.before(e.body.timestamp),
            None => true,
        }
    }

    /// What the query gives of the events: the first of those that pass every
    /// filter, as many as the limit allows.
    pub open spec fn result(&self, events: Seq<EventView>) -> Seq<EventView> {
        limited(self.limit, timely(*self, admitted(*self, events)))
    }

    /// Whether the event passes every filter but that of time.
    fn admits_event(&self, e: &LedgerEvent) -> (r: bool)
        ensures
            r == self.admits(e@),
    {
        let episode = match &self.episode {
            Some(x) => text::str_eq(x.as_str(), e.body.episode.as_str()),
            None => true,
        };
        let branch = match (&self.branch, &e.body.branch) {
            (None, _) => true,
            (Some(x), Some(y)) => text::str_eq(x.as_str(), y.as_str()),
            (Some(_), None) => false,
        };
        let step = match (&self.step, &e.body.step) {
            (None, _) => true,
            (Some(x), Some(y)) => text::str_eq(x.as_str(), y.as_str()),
            (Some(_), None) => false,
        };
        let principal = match &self.principal {
            Some(x) => text::str_eq(x.as_str(), e.body.principal.as_str()),
            None => true,
        };
        let seq = match self.seq_range {
            Some((lo, hi)) => lo <= e.body.seq && e.body.seq <= hi,
            None => true,
        };
        let kind = self.kinds.len() == 0 || has_kind(&self.kinds, e.body.kind);
        episode && branch && step && principal && seq && kind
    }

    /// Runs the query over the events, in their order.
    pub fn run(&self, events: &Vec<LedgerEvent>) -> (out: Vec<LedgerEvent>)
        ensures
            out.deep_view() == self.result(events.deep_view()),
    {
        let ghost ev = events.deep_view();
        let mut kept: Vec<LedgerEvent> = Vec::new();
        let mut i: usize = 0;
        proof {
            assert(ev.take(0) =~= Seq::<EventView>::empty());
            assert(kept.deep_view() =~= Seq::<EventView>::empty());
        }
        while i < events.len()
            invariant
                i <= events.len(),
                ev == events.deep_view(),
                kept.deep_view() == admitted(*self, ev.take(i as int)),
            decreases events.len() - i,
        {
            let e = &events[i];
            let ghost next = ev.take(i + 1);
            let ghost before = kept.deep_view();
            proof {
                assert(next.drop_last() == ev.take(i as int));
                assert(next.last() == e@);
            }
            if self.admits_event(e) {
                kept.push(e.clone());
                proof {
                    assert(kept.deep_view() =~= before.push(e@));
                }
            }
            i = i + 1;
        }
        proof {
            assert(ev.take(events.len() as int) == ev);
        }
        let ghost kv = kept.deep_view();
        let mut out: Vec<LedgerEvent> = Vec::new();
        let mut j: usize = 0;
        proof {
            assert(kv.take(0) =~= Seq::<EventView>::empty());
            assert(out.deep_view() =~= Seq::<EventView>::empty());
        }
        while j < kept.len()
            invariant
                j <= kept.len(),
                kv == kept.deep_view(),
                out.deep_view() == timely(*self, kv.take(j as int)),
            decreases kept.len() - j,
        {
            let e = &kept[j];
            let ghost next = kv.take(j + 1);
            let ghost before = out.deep_view();
            proof {
                assert(next.drop_last() == kv.take(j as int));
                assert(next.last() == e@);
            }
            let timely = match &self.time_range {
                Some((lo, hi)) => !e.body.timestamp.is_before(lo) && !hi.is_before(
                    &e.body.timestamp,
                ),
                None => true,
            };
            if timely {
                out.push(e.clone());
                proof {
                    assert(out.deep_view() =~= before.push(e@));
                }
            }
            j = j + 1;
        }
        proof {
            assert(kv.take(kept.len() as int) == kv);
        }
        if let Some(limit) = self.limit {
            let ghost all = out.deep_view();
            if limit < out.len() {
                out.truncate(limit);
                proof {
                    assert(out.deep_view() =~= all.take(limit as int));
                }
            }
        }
        out
    }
}

fn has_kind(kinds: &Vec<EventKind>, kind: EventKind) -> (r: bool)
    ensures
        r == kinds@.contains(kind),
{
    let mut i: usize = 0;
    while i < kinds.len()
        invariant
            i <= kinds.len(),
            forall|j: int| 0 <= j < i ==> #[trigger] kinds@[j] != kind,
        decreases kinds.len() - i,
    {
        if kinds[i] == kind {
            return true;
        }
        i = i + 1;
    }
    false
}

/// The events that pass every filter but that of time.
pub open spec fn admitted(q: TraceQuery, events: Seq<EventView>) -> Seq<EventView>
    decreases events.len(),
{
    if events.len() == 0 {
        Seq::empty()
    } else {
        let rest = admitted(q, events.drop_last());
        if q.admits(events.last()) {
            rest.push(events.last())
        } else {
            rest
        }
    }
}

/// The events that pass the filter of time.
pub open spec fn timely(q: TraceQuery, events: Seq<EventView>) -> Seq<EventView>
    decreases events.len(),
{
    if events.len() == 0 {
        Seq::empty()
    } else {
        let rest = timely(q, events.drop_last());
        if q.in_time(events.last()) {
            rest.push(events.last())
        } else {
            rest
        }
    }
}

/// The first events, as many as the limit allows.
pub open spec fn limited(limit: Option<usize>, events: Seq<EventView>) -> Seq<EventView> {
    match limit {
        Some(n) => if n < events.len() {
            events.take(n as int)
        } else {
            events
        },
        None => events,
    }
}

/// The event recorded a delta that touches the path: its payload, or the
/// payload's `delta`, is one.
pub open spec fn modifies(e: EventView, path: Seq<char>) -> bool {
    let d = match member(e.body.payload, "delta"@) {
        Some(d) => d,
        None => e.body.payload,
    };
    e.body.kind == EventKind::StateDeltaRecorded && delta_in(d) is Some && delta_in(d)->0.touches(
        path,
    )
}

/// The events that recorded a delta that touches the path.
pub open spec fn modifying(events: Seq<EventView>, path: Seq<char>) -> Seq<EventView>
    decreases events.len(),
{
    if events.len() == 0 {
        Seq::empty()
    } else {
        let rest = modifying(events.drop_last(), path);
        if modifies(events.last(), path) {
            rest.push(events.last())
        } else {
            rest
        }
    }
}

fn modifies_path(e: &LedgerEvent, path: &str) -> (r: bool)
    ensures
        r == modifies(e@, path@),
{
    if e.body.kind != EventKind::StateDeltaRecorded {
        return false;
    }
    let d = match e.body.payload.get("delta") {
        Some(d) => d,
        None => &e.body.payload,
    };
    match StateDelta::from_value(d) {
        Some(delta) => delta.touches(path),
        None => false,
    }
}

/// Causal query: every event that recorded a state delta touching `path`.
///
/// Looks at [`EventKind::StateDeltaRecorded`] events whose payload is a state
/// delta (or `{"delta": …, ...}`) containing `path`.
pub fn events_modifying_path(events: &Vec<LedgerEvent>, path: &str) -> (out: Vec<LedgerEvent>)
    ensures
        out.deep_view() == modifying(events.deep_view(), path@),
{
    let ghost ev = events.deep_view();
    let mut out: Vec<LedgerEvent> = Vec::new();
    let mut i: usize = 0;
    proof {
        assert(ev.take(0) =~= Seq::<EventView>::empty());
        assert(out.deep_view() =~= Seq::<EventView>::empty());
    }
    while i < events.len()
        invariant
            i <= events.len(),
            ev == events.deep_view(),
            out.deep_view() == modifying(ev.take(i as int), path@),
        decreases events.len() - i,
    {
        let e = &events[i];
        let ghost next = ev.take(i + 1);
        let ghost before = out.deep_view();
        proof {
            assert(next.drop_last() == ev.take(i as int));
            assert(next.last() == e@);
        }
        if modifies_path(e, path) {
            out.push(e.clone());
            proof {
                assert(out.deep_view() =~= before.push(e@));
            }
        }
        i = i + 1;
    }
    proof {
        assert(ev.take(events.len() as int) == ev);
    }
    out
}

/// The text under a key of the event's payload.
pub open spec fn payload_text(e: EventView, key: Seq<char>) -> Option<Seq<char>> {
    match member(e.body.payload, key) {
        Some(v) => text_of(v),
        None => None,
    }
}

fn payload_is(e: &LedgerEvent, key: &str, want: &str) -> (r: bool)
    ensures
        r == (payload_text(e@, key@) == Some(want@)),
{
    match e.body.payload.get(key) {
        Some(v) => match v.as_str() {
            Some(s) => text::str_eq(s, want),
            None => false,
        },
        None => false,
    }
}

/// The event at `i` names the effect, or led over at most `n` links to one that
/// does.
pub open spec fn leads_within(
    events: Seq<EventView>,
    effect: Seq<char>,
    i: int,
    n: nat,
) -> bool
    decreases n,
{
    payload_text(events[i], "effect_id"@) == Some(effect) || (n > 0 && exists|k: int|
        #[trigger] cites_at(events, k, i) && leads_within(events, effect, k, (n - 1) as nat))
}

/// The event at `k` cites the one at `i` as a cause.
pub open spec fn cites_at(events: Seq<EventView>, k: int, i: int) -> bool {
    0 <= k < events.len() && events[k].body.caused_by.contains(events[i].body.seq)
}

/// The event at `i` names the effect, or is among the transitive causes of one
/// that does.
pub open spec fn leads(events: Seq<EventView>, effect: Seq<char>, i: int) -> bool {
    exists|n: nat| #[trigger] leads_within(events, effect, i, n)
}

/// The first `n` events without those that do not lead to the effect.
pub open spec fn leading(events: Seq<EventView>, effect: Seq<char>, n: nat) -> Seq<EventView>
    decreases n,
{
    if n == 0 {
        Seq::empty()
    } else {
        let rest = leading(events, effect, (n - 1) as nat);
        if leads(events, effect, n - 1) {
            rest.push(events[n - 1])
        } else {
            rest
        }
    }
}

proof fn lemma_leads_step(events: Seq<EventView>, effect: Seq<char>, k: int, i: int)
    requires
        0 <= k < events.len(),
        leads(events, effect, k),
        events[k].body.caused_by.contains(events[i].body.seq),
    ensures
        leads(events, effect, i),
{
    let n = choose|n: nat| #[trigger] leads_within(events, effect, k, n);
    assert(cites_at(events, k, i));
    assert(leads_within(events, effect, i, n + 1));
}

proof fn lemma_leading_are_marked(
    events: Seq<EventView>,
    effect: Seq<char>,
    marks: Seq<bool>,
    i: int,
    n: nat,
)
    requires
        marks.len() == events.len(),
        0 <= i < events.len(),
        forall|j: int|
            0 <= j < events.len() && payload_text(#[trigger] events[j], "effect_id"@) == Some(
                effect,
            ) ==> marks[j],
        forall|k: int, j: int|
            #![trigger marks[k], marks[j]]
            0 <= k < events.len() && 0 <= j < events.len() && marks[k]
                && events[k].body.caused_by.contains(events[j].body.seq) ==> marks[j],
        leads_within(events, effect, i, n),
    ensures
        marks[i],
    decreases n,
{
    if payload_text(events[i], "effect_id"@) != Some(effect) {
        let k = choose|k: int|
            #[trigger] cites_at(events, k, i) && leads_within(events, effect, k, (n - 1) as nat);
        lemma_leading_are_marked(events, effect, marks, k, (n - 1) as nat);
        assert(marks[k]);
    }
}

/// How many marks are not set.
spec fn unmarked(marks: Seq<bool>) -> nat
    decreases marks.len(),
{
    if marks.len() == 0 {
        0
    } else {
        unmarked(marks.drop_last()) + if marks.last() {
            0nat
        } else {
            1nat
        }
    }
}

proof fn lemma_marking(marks: Seq<bool>, i: int)
    requires
        0 <= i < marks.len(),
        !marks[i],
    ensures
        unmarked(marks.update(i, true)) < unmarked(marks),
    decreases marks.len(),
{
    let after = marks.update(i, true);
    if i == marks.len() - 1 {
        assert(after.drop_last() =~= marks.drop_last());
    } else {
        assert(after.drop_last() =~= marks.drop_last().update(i, true));
        lemma_marking(marks.drop_last(), i);
    }
}

fn cites(e: &LedgerEvent, seq: i64) -> (r: bool)
    ensures
        r == e@.body.caused_by.contains(seq),
{
    let mut i: usize = 0;
    while i < e.body.caused_by.len()
        invariant
            i <= e.body.caused_by.len(),
            forall|j: int| 0 <= j < i ==> #[trigger] e.body.caused_by@[j] != seq,
        decreases e.body.caused_by.len() - i,
    {
        if e.body.caused_by[i] == seq {
            return true;
        }
        i = i + 1;
    }
    false
}

/// Marks every event that a marked one cites; says whether that marked any.
fn mark_causes(events: &Vec<LedgerEvent>, marks: &mut Vec<bool>, effect: Ghost<Seq<char>>) -> (changed:
    bool)
    requires
        old(marks).len() == events.len(),
        forall|j: int|
            0 <= j < events.len() && #[trigger] old(marks)@[j] ==> leads(
                events.deep_view(),
                effect@,
                j,
            ),
    ensures
        final(marks)@.len() == events.len(),
        forall|j: int|
            0 <= j < events.len() && #[trigger] final(marks)@[j] ==> leads(
                events.deep_view(),
                effect@,
                j,
            ),
        forall|j: int|
            0 <= j < events.len() && #[trigger] old(marks)@[j] ==> final(marks)@[j],
        changed ==> unmarked(final(marks)@) < unmarked(old(marks)@),
        !changed ==> final(marks)@ == old(marks)@,
        !changed ==> forall|k: int, j: int|
            #![trigger final(marks)@[k], final(marks)@[j]]
            0 <= k < events.len() && 0 <= j < events.len() && final(marks)@[k]
                && events.deep_view()[k].body.caused_by.contains(
                events.deep_view()[j].body.seq,
            ) ==> final(marks)@[j],
{
    let ghost ev = events.deep_view();
    let ghost start = marks@;
    let mut changed: bool = false;
    let mut k: usize = 0;
    while k < events.len()
        invariant
            k <= events.len(),
            ev == events.deep_view(),
            marks@.len() == events.len() == start.len(),
            forall|j: int|
                0 <= j < events.len() && #[trigger] marks@[j] ==> leads(ev, effect@, j),
            forall|j: int| 0 <= j < events.len() && #[trigger] start[j] ==> marks@[j],
            changed ==> unmarked(marks@) < unmarked(start),
            !changed ==> marks@ == start,
            !changed ==> forall|a: int, j: int|
                #![trigger marks@[a], marks@[j]]
                0 <= a < k && 0 <= j < events.len() && marks@[a]
                    && ev[a].body.caused_by.contains(ev[j].body.seq) ==> marks@[j],
        decreases events.len() - k,
    {
        let mut j: usize = 0;
        while j < events.len()
            invariant
                k < events.len(),
                j <= events.len(),
                ev == events.deep_view(),
                marks@.len() == events.len() == start.len(),
                forall|b: int|
                    0 <= b < events.len() && #[trigger] marks@[b] ==> leads(ev, effect@, b),
                forall|b: int| 0 <= b < events.len() && #[trigger] start[b] ==> marks@[b],
                changed ==> unmarked(marks@) < unmarked(start),
                !changed ==> marks@ == start,
                !changed ==> forall|a: int, b: int|
                    #![trigger marks@[a], marks@[b]]
                    0 <= a < k && 0 <= b < events.len() && marks@[a]
                        && ev[a].body.caused_by.contains(ev[b].body.seq) ==> marks@[b],
                !changed ==> forall|b: int|
                    0 <= b < j && marks@[k as int] && ev[k as int].body.caused_by.contains(
                        ev[b].body.seq,
                    ) ==> #[trigger] marks@[b],
            decreases events.len() - j,
        {
            proof {
                assert(ev[k as int] == events@[k as int]@);
                assert(ev[j as int] == events@[j as int]@);
            }
            if marks[k] && !marks[j] && cites(&events[k], events[j].body.seq) {
                proof {
                    lemma_leads_step(ev, effect@, k as int, j as int);
                    lemma_marking(marks@, j as int);
                }
                marks.set(j, true);
                changed = true;
            }
            j = j + 1;
        }
        k = k + 1;
    }
    changed
}

/// Causal query: the events that led to effect `effect_id`.
///
/// Seeds from every event whose payload carries `"effect_id" == effect_id`, then
/// walks `caused_by` attribution links transitively. Returned in sequence order
/// (the effect events themselves included).
pub fn events_leading_to_effect(events: &Vec<LedgerEvent>, effect_id: &str) -> (out: Vec<
    LedgerEvent,
>)
    ensures
        out.deep_view() == leading(events.deep_view(), effect_id@, events@.len()),
{
    let ghost ev = events.deep_view();
    let mut marks: Vec<bool> = Vec::new();
    let mut i: usize = 0;
    while i < events.len()
        invariant
            i <= events.len(),
            ev == events.deep_view(),
            marks@.len() == i,
            forall|j: int|
                0 <= j < i ==> #[trigger] marks@[j] == (payload_text(ev[j], "effect_id"@) == Some(
                    effect_id@,
                )),
        decreases events.len() - i,
    {
        proof {
            assert(ev[i as int] == events@[i as int]@);
        }
        marks.push(payload_is(&events[i], "effect_id", effect_id));
        i = i + 1;
    }
    proof {
        assert forall|j: int| 0 <= j < events.len() && #[trigger] marks@[j] implies leads(
            ev,
            effect_id@,
            j,
        ) by {
            assert(leads_within(ev, effect_id@, j, 0));
        }
    }
    let ghost seeds = marks@;
    loop
        invariant
            ev == events.deep_view(),
            marks@.len() == events.len() == seeds.len(),
            forall|j: int|
                0 <= j < events.len() ==> #[trigger] seeds[j] == (payload_text(
                    ev[j],
                    "effect_id"@,
                ) == Some(effect_id@)),
            forall|j: int| 0 <= j < events.len() && #[trigger] seeds[j] ==> marks@[j],
            forall|j: int|
                0 <= j < events.len() && #[trigger] marks@[j] ==> leads(ev, effect_id@, j),
        ensures
            marks@.len() == events.len(),
            forall|j: int|
                0 <= j < events.len() ==> #[trigger] marks@[j] == leads(ev, effect_id@, j),
        decreases unmarked(marks@),
    {
        let ghost before = marks@;
        let changed = mark_causes(events, &mut marks, Ghost(effect_id@));
        proof {
            assert forall|j: int| 0 <= j < events.len() && #[trigger] seeds[j] implies marks@[j] by {
                assert(before[j]);
            }
        }
        if !changed {
            proof {
                assert forall|j: int| 0 <= j < events.len() implies #[trigger] marks@[j] == leads(
                    ev,
                    effect_id@,
                    j,
                ) by {
                    if leads(ev, effect_id@, j) {
                        let n = choose|n: nat| #[trigger] leads_within(ev, effect_id@, j, n);
                        assert forall|x: int|
                            0 <= x < ev.len() && payload_text(#[trigger] ev[x], "effect_id"@)
                                == Some(effect_id@) implies marks@[x] by {
                            assert(seeds[x]);
                        }
                        lemma_leading_are_marked(ev, effect_id@, marks@, j, n);
                    }
                }
            }
            break;
        }
    }
    let mut out: Vec<LedgerEvent> = Vec::new();
    let mut j: usize = 0;
    proof {
        assert(out.deep_view() =~= Seq::<EventView>::empty());
    }
    while j < events.len()
        invariant
            j <= events.len(),
            ev == events.deep_view(),
            marks@.len() == events.len(),
            forall|x: int|
                0 <= x < events.len() ==> #[trigger] marks@[x] == leads(ev, effect_id@, x),
            out.deep_view() == leading(ev, effect_id@, j as nat),
        decreases events.len() - j,
    {
        let ghost before = out.deep_view();
        proof {
            assert(ev[j as int] == events@[j as int]@);
        }
        if marks[j] {
            out.push(events[j].clone());
            proof {
                assert(out.deep_view() =~= before.push(ev[j as int]));
            }
        }
        j = j + 1;
    }
    out
}

/// The first event from position `i` on that recorded the state.
pub open spec fn anchor_of(events: Seq<EventView>, state: Seq<char>, i: int) -> Option<int>
    decreases events.len() - i,
{
    if i >= events.len() {
        None
    } else if events[i].body.kind == EventKind::StateDeltaRecorded && payload_text(
        events[i],
        "state_id"@,
    ) == Some(state) {
        Some(i)
    } else {
        anchor_of(events, state, i + 1)
    }
}

/// The event is the commit of an effect that cannot be undone.
pub open spec fn irreversible_commit(e: EventView) -> bool {
    e.body.kind == EventKind::EffectCommitted && (payload_text(e, "class"@) == Some(
        "irreversible"@,
    ) || payload_text(e, "class"@) == Some("opaque_external"@))
}

/// Those of the events after `seq` that commit an effect that cannot be undone.
pub open spec fn irreversible_after(events: Seq<EventView>, seq: i64) -> Seq<EventView>
    decreases events.len(),
{
    if events.len() == 0 {
        Seq::empty()
    } else {
        let rest = irreversible_after(events.drop_last(), seq);
        if events.last().body.seq > seq && irreversible_commit(events.last()) {
            rest.push(events.last())
        } else {
            rest
        }
    }
}

/// Causal query: irreversible effects committed since state `state`.
///
/// Finds the [`EventKind::StateDeltaRecorded`] event whose payload names `state`
/// via `"state_id"`, then returns every later [`EventKind::EffectCommitted`]
/// event whose payload `"class"` is `"irreversible"` or `"opaque_external"`;
/// `None` when no event names the state.
pub fn irreversible_effects_since(events: &Vec<LedgerEvent>, state: &str) -> (r: Option<
    Vec<LedgerEvent>,
>)
    ensures
        match (r, anchor_of(events.deep_view(), state@, 0)) {
            (Some(out), Some(a)) => out.deep_view() == irreversible_after(
                events.deep_view(),
                events.deep_view()[a].body.seq,
            ),
            (None, None) => true,
            _ => false,
        },
{
    let ghost ev = events.deep_view();
    let mut a: usize = 0;
    let mut found: Option<i64> = None;
    while a < events.len()
        invariant_except_break
            a <= events.len(),
            ev == events.deep_view(),
            found is None,
            anchor_of(ev, state@, 0) == anchor_of(ev, state@, a as int),
        ensures
            ev == events.deep_view(),
            match (found, anchor_of(ev, state@, 0)) {
                (Some(s), Some(x)) => s == ev[x].body.seq,
                (None, None) => true,
                _ => false,
            },
        decreases events.len() - a,
    {
        proof {
            assert(ev[a as int] == events@[a as int]@);
        }
        if events[a].body.kind == EventKind::StateDeltaRecorded && payload_is(
            &events[a],
            "state_id",
            state,
        ) {
            found = Some(events[a].body.seq);
            break;
        }
        a = a + 1;
    }
    let seq = match found {
        Some(s) => s,
        None => {
            return None;
        },
    };
    let mut out: Vec<LedgerEvent> = Vec::new();
    let mut i: usize = 0;
    proof {
        assert(ev.take(0) =~= Seq::<EventView>::empty());
        assert(out.deep_view() =~= Seq::<EventView>::empty());
    }
    while i < events.len()
        invariant
            i <= events.len(),
            ev == events.deep_view(),
            out.deep_view() == irreversible_after(ev.take(i as int), seq),
        decreases events.len() - i,
    {
        let e = &events[i];
        let ghost next = ev.take(i + 1);
        let ghost before = out.deep_view();
        proof {
            assert(next.drop_last() == ev.take(i as int));
            assert(next.last() == e@);
        }
        if e.body.seq > seq && e.body.kind == EventKind::EffectCommitted && (payload_is(
            e,
            "class",
            "irreversible",
        ) || payload_is(e, "class", "opaque_external")) {
            out.push(e.clone());
            proof {
                assert(out.deep_view() =~= before.push(e@));
            }
        }
        i = i + 1;
    }
    proof {
        assert(ev.take(events.len() as int) == ev);
    }
    Some(out)
}

/// Asking what irreversible was done since a state: of the events after the one that
/// recorded the state, all commits of irreversible or opaque effects, and nothing
/// else.
pub proof fn law_irreversible_commits_are_all_listed(events: Seq<EventView>, seq: i64, e: EventView)
    ensures
        irreversible_after(events, seq).contains(e) <==> {
            &&& events.contains(e)
            &&& e.body.seq > seq
            &&& e.body.kind is EffectCommitted
            &&& payload_text(e, "class"@) == Some("irreversible"@) || payload_text(e, "class"@)
                == Some("opaque_external"@)
        },
    decreases events.len(),
{
    if events.len() > 0 {
        let before = events.drop_last();
        law_irreversible_commits_are_all_listed(before, seq, e);
        let rest = irreversible_after(before, seq);
        let all = irreversible_after(events, seq);
        lemma_last_or_before(events, e);
        if all.len() > rest.len() {
            assert(all.drop_last() =~= rest);
            lemma_last_or_before(all, e);
        }
    }
}

proof fn lemma_last_or_before(s: Seq<EventView>, e: EventView)
    requires
        s.len() > 0,
    ensures
        s.contains(e) <==> s.drop_last().contains(e) || s.last() == e,
{
    if s.contains(e) {
        let i = s.index_of(e);
        if i < s.len() - 1 {
            assert(s.drop_last()[i] == e);
        }
    }
    if s.drop_last().contains(e) {
        let i = s.drop_last().index_of(e);
        assert(s[i] == e);
    }
    if s.last() == e {
        assert(s[s.len() - 1] == e);
    }
}

/// The irreversible commits keep the order of the ledger: a further event is listed
/// behind all earlier ones, or not at all.
pub proof fn law_irreversible_commits_keep_their_order(
    events: Seq<EventView>,
    seq: i64,
    e: EventView,
)
    ensures
        irreversible_after(Seq::empty(), seq) == Seq::<EventView>::empty(),
        ({
            let known = irreversible_after(events, seq);
            let all = irreversible_after(events.push(e), seq);
            if e.body.seq > seq && e.body.kind is EffectCommitted && (payload_text(e, "class"@)
                == Some("irreversible"@) || payload_text(e, "class"@) == Some("opaque_external"@)) {
                all == known.push(e)
            } else {
                all == known
            }
        }),
{
    assert(events.push(e).drop_last() =~= events);
}

/// The event that a state is looked up by is the first that recorded it.
pub proof fn law_states_are_found_where_they_were_recorded(
    events: Seq<EventView>,
    state: Seq<char>,
    i: int,
)
    requires
        0 <= i <= events.len(),
    ensures
        match anchor_of(events, state, i) {
            Some(a) => {
                &&& i <= a < events.len()
                &&& events[a].body.kind is StateDeltaRecorded
                &&& payload_text(events[a], "state_id"@) == Some(state)
                &&& forall|j: int|
                    i <= j < a ==> !((#[trigger] events[j]).body.kind is StateDeltaRecorded
                        && payload_text(events[j], "state_id"@) == Some(state))
            },
            None => forall|j: int|
                i <= j < events.len() ==> !((#[trigger] events[j]).body.kind is StateDeltaRecorded
                    && payload_text(events[j], "state_id"@) == Some(state)),
        },
    decreases events.len() - i,
{
    if i < events.len() {
        law_states_are_found_where_they_were_recorded(events, state, i + 1);
    }
}

/// A query without a limit takes every event that meets all of its filters, in the
/// order of the ledger.
pub proof fn law_queries_combine_their_filters(q: TraceQuery, events: Seq<EventView>, e: EventView)
    requires
        q.limit is None,
    ensures
        q.result(Seq::empty()) == Seq::<EventView>::empty(),
        q.result(events.push(e)) == if {
            &&& q.episode matches Some(x) ==> x@ == e.body.episode
            &&& q.branch matches Some(x) ==> e.body.branch == Some(x@)
            &&& q.step matches Some(x) ==> e.body.step == Some(x@)
            &&& q.principal matches Some(x) ==> x@ == e.body.principal
            &&& q.seq_range matches Some((lo, hi)) ==> lo <= e.body.seq <= hi
            &&& q.kinds@.len() > 0 ==> q.kinds@.contains(e.body.kind)
            &&& q.time_range matches Some((from, to)) ==> !e.body.timestamp.before(from)
                && !to.before(e.body.timestamp)
        } {
            q.result(events).push(e)
        } else {
            q.result(events)
        },
{
    assert(events.push(e).drop_last() =~= events);
    let a = admitted(q, events);
    assert(a.push(e).drop_last() =~= a);
}

/// A limit cuts a query's result to its first events, and to no fewer than there are.
pub proof fn law_limits_cut_the_end(q: TraceQuery, n: usize, events: Seq<EventView>)
    requires
        q.limit is None,
    ensures
        ({
            let all = q.result(events);
            let cut = (TraceQuery { limit: Some(n), ..q }).result(events);
            &&& cut.len() == if n < all.len() { n as nat } else { all.len() }
            &&& forall|i: int| 0 <= i < cut.len() ==> #[trigger] cut[i] == all[i]
        }),
{
    let p = TraceQuery { limit: Some(n), ..q };
    lemma_same_filters(p, q, events);
}

proof fn lemma_same_filters(p: TraceQuery, q: TraceQuery, events: Seq<EventView>)
    requires
        p == (TraceQuery { limit: p.limit, ..q }),
    ensures
        admitted(p, events) == admitted(q, events),
        timely(p, admitted(q, events)) == timely(q, admitted(q, events)),
    decreases events.len(),
{
    lemma_same_admitted(p, q, events);
    lemma_same_timely(p, q, admitted(q, events));
}

proof fn lemma_same_admitted(p: TraceQuery, q: TraceQuery, events: Seq<EventView>)
    requires
        p == (TraceQuery { limit: p.limit, ..q }),
    ensures
        admitted(p, events) == admitted(q, events),
    decreases events.len(),
{
    if events.len() > 0 {
        lemma_same_admitted(p, q, events.drop_last());
    }
}

proof fn lemma_same_timely(p: TraceQuery, q: TraceQuery, events: Seq<EventView>)
    requires
        p == (TraceQuery { limit: p.limit, ..q }),
    ensures
        timely(p, events) == timely(q, events),
    decreases events.len(),
{
    if events.len() > 0 {
        lemma_same_timely(p, q, events.drop_last());
    }
}

/// The events that touched a path are the recorded deltas that name it, in the order
/// of the ledger.
pub proof fn law_touching_deltas_are_listed(events: Seq<EventView>, path: Seq<char>, e: EventView)
    ensures
        modifying(Seq::empty(), path) == Seq::<EventView>::empty(),
        modifying(events.push(e), path) == if e.body.kind is StateDeltaRecorded && (delta_in(
            match member(e.body.payload, "delta"@) {
                Some(d) => d,
                None => e.body.payload,
            },
        ) matches Some(d) && d.touches(path)) {
            modifying(events, path).push(e)
        } else {
            modifying(events, path)
        },
{
    assert(events.push(e).drop_last() =~= events);
}

/// An event leads to an effect exactly if it names it, or an event that leads to it
/// cites it as a cause.
pub proof fn law_causes_are_followed_link_by_link(
    events: Seq<EventView>,
    effect: Seq<char>,
    i: int,
)
    requires
        0 <= i < events.len(),
    ensures
        leads(events, effect, i) <==> payload_text(events[i], "effect_id"@) == Some(effect)
            || exists|k: int|
            0 <= k < events.len() && (#[trigger] events[k]).body.caused_by.contains(
                events[i].body.seq,
            ) && leads(events, effect, k),
{
    if leads(events, effect, i) && payload_text(events[i], "effect_id"@) != Some(effect) {
        let n = choose|n: nat| #[trigger] leads_within(events, effect, i, n);
        let k = choose|k: int| #[trigger]
            cites_at(events, k, i) && leads_within(events, effect, k, (n - 1) as nat);
        assert(events[k].body.caused_by.contains(events[i].body.seq));
        assert(leads(events, effect, k));
    }
    if payload_text(events[i], "effect_id"@) == Some(effect) {
        assert(leads_within(events, effect, i, 0));
    }
    if exists|k: int|
        0 <= k < events.len() && (#[trigger] events[k]).body.caused_by.contains(
            events[i].body.seq,
        ) && leads(events, effect, k) {
        let k = choose|k: int|
            0 <= k < events.len() && (#[trigger] events[k]).body.caused_by.contains(
                events[i].body.seq,
            ) && leads(events, effect, k);
        let n = choose|n: nat| #[trigger] leads_within(events, effect, k, n);
        assert(cites_at(events, k, i));
        assert(leads_within(events, effect, i, n + 1));
    }
}

/// Nothing else leads to an effect: whatever holds of the events that name it, and of
/// every cause of an event that it holds of, holds of all that lead to it.
pub proof fn law_only_causes_lead_to_an_effect(
    events: Seq<EventView>,
    effect: Seq<char>,
    among: Set<int>,
    i: int,
)
    requires
        0 <= i < events.len(),
        forall|j: int|
            0 <= j < events.len() && payload_text(#[trigger] events[j], "effect_id"@) == Some(effect)
                ==> among.contains(j),
        forall|k: int, j: int|
            0 <= k < events.len() && 0 <= j < events.len() && among.contains(k)
                && #[trigger] events[k].body.caused_by.contains(#[trigger] events[j].body.seq)
                ==> among.contains(j),
        leads(events, effect, i),
    ensures
        among.contains(i),
{
    let n = choose|n: nat| #[trigger] leads_within(events, effect, i, n);
    lemma_led_within(events, effect, among, i, n);
}

proof fn lemma_led_within(
    events: Seq<EventView>,
    effect: Seq<char>,
    among: Set<int>,
    i: int,
    n: nat,
)
    requires
        0 <= i < events.len(),
        forall|j: int|
            0 <= j < events.len() && payload_text(#[trigger] events[j], "effect_id"@) == Some(effect)
                ==> among.contains(j),
        forall|k: int, j: int|
            0 <= k < events.len() && 0 <= j < events.len() && among.contains(k)
                && #[trigger] events[k].body.caused_by.contains(#[trigger] events[j].body.seq)
                ==> among.contains(j),
        leads_within(events, effect, i, n),
    ensures
        among.contains(i),
    decreases n,
{
    if payload_text(events[i], "effect_id"@) != Some(effect) {
        let k = choose|k: int| #[trigger]
            cites_at(events, k, i) && leads_within(events, effect, k, (n - 1) as nat);
        lemma_led_within(events, effect, among, k, (n - 1) as nat);
        assert(events[k].body.caused_by.contains(events[i].body.seq));
    }
}

/// The events that led to an effect are listed in the order of the ledger, all of
/// them and no other.
pub proof fn law_leading_events_are_all_listed(events: Seq<EventView>, effect: Seq<char>, n: nat)
    requires
        n < events.len(),
    ensures
        leading(events, effect, 0) == Seq::<EventView>::empty(),
        leading(events, effect, n + 1) == if leads(events, effect, n as int) {
            leading(events, effect, n).push(events[n as int])
        } else {
            leading(events, effect, n)
        },
{
}

/// A text of the payload is there exactly if the payload is an object that holds it
/// as a text.
pub proof fn law_payload_texts_are_members(e: EventView, key: Seq<char>, t: Seq<char>)
    ensures
        payload_text(e, key) == Some(t) <==> (e.body.payload matches Json::Object(m)
            && m.contains_key(key) && m[key] == Json::Text(t)),
{
}

/// Asked for the irreversible effects since a state, the ledger names all of them: an
/// event is listed exactly if it is a later commit of an effect that cannot be undone.
pub proof fn law_all_irreversible_effects_since_a_state(
    events: &Vec<LedgerEvent>,
    state: &str,
    r: Option<Vec<LedgerEvent>>,
    e: EventView,
)
    requires
        call_ensures(irreversible_effects_since, (events, state), r),
    ensures
        r is None <==> forall|j: int|
            0 <= j < events.deep_view().len() ==> !((
            #[trigger] events.deep_view()[j]).body.kind is StateDeltaRecorded && payload_text(
                events.deep_view()[j],
                "state_id"@,
            ) == Some(state@)),
        r matches Some(out) ==> exists|a: int|
            #![trigger events.deep_view()[a]]
            0 <= a < events.deep_view().len() && payload_text(
                events.deep_view()[a],
                "state_id"@,
            ) == Some(state@) && (out.deep_view().contains(e) <==> events.deep_view().contains(e)
                && e.body.seq > events.deep_view()[a].body.seq && e.body.kind is EffectCommitted && (
            payload_text(e, "class"@) == Some("irreversible"@) || payload_text(e, "class"@) == Some(
                "opaque_external"@,
            ))),
{
    let all = events.deep_view();
    law_states_are_found_where_they_were_recorded(all, state@, 0);
    if anchor_of(all, state@, 0) is Some {
        let a = anchor_of(all, state@, 0)->0;
        law_irreversible_commits_are_all_listed(all, all[a].body.seq, e);
        assert(all[a].body.kind is StateDeltaRecorded);
    }
}

} // verus!
