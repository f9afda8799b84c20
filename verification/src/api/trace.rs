//! Steps that only read the kernel's own records: trace queries and branch
//! diffs.
use vstd::prelude::*;
use vstd::utf8::encode_utf8;
use crate::action::Action;
use crate::api::kernel::{Kernel, same_but_ledger};
use crate::api::local::with_raw;
use crate::api::step::{NodePlan, StepTicket, begin_metadata_step, metadata_invocation, unchanged_from};
use crate::delta::{ChangeView, changes_json};
use crate::hash::{canonical, canonical_json, hash_text, quoted};
use crate::ids::{BranchId, EpisodeId, PrincipalId, StateId, StepId};
use crate::json::{
    Json, JsonMap, NumberView, Value, array, object2, opt_text_json, text_values, texts_json,
};
use crate::ledger::event::{EventKind, EventView, LedgerEvent};
use crate::ledger::query::{TraceQuery, admitted, text_filter, timely};
use crate::ledger::store::{grown, next_seq, room_for};
use crate::lines::{words, words_from};
use crate::observation::{Observation, ObservationView};
use crate::state::{FileChange, StateNode};
use crate::text;
use crate::time::Timestamp;

verus! {

/// The filters that a query text sets.
pub struct TraceFilter {
    pub kinds: Seq<EventKind>,
    pub limit: int,
    pub step: Option<Seq<char>>,
    pub branch: Option<Seq<char>>,
    pub principal: Option<Seq<char>>,
}

/// The filters of an empty query text.
pub open spec fn no_filter() -> TraceFilter {
    TraceFilter { kinds: Seq::empty(), limit: 200, step: None, branch: None, principal: None }
}

/// The value within the bounds.
pub open spec fn clamped(n: int, low: int, high: int) -> int {
    if n < low {
        low
    } else if n > high {
        high
    } else {
        n
    }
}

/// The filters after one more token. Unknown keys and malformed values change
/// nothing.
pub open spec fn refined(f: TraceFilter, token: Seq<char>) -> TraceFilter {
    let p = text::pos(token, '=');
    if p >= token.len() {
        f
    } else {
        let key = token.take(p);
        let value = token.skip(p + 1);
        if key == "kind"@ {
            match EventKind::named(value) {
                Some(k) => TraceFilter { kinds: f.kinds.push(k), ..f },
                None => f,
            }
        } else if key == "limit"@ {
            match text::natural(value) {
                Some(n) => if n <= usize::MAX {
                    TraceFilter { limit: clamped(n as int, 1, 1000), ..f }
                } else {
                    f
                },
                None => f,
            }
        } else if key == "step"@ {
            if "step-"@.is_prefix_of(value) {
                TraceFilter { step: Some(value), ..f }
            } else {
                f
            }
        } else if key == "branch"@ {
            if "br-"@.is_prefix_of(value) {
                TraceFilter { branch: Some(value), ..f }
            } else {
                f
            }
        } else if key == "principal"@ {
            if "pr-"@.is_prefix_of(value) {
                TraceFilter { principal: Some(value), ..f }
            } else {
                f
            }
        } else {
            f
        }
    }
}

/// The filters that the tokens set, in order.
pub open spec fn filters(tokens: Seq<Seq<char>>) -> TraceFilter
    decreases tokens.len(),
{
    if tokens.len() == 0 {
        no_filter()
    } else {
        refined(filters(tokens.drop_last()), tokens.last())
    }
}

/// The query applies exactly these filters, within the episode.
pub open spec fn applies(q: TraceQuery, episode: Seq<char>, f: TraceFilter) -> bool {
    &&& q.episode.deep_view() == Some(episode)
    &&& q.kinds@ == f.kinds
    &&& q.limit == Some(f.limit as usize)
    &&& 1 <= f.limit <= 1000
    &&& q.step.deep_view() == f.step
    &&& q.branch.deep_view() == f.branch
    &&& q.principal.deep_view() == f.principal
    &&& q.seq_range is None
    &&& q.time_range is None
}

/// The event is of the episode and passes the filters.
pub open spec fn passes(e: EventView, episode: Seq<char>, f: TraceFilter) -> bool {
    &&& e.body.episode == episode
    &&& text_filter(f.branch, e.body.branch)
    &&& text_filter(f.step, e.body.step)
    &&& text_filter(f.principal, Some(e.body.principal))
    &&& f.kinds.len() == 0 || f.kinds.contains(e.body.kind)
}

/// The events that pass, in order.
pub open spec fn passing(events: Seq<EventView>, episode: Seq<char>, f: TraceFilter) -> Seq<EventView>
    decreases events.len(),
{
    if events.len() == 0 {
        Seq::empty()
    } else {
        let rest = passing(events.drop_last(), episode, f);
        if passes(events.last(), episode, f) {
            rest.push(events.last())
        } else {
            rest
        }
    }
}

/// What a trace query finds: the first events that pass, as many as the limit
/// allows.
pub open spec fn traced(events: Seq<EventView>, episode: Seq<char>, f: TraceFilter) -> Seq<EventView> {
    let all = passing(events, episode, f);
    all.take(
        if all.len() < f.limit {
            all.len() as int
        } else {
            f.limit
        },
    )
}

proof fn lemma_passing(q: TraceQuery, events: Seq<EventView>, episode: Seq<char>, f: TraceFilter)
    requires
        applies(q, episode, f),
    ensures
        admitted(q, events) == passing(events, episode, f),
    decreases events.len(),
{
    if events.len() > 0 {
        lemma_passing(q, events.drop_last(), episode, f);
    }
}

proof fn lemma_untimed(q: TraceQuery, events: Seq<EventView>)
    requires
        q.time_range is None,
    ensures
        timely(q, events) == events,
    decreases events.len(),
{
    if events.len() > 0 {
        lemma_untimed(q, events.drop_last());
        assert(events.drop_last().push(events.last()) =~= events);
    }
}

/// A query that applies the filters finds what they let pass.
pub proof fn lemma_traced(
    q: TraceQuery,
    events: Seq<EventView>,
    episode: Seq<char>,
    f: TraceFilter,
)
    requires
        applies(q, episode, f),
    ensures
        q.result(events) == traced(events, episode, f),
{
    lemma_passing(q, events, episode, f);
    lemma_untimed(q, admitted(q, events));
    let all = passing(events, episode, f);
    assert(all.take(all.len() as int) =~= all);
}

fn refine(q: &mut TraceQuery, token: &Vec<char>, Ghost(episode): Ghost<Seq<char>>, Ghost(f): Ghost<TraceFilter>)
    requires
        applies(*old(q), episode, f),
    ensures
        applies(*final(q), episode, refined(f, token@)),
{
    let p = text::pos_from(token, '=', 0);
    proof {
        assert(token@.skip(0) =~= token@);
        text::lemma_pos_is_first(token@, '=');
    }
    if p >= token.len() {
        return;
    }
    let k = text::slice(token, 0, p);
    let v = text::slice(token, p + 1, token.len());
    proof {
        assert(k@ =~= token@.take(p as int));
        assert(v@ =~= token@.skip(p + 1));
    }
    let key = text::string_of(&k);
    let value = text::string_of(&v);
    if text::str_eq(key.as_str(), "kind") {
        if let Some(kind) = EventKind::parse(value.as_str()) {
            q.kinds.push(kind);
        }
    } else if text::str_eq(key.as_str(), "limit") {
        if let Some(n) = text::parse_natural(&v) {
            if n <= usize::MAX as u64 {
                let limit: usize = if n < 1 {
                    1
                } else if n > 1000 {
                    1000
                } else {
                    n as usize
                };
                q.limit = Some(limit);
            }
        }
    } else if text::str_eq(key.as_str(), "step") {
        if let Ok(id) = StepId::parse(value.as_str()) {
            q.step = Some(id);
        }
    } else if text::str_eq(key.as_str(), "branch") {
        if let Ok(id) = BranchId::parse(value.as_str()) {
            q.branch = Some(id);
        }
    } else if text::str_eq(key.as_str(), "principal") {
        if let Ok(id) = PrincipalId::parse(value.as_str()) {
            q.principal = Some(id);
        }
    }
}

/// Parse a trace query text: whitespace-separated `key=value` tokens (`kind=`,
/// `limit=`, `step=`, `branch=`, `principal=`). Unknown keys and malformed
/// values are ignored; the query always stays scoped to the step's episode and
/// capped at 1000 events (200 by default).
pub fn parse_trace_query(episode: EpisodeId, query: &str) -> (q: TraceQuery)
    ensures
        applies(q, episode@, filters(words_from(query@, 0))),
{
    let ghost ep = episode@;
    let mut q = TraceQuery {
        episode: Some(episode),
        branch: None,
        step: None,
        seq_range: None,
        principal: None,
        kinds: Vec::new(),
        time_range: None,
        limit: Some(200),
    };
    let chars = text::chars_of(query);
    let tokens = words(&chars);
    let ghost ts = tokens.deep_view();
    let mut i: usize = 0;
    proof {
        assert(ts.take(0) =~= Seq::<Seq<char>>::empty());
        assert(q.kinds@ =~= no_filter().kinds);
    }
    while i < tokens.len()
        invariant
            i <= tokens.len(),
            ts == tokens.deep_view(),
            applies(q, ep, filters(ts.take(i as int))),
        decreases tokens.len() - i,
    {
        proof {
            assert(ts.take(i + 1).drop_last() =~= ts.take(i as int));
            assert(ts.take(i + 1).last() == ts[i as int]);
            assert(tokens@[i as int].deep_view() == tokens@[i as int]@);
            assert(ts[i as int] == tokens@[i as int].deep_view());
        }
        refine(&mut q, &tokens[i], Ghost(ep), Ghost(filters(ts.take(i as int))));
        i = i + 1;
    }
    proof {
        assert(ts.take(ts.len() as int) =~= ts);
    }
    q
}

/// The names of kinds.
pub open spec fn kind_names(kinds: Seq<EventKind>) -> Seq<Seq<char>> {
    Seq::new(kinds.len(), |i: int| kinds[i].name())
}

/// Events in JSON.
pub open spec fn events_json(events: Seq<EventView>) -> Seq<Json> {
    Seq::new(events.len(), |i: int| events[i].json())
}

/// The raw output of a trace query.
pub open spec fn events_bytes(events: Seq<EventView>) -> Seq<u8> {
    encode_utf8(canonical(Json::Array(events_json(events))))
}

/// The filters as the agent is told that they were applied.
pub open spec fn applied_json(f: TraceFilter) -> Json {
    Json::Object(
        map![
            "kinds"@ => Json::Array(texts_json(kind_names(f.kinds))),
            "branch"@ => opt_text_json(f.branch),
            "step"@ => opt_text_json(f.step),
            "principal"@ => opt_text_json(f.principal),
            "limit"@ => Json::Number(NumberView::PosInt(f.limit as u64))
        ],
    )
}

/// What the agent sees of a trace query.
pub open spec fn trace_view(query: Seq<char>, f: TraceFilter, found: Seq<EventView>) -> ObservationView {
    ObservationView::Success {
        summary: "trace query `"@ + query + "` returned "@ + text::decimal(found.len())
            + " events"@,
        data: Some(
            Json::Object(
                map![
                    "count"@ => Json::Number(NumberView::PosInt(found.len() as u64)),
                    "applied"@ => applied_json(f)
                ],
            ),
        ),
        stdout_head: None,
        stdout_tail: None,
        exit_code: 0,
        full_output: hash_text(events_bytes(found)),
        truncated: false,
    }
}

fn event_values(events: &Vec<LedgerEvent>) -> (vs: Vec<Value>)
    ensures
        vs.deep_view() == events_json(events.deep_view()),
{
    let mut vs: Vec<Value> = Vec::new();
    let mut i: usize = 0;
    while i < events.len()
        invariant
            i <= events.len(),
            vs.len() == i,
            forall|j: int| 0 <= j < i ==> (#[trigger] vs@[j])@ == events@[j]@.json(),
        decreases events.len() - i,
    {
        vs.push(events[i].to_value());
        i = i + 1;
    }
    proof {
        assert(vs.deep_view() =~= events_json(events.deep_view()));
    }
    vs
}

fn write_applied(q: &TraceQuery, Ghost(episode): Ghost<Seq<char>>, Ghost(f): Ghost<TraceFilter>) -> (r:
    Value)
    requires
        applies(*q, episode, f),
    ensures
        r@ == applied_json(f),
{
    let mut names: Vec<String> = Vec::new();
    let mut i: usize = 0;
    while i < q.kinds.len()
        invariant
            i <= q.kinds.len(),
            names.len() == i,
            forall|j: int| 0 <= j < i ==> (#[trigger] names@[j])@ == q.kinds@[j].name(),
        decreases q.kinds.len() - i,
    {
        names.push(q.kinds[i].as_str().to_owned());
        i = i + 1;
    }
    proof {
        assert(names.deep_view() =~= kind_names(f.kinds));
    }
    let branch = match &q.branch {
        Some(b) => Value::text(b.as_str()),
        None => Value::Null,
    };
    let step = match &q.step {
        Some(s) => Value::text(s.as_str()),
        None => Value::Null,
    };
    let principal = match &q.principal {
        Some(p) => Value::text(p.as_str()),
        None => Value::Null,
    };
    let limit = match q.limit {
        Some(n) => Value::from_u64(n as u64),
        None => Value::Null,
    };
    let mut m = JsonMap::new();
    m.insert("kinds".to_owned(), array(text_values(&names)));
    m.insert("branch".to_owned(), branch);
    m.insert("step".to_owned(), step);
    m.insert("principal".to_owned(), principal);
    m.insert("limit".to_owned(), limit);
    Value::Object(m)
}

/// A file change as the raw store holds it.
pub open spec fn change_text(c: ChangeView) -> Seq<char> {
    match c {
        ChangeView::Added { path, blob, mode } => "{\"op\":\"added\",\"path\":"@ + quoted(path)
            + ",\"blob\":"@ + quoted(blob) + ",\"mode\":"@ + text::decimal(mode as nat) + "}"@,
        ChangeView::Modified { path, old_blob, new_blob } => {
            "{\"op\":\"modified\",\"path\":"@ + quoted(path) + ",\"old_blob\":"@ + quoted(old_blob)
                + ",\"new_blob\":"@ + quoted(new_blob) + "}"@
        },
        ChangeView::Deleted { path, old_blob } => "{\"op\":\"deleted\",\"path\":"@ + quoted(path)
            + ",\"old_blob\":"@ + quoted(old_blob) + "}"@,
    }
}

/// File changes as the raw store holds them.
pub open spec fn change_texts(changes: Seq<ChangeView>) -> Seq<Seq<char>> {
    Seq::new(changes.len(), |i: int| change_text(changes[i]))
}

/// The raw output of a branch diff.
pub open spec fn changes_bytes(changes: Seq<ChangeView>) -> Seq<u8> {
    encode_utf8("["@ + text::joined(change_texts(changes), ","@) + "]"@)
}

fn quote(s: &str) -> (r: String)
    ensures
        r@ == quoted(s@),
{
    canonical_json(&Value::text(s))
}

fn write_change(c: &FileChange) -> (r: String)
    ensures
        r@ == change_text(c@),
{
    match c {
        FileChange::Added { path, blob, mode } => {
            let p = quote(path.as_str());
            let b = quote(blob.as_str());
            let m = text::to_decimal(*mode as u64);
            text::cat7(
                "{\"op\":\"added\",\"path\":",
                p.as_str(),
                ",\"blob\":",
                b.as_str(),
                ",\"mode\":",
                m.as_str(),
                "}",
            )
        },
        FileChange::Modified { path, old_blob, new_blob } => {
            let p = quote(path.as_str());
            let o = quote(old_blob.as_str());
            let n = quote(new_blob.as_str());
            text::cat7(
                "{\"op\":\"modified\",\"path\":",
                p.as_str(),
                ",\"old_blob\":",
                o.as_str(),
                ",\"new_blob\":",
                n.as_str(),
                "}",
            )
        },
        FileChange::Deleted { path, old_blob } => {
            let p = quote(path.as_str());
            let o = quote(old_blob.as_str());
            text::cat5(
                "{\"op\":\"deleted\",\"path\":",
                p.as_str(),
                ",\"old_blob\":",
                o.as_str(),
                "}",
            )
        },
    }
}

/// What the agent sees of a branch diff.
pub open spec fn diff_view(since: Seq<char>, changes: Seq<ChangeView>) -> ObservationView {
    ObservationView::Success {
        summary: text::decimal(changes.len()) + " file(s) changed since "@ + since,
        data: Some(Json::Array(changes_json(changes))),
        stdout_head: None,
        stdout_tail: None,
        exit_code: 0,
        full_output: hash_text(changes_bytes(changes)),
        truncated: false,
    }
}

impl Kernel {
    /// Query the causal ledger.
    pub fn trace_query(&self, q: &TraceQuery) -> (r: Vec<LedgerEvent>)
        ensures
            r.deep_view() == q.result(self.ledger.events()),
    {
        self.ledger.query(q)
    }

    /// Run a trace query as a step: the full result goes to the raw store, the
    /// agent sees its size and the filters that were applied, and the step
    /// changes nothing.
    pub fn trace_step(
        &mut self,
        ticket: &StepTicket,
        action: &Action,
        query: &str,
        head: &StateNode,
        now: Timestamp,
    ) -> (r: (NodePlan, Observation))
        requires
            old(self).wf(),
            room_for(old(self).ledger.events(), 1),
        ensures
            final(self).wf(),
            same_but_ledger(*final(self), *old(self)),
            ({
                let f = filters(words_from(query@, 0));
                let found = traced(old(self).ledger.events(), ticket.writer.episode@, f);
                &&& r.1@ == trace_view(query@, f, found)
                &&& final(self).ledger.raw() == with_raw(
                    old(self).ledger.raw(),
                    events_bytes(found),
                )
            }),
            final(self).ledger.receipts() == old(self).ledger.receipts(),
            final(self).ledger.events() == grown(
                old(self).ledger.events(),
                ticket.writer@,
                EventKind::ToolInvocation,
                metadata_invocation(*action),
                Seq::empty(),
                now,
            ),
            unchanged_from(r.0, *head),
            r.0.cause == next_seq(old(self).ledger.events()),
    {
        let ghost f = filters(words_from(query@, 0));
        let q = parse_trace_query(ticket.writer.episode.clone(), query);
        let found = self.trace_query(&q);
        proof {
            lemma_traced(q, self.ledger.events(), ticket.writer.episode@, f);
        }
        let json = canonical_json(&array(event_values(&found)));
        let full_output = self.ledger.store_raw(json.as_str().as_bytes());
        let count = text::to_decimal(found.len() as u64);
        let applied = write_applied(&q, Ghost(ticket.writer.episode@), Ghost(f));
        let observation = Observation::Success {
            summary: text::cat5(
                "trace query `",
                query,
                "` returned ",
                count.as_str(),
                " events",
            ),
            data: Some(
                object2("count", Value::from_u64(found.len() as u64), "applied", applied),
            ),
            stdout_head: None,
            stdout_tail: None,
            exit_code: 0,
            full_output,
            truncated: false,
        };
        let plan = begin_metadata_step(&mut self.ledger, ticket, action, head, now);
        (plan, observation)
    }

    /// Answer a branch diff as a step: the full list goes to the raw store, and
    /// the step changes nothing.
    pub fn diff_step(
        &mut self,
        ticket: &StepTicket,
        action: &Action,
        since: &StateId,
        changes: &Vec<FileChange>,
        head: &StateNode,
        now: Timestamp,
    ) -> (r: (NodePlan, Observation))
        requires
            old(self).wf(),
            room_for(old(self).ledger.events(), 1),
        ensures
            final(self).wf(),
            same_but_ledger(*final(self), *old(self)),
            r.1@ == diff_view(since@, changes.deep_view()),
            final(self).ledger.raw() == with_raw(
                old(self).ledger.raw(),
                changes_bytes(changes.deep_view()),
            ),
            final(self).ledger.receipts() == old(self).ledger.receipts(),
            final(self).ledger.events() == grown(
                old(self).ledger.events(),
                ticket.writer@,
                EventKind::ToolInvocation,
                metadata_invocation(*action),
                Seq::empty(),
                now,
            ),
            unchanged_from(r.0, *head),
            r.0.cause == next_seq(old(self).ledger.events()),
    {
        let mut texts: Vec<String> = Vec::new();
        let mut values: Vec<Value> = Vec::new();
        let mut i: usize = 0;
        while i < changes.len()
            invariant
                i <= changes.len(),
                texts.len() == i,
                values.len() == i,
                forall|j: int| 0 <= j < i ==> (#[trigger] texts@[j])@ == change_text(changes@[j]@),
                forall|j: int| 0 <= j < i ==> (#[trigger] values@[j])@ == changes@[j]@.json(),
            decreases changes.len() - i,
        {
            texts.push(write_change(&changes[i]));
            values.push(changes[i].to_value());
            i = i + 1;
        }
        proof {
            assert(texts.deep_view() =~= change_texts(changes.deep_view()));
            assert(values.deep_view() =~= changes_json(changes.deep_view()));
        }
        let list = text::join(&texts, ",");
        let json = text::cat3("[", list.as_str(), "]");
        let full_output = self.ledger.store_raw(json.as_str().as_bytes());
        let count = text::to_decimal(changes.len() as u64);
        let observation = Observation::Success {
            summary: text::cat3(count.as_str(), " file(s) changed since ", since.as_str()),
            data: Some(array(values)),
            stdout_head: None,
            stdout_tail: None,
            exit_code: 0,
            full_output,
            truncated: false,
        };
        let plan = begin_metadata_step(&mut self.ledger, ticket, action, head, now);
        (plan, observation)
    }
}

/// A trace query never leaves its episode, and never returns more than a
/// thousand events.
pub proof fn law_trace_queries_stay_bounded(
    events: Seq<EventView>,
    episode: Seq<char>,
    tokens: Seq<Seq<char>>,
)
    ensures
        traced(events, episode, filters(tokens)).len() <= 1000,
        forall|i: int|
            0 <= i < traced(events, episode, filters(tokens)).len() ==> (#[trigger] traced(
                events,
                episode,
                filters(tokens),
            )[i]).body.episode == episode,
{
    let f = filters(tokens);
    lemma_limit(tokens);
    lemma_passing_episode(events, episode, f);
    assert forall|i: int| 0 <= i < traced(events, episode, f).len() implies (#[trigger] traced(
        events,
        episode,
        f,
    )[i]).body.episode == episode by {
        assert(traced(events, episode, f)[i] == passing(events, episode, f)[i]);
    }
}

proof fn lemma_limit(tokens: Seq<Seq<char>>)
    ensures
        1 <= filters(tokens).limit <= 1000,
    decreases tokens.len(),
{
    if tokens.len() > 0 {
        lemma_limit(tokens.drop_last());
    }
}

proof fn lemma_passing_episode(events: Seq<EventView>, episode: Seq<char>, f: TraceFilter)
    ensures
        forall|i: int|
            0 <= i < passing(events, episode, f).len() ==> (#[trigger] passing(
                events,
                episode,
                f,
            )[i]).body.episode == episode,
    decreases events.len(),
{
    if events.len() > 0 {
        lemma_passing_episode(events.drop_last(), episode, f);
    }
}

proof fn lemma_token(key: Seq<char>, value: Seq<char>)
    requires
        !key.contains('='),
    ensures
        ({
            let token = key + seq!['='] + value;
            &&& text::pos(token, '=') == key.len()
            &&& token.len() == key.len() + 1 + value.len()
            &&& token.take(key.len() as int) == key
            &&& token.skip(key.len() as int + 1) == value
        }),
{
    let token = key + seq!['='] + value;
    assert forall|j: int| 0 <= j < key.len() implies token[j] != '=' by {
        assert(token[j] == key[j]);
        assert(key.contains(key[j]));
    }
    assert(token[key.len() as int] == '=');
    text::lemma_pos(token, '=', key.len() as int);
    assert(token.take(key.len() as int) =~= key);
    assert(token.skip(key.len() as int + 1) =~= value);
}

/// Each token sets the filter that it names and leaves the others: kinds add up, a
/// limit is kept between one and a thousand, and an identifier counts only with its
/// prefix. Anything else changes nothing.
pub proof fn law_tokens_set_the_filter_they_name(f: TraceFilter, key: Seq<char>, value: Seq<char>)
    requires
        !key.contains('='),
    ensures
        ({
            let g = refined(f, key + seq!['='] + value);
            &&& g.kinds == if key == "kind"@ && EventKind::named(value) is Some {
                f.kinds.push(EventKind::named(value)->0)
            } else {
                f.kinds
            }
            &&& g.step == if key == "step"@ && "step-"@.is_prefix_of(value) {
                Some(value)
            } else {
                f.step
            }
            &&& g.branch == if key == "branch"@ && "br-"@.is_prefix_of(value) {
                Some(value)
            } else {
                f.branch
            }
            &&& g.principal == if key == "principal"@ && "pr-"@.is_prefix_of(value) {
                Some(value)
            } else {
                f.principal
            }
            &&& key != "limit"@ || text::natural(value) is None ==> g.limit == f.limit
            &&& key == "limit"@ && (text::natural(value) matches Some(n) && 1 <= n && n <= 1000)
                ==> g.limit == text::natural(value)->0
            &&& key == "limit"@ && text::natural(value) == Some(0nat) ==> g.limit == 1
            &&& key == "limit"@ && (text::natural(value) matches Some(n) && 1000 < n && n
                <= usize::MAX) ==> g.limit == 1000
            &&& key == "limit"@ && (text::natural(value) matches Some(n) && n > usize::MAX)
                ==> g.limit == f.limit
        }),
        refined(f, key) == f,
{
    lemma_token(key, value);
    assert forall|j: int| 0 <= j < key.len() implies key[j] != '=' by {
        assert(key.contains(key[j]));
    }
    text::lemma_pos(key, '=', key.len() as int);
    reveal_strlit("kind");
    reveal_strlit("limit");
    reveal_strlit("step");
    reveal_strlit("branch");
    reveal_strlit("principal");
    assert("kind"@.len() == 4 && "limit"@.len() == 5 && "step"@.len() == 4);
    assert("branch"@.len() == 6 && "principal"@.len() == 9);
    assert("kind"@[0] != "step"@[0]);
}

/// Without tokens nothing is filtered and two hundred events are given; tokens count
/// in their order.
pub proof fn law_tokens_count_in_order(tokens: Seq<Seq<char>>, token: Seq<char>)
    ensures
        filters(tokens.push(token)) == refined(filters(tokens), token),
        filters(Seq::empty()).kinds.len() == 0,
        filters(Seq::empty()).limit == 200,
        filters(Seq::empty()).step is None,
        filters(Seq::empty()).branch is None,
        filters(Seq::empty()).principal is None,
{
    assert(tokens.push(token).drop_last() =~= tokens);
}

/// An event passes exactly if it is of the episode and agrees with every filter that
/// is set; of the kinds one is enough.
pub proof fn law_events_pass_every_filter(e: EventView, episode: Seq<char>, f: TraceFilter)
    ensures
        passes(e, episode, f) <==> {
            &&& e.body.episode == episode
            &&& f.branch matches Some(b) ==> e.body.branch == Some(b)
            &&& f.step matches Some(s) ==> e.body.step == Some(s)
            &&& f.principal matches Some(p) ==> e.body.principal == p
            &&& f.kinds.len() > 0 ==> exists|i: int|
                0 <= i < f.kinds.len() && #[trigger] f.kinds[i] == e.body.kind
        },
{
    if f.kinds.contains(e.body.kind) {
        let i = f.kinds.index_of(e.body.kind);
        assert(f.kinds[i] == e.body.kind);
    }
}

/// The events that pass are all given, in their order; a limit cuts the end.
pub proof fn law_passing_events_are_all_given(
    events: Seq<EventView>,
    e: EventView,
    episode: Seq<char>,
    f: TraceFilter,
)
    requires
        0 <= f.limit,
    ensures
        passing(Seq::empty(), episode, f).len() == 0,
        passes(e, episode, f) ==> passing(events.push(e), episode, f) == passing(
            events,
            episode,
            f,
        ).push(e),
        !passes(e, episode, f) ==> passing(events.push(e), episode, f) == passing(
            events,
            episode,
            f,
        ),
        passing(events, episode, f).len() <= f.limit ==> traced(events, episode, f) == passing(
            events,
            episode,
            f,
        ),
        passing(events, episode, f).len() > f.limit ==> traced(events, episode, f).len() == f.limit,
        traced(events, episode, f).is_prefix_of(passing(events, episode, f)),
{
    assert(events.push(e).drop_last() =~= events);
    let all = passing(events, episode, f);
    assert(all.take(all.len() as int) =~= all);
    let t = traced(events, episode, f);
    assert(t =~= all.subrange(0, t.len() as int));
}

/// A query asks for the events of its episode alone, under exactly the filters that
/// were set.
pub proof fn law_queries_keep_to_their_episode(q: TraceQuery, episode: Seq<char>, f: TraceFilter)
    requires
        applies(q, episode, f),
    ensures
        q.episode.deep_view() == Some(episode),
        q.kinds@ == f.kinds,
        q.limit == Some(f.limit as usize),
        1 <= f.limit && f.limit <= 1000,
        q.step.deep_view() == f.step,
        q.branch.deep_view() == f.branch,
        q.principal.deep_view() == f.principal,
        q.seq_range is None && q.time_range is None,
{
}

/// What the agent sees of a query is how many events it found and under which
/// filters; the events themselves it finds by their hash.
pub proof fn law_queries_tell_what_was_applied(
    query: Seq<char>,
    f: TraceFilter,
    found: Seq<EventView>,
)
    ensures
        trace_view(query, f, found) matches ObservationView::Success {
            exit_code,
            data,
            full_output,
            truncated,
            ..
        } && exit_code == 0 && !truncated && full_output == hash_text(
            encode_utf8(canonical(Json::Array(events_json(found)))),
        ) && data == Some(
            Json::Object(
                map![
                    "count"@ => Json::Number(NumberView::PosInt(found.len() as u64)),
                    "applied"@ => applied_json(f)
                ],
            ),
        ),
        events_json(found).len() == found.len(),
        forall|i: int| 0 <= i < found.len() ==> #[trigger] events_json(found)[i] == found[i].json(),
{
}

/// What the agent sees of a diff is every change, in order.
pub proof fn law_diffs_show_every_change(since: Seq<char>, changes: Seq<ChangeView>)
    ensures
        diff_view(since, changes) matches ObservationView::Success {
            summary,
            exit_code,
            data,
            truncated,
            full_output,
            ..
        } && exit_code == 0 && !truncated && data == Some(Json::Array(changes_json(changes)))
            && summary == text::decimal(changes.len()) + " file(s) changed since "@ + since
            && full_output == hash_text(changes_bytes(changes)),
        changes_json(changes).len() == changes.len(),
        forall|i: int|
            0 <= i < changes.len() ==> #[trigger] changes_json(changes)[i] == changes[i].json(),
{
}

/// The raw output of a diff is its changes between brackets, with commas between them;
/// each names what was done, the path, and the blobs.
pub proof fn law_raw_diffs_hold_every_change(changes: Seq<ChangeView>, c: ChangeView)
    ensures
        changes_bytes(Seq::empty()) == encode_utf8("["@ + "]"@),
        changes_bytes(seq![c]) == encode_utf8("["@ + change_text(c) + "]"@),
        changes.len() > 0 ==> text::joined(change_texts(changes.push(c)), ","@) == text::joined(
            change_texts(changes),
            ","@,
        ) + ","@ + change_text(c),
        c matches ChangeView::Added { path, blob, mode } ==> change_text(c)
            == "{\"op\":\"added\",\"path\":"@ + quoted(path) + ",\"blob\":"@ + quoted(blob)
            + ",\"mode\":"@ + text::decimal(mode as nat) + "}"@,
        c matches ChangeView::Modified { path, old_blob, new_blob } ==> change_text(c)
            == "{\"op\":\"modified\",\"path\":"@ + quoted(path) + ",\"old_blob\":"@ + quoted(
            old_blob,
        ) + ",\"new_blob\":"@ + quoted(new_blob) + "}"@,
        c matches ChangeView::Deleted { path, old_blob } ==> change_text(c)
            == "{\"op\":\"deleted\",\"path\":"@ + quoted(path) + ",\"old_blob\":"@ + quoted(
            old_blob,
        ) + "}"@,
{
    assert("["@ + text::joined(change_texts(Seq::empty()), ","@) + "]"@ =~= "["@ + "]"@);
    assert(change_texts(seq![c]) =~= seq![change_text(c)]);
    assert(change_texts(changes.push(c)).drop_last() =~= change_texts(changes));
    assert(change_texts(changes.push(c)).last() == change_text(c));
}

/// The agent is told which filters were applied, each under its own name.
pub proof fn law_applied_filters_have_their_names(f: TraceFilter)
    ensures
        applied_json(f) matches Json::Object(m) && {
            &&& m.contains_key("kinds"@) && m["kinds"@] == Json::Array(
                texts_json(kind_names(f.kinds)),
            )
            &&& m.contains_key("branch"@) && m["branch"@] == opt_text_json(f.branch)
            &&& m.contains_key("step"@) && m["step"@] == opt_text_json(f.step)
            &&& m.contains_key("principal"@) && m["principal"@] == opt_text_json(f.principal)
            &&& m.contains_key("limit"@) && m["limit"@] == Json::Number(
                NumberView::PosInt(f.limit as u64),
            )
        },
        kind_names(f.kinds).len() == f.kinds.len(),
        forall|i: int|
            0 <= i < f.kinds.len() ==> #[trigger] kind_names(f.kinds)[i] == f.kinds[i].name(),
{
    reveal_strlit("kinds");
    reveal_strlit("branch");
    reveal_strlit("step");
    reveal_strlit("principal");
    reveal_strlit("limit");
    assert("kinds"@.len() == 5 && "branch"@.len() == 6 && "step"@.len() == 4);
    assert("principal"@.len() == 9 && "limit"@.len() == 5);
    assert("kinds"@[0] != "limit"@[0]);
}

} // verus!
