//! Ledger event types and the tamper-evident hash chain.
use vstd::prelude::*;
use crate::hash::{ContentHash, canonical_hash, hash_canonical};
use crate::ids::{BranchId, EpisodeId, PrincipalId, StepId};
use crate::json::{
    Json, JsonMap, Value, integer_json, integer_value, lemma_values_deep_view, opt_text_json,
};
use crate::text;
use crate::time::Timestamp;

verus! {

/// The kind of a causal-chain event. Ordered roughly along the causal path from
/// intent to effect.
#[derive(Debug, Clone, Copy, PartialEq, Eq, Hash, Structural)]
pub enum EventKind {
    /// The user/system objective that started the episode.
    Objective,
    /// A raw model response (payload typically references a raw blob).
    ModelResponse,
    /// The intent the agent declared before acting.
    DeclaredIntent,
    /// A request for capability (lease) grant or attenuation.
    CapabilityRequest,
    /// A policy engine allow/deny/escalate decision.
    PolicyDecision,
    /// A tool or MCP invocation.
    ToolInvocation,
    /// A raw OS-level observation (exec, open, connect, …).
    OsEvent,
    /// A state delta was recorded for a step. By convention the payload is
    /// `{"state_id": …, "delta": …}`.
    StateDeltaRecorded,
    /// A structured observation was emitted to the agent.
    ObservationEmitted,
    /// An external effect was proposed. Payload includes `"effect_id"`.
    EffectProposed,
    /// An external effect was prepared (previewed).
    EffectPrepared,
    /// An external effect was approved.
    EffectApproved,
    /// An external effect was committed. By convention the payload carries
    /// `"effect_id"`, `"receipt_id"` and `"class"`.
    EffectCommitted,
    /// An external effect was aborted.
    EffectAborted,
    /// A machine-readable denial was issued.
    DenialIssued,
}

impl EventKind {
    /// The kind's name on the wire.
    pub open spec fn name(self) -> Seq<char> {
        match self {
            EventKind::Objective => "objective"@,
            EventKind::ModelResponse => "model_response"@,
            EventKind::DeclaredIntent => "declared_intent"@,
            EventKind::CapabilityRequest => "capability_request"@,
            EventKind::PolicyDecision => "policy_decision"@,
            EventKind::ToolInvocation => "tool_invocation"@,
            EventKind::OsEvent => "os_event"@,
            EventKind::StateDeltaRecorded => "state_delta_recorded"@,
            EventKind::ObservationEmitted => "observation_emitted"@,
            EventKind::EffectProposed => "effect_proposed"@,
            EventKind::EffectPrepared => "effect_prepared"@,
            EventKind::EffectApproved => "effect_approved"@,
            EventKind::EffectCommitted => "effect_committed"@,
            EventKind::EffectAborted => "effect_aborted"@,
            EventKind::DenialIssued => "denial_issued"@,
        }
    }

    /// The kind's name on the wire.
    pub fn as_str(&self) -> (r: &'static str)
        ensures
            r@ == self.name(),
    {
        match self {
            EventKind::Objective => "objective",
            EventKind::ModelResponse => "model_response",
            EventKind::DeclaredIntent => "declared_intent",
            EventKind::CapabilityRequest => "capability_request",
            EventKind::PolicyDecision => "policy_decision",
            EventKind::ToolInvocation => "tool_invocation",
            EventKind::OsEvent => "os_event",
            EventKind::StateDeltaRecorded => "state_delta_recorded",
            EventKind::ObservationEmitted => "observation_emitted",
            EventKind::EffectProposed => "effect_proposed",
            EventKind::EffectPrepared => "effect_prepared",
            EventKind::EffectApproved => "effect_approved",
            EventKind::EffectCommitted => "effect_committed",
            EventKind::EffectAborted => "effect_aborted",
            EventKind::DenialIssued => "denial_issued",
        }
    }

    /// The kind of that name.
    pub open spec fn named(s: Seq<char>) -> Option<EventKind> {
        if s == "objective"@ {
            Some(EventKind::Objective)
        } else if s == "model_response"@ {
            Some(EventKind::ModelResponse)
        } else if s == "declared_intent"@ {
            Some(EventKind::DeclaredIntent)
        } else if s == "capability_request"@ {
            Some(EventKind::CapabilityRequest)
        } else if s == "policy_decision"@ {
            Some(EventKind::PolicyDecision)
        } else if s == "tool_invocation"@ {
            Some(EventKind::ToolInvocation)
        } else if s == "os_event"@ {
            Some(EventKind::OsEvent)
        } else if s == "state_delta_recorded"@ {
            Some(EventKind::StateDeltaRecorded)
        } else if s == "observation_emitted"@ {
            Some(EventKind::ObservationEmitted)
        } else if s == "effect_proposed"@ {
            Some(EventKind::EffectProposed)
        } else if s == "effect_prepared"@ {
            Some(EventKind::EffectPrepared)
        } else if s == "effect_approved"@ {
            Some(EventKind::EffectApproved)
        } else if s == "effect_committed"@ {
            Some(EventKind::EffectCommitted)
        } else if s == "effect_aborted"@ {
            Some(EventKind::EffectAborted)
        } else if s == "denial_issued"@ {
            Some(EventKind::DenialIssued)
        } else {
            None
        }
    }

    /// The kind of that name.
    pub fn parse(s: &str) -> (r: Option<EventKind>)
        ensures
            r == EventKind::named(s@),
    {
        if text::str_eq(s, "objective") {
            Some(EventKind::Objective)
        } else if text::str_eq(s, "model_response") {
            Some(EventKind::ModelResponse)
        } else if text::str_eq(s, "declared_intent") {
            Some(EventKind::DeclaredIntent)
        } else if text::str_eq(s, "capability_request") {
            Some(EventKind::CapabilityRequest)
        } else if text::str_eq(s, "policy_decision") {
            Some(EventKind::PolicyDecision)
        } else if text::str_eq(s, "tool_invocation") {
            Some(EventKind::ToolInvocation)
        } else if text::str_eq(s, "os_event") {
            Some(EventKind::OsEvent)
        } else if text::str_eq(s, "state_delta_recorded") {
            Some(EventKind::StateDeltaRecorded)
        } else if text::str_eq(s, "observation_emitted") {
            Some(EventKind::ObservationEmitted)
        } else if text::str_eq(s, "effect_proposed") {
            Some(EventKind::EffectProposed)
        } else if text::str_eq(s, "effect_prepared") {
            Some(EventKind::EffectPrepared)
        } else if text::str_eq(s, "effect_approved") {
            Some(EventKind::EffectApproved)
        } else if text::str_eq(s, "effect_committed") {
            Some(EventKind::EffectCommitted)
        } else if text::str_eq(s, "effect_aborted") {
            Some(EventKind::EffectAborted)
        } else if text::str_eq(s, "denial_issued") {
            Some(EventKind::DenialIssued)
        } else {
            None
        }
    }
}

/// Every kind is the one of its name.
pub proof fn law_kinds_are_found_by_name(k: EventKind)
    ensures
        EventKind::named(k.name()) == Some(k),
{
    reveal_strlit("objective");
    reveal_strlit("model_response");
    reveal_strlit("declared_intent");
    reveal_strlit("capability_request");
    reveal_strlit("policy_decision");
    reveal_strlit("tool_invocation");
    reveal_strlit("os_event");
    reveal_strlit("state_delta_recorded");
    reveal_strlit("observation_emitted");
    reveal_strlit("effect_proposed");
    reveal_strlit("effect_prepared");
    reveal_strlit("effect_approved");
    reveal_strlit("effect_committed");
    reveal_strlit("effect_aborted");
    reveal_strlit("denial_issued");
    assert("objective"@.len() == 9);
    assert("model_response"@.len() == 14);
    assert("declared_intent"@.len() == 15);
    assert("capability_request"@.len() == 18);
    assert("policy_decision"@.len() == 15);
    assert("tool_invocation"@.len() == 15);
    assert("os_event"@.len() == 8);
    assert("state_delta_recorded"@.len() == 20);
    assert("observation_emitted"@.len() == 19);
    assert("effect_proposed"@.len() == 15);
    assert("effect_prepared"@.len() == 15);
    assert("effect_approved"@.len() == 15);
    assert("effect_committed"@.len() == 16);
    assert("effect_aborted"@.len() == 14);
    assert("denial_issued"@.len() == 13);
    assert("model_response"@[0] == 'm');
    assert("effect_aborted"@[0] == 'e');
    assert("declared_intent"@[0] == 'd');
    assert("policy_decision"@[0] == 'p');
    assert("tool_invocation"@[0] == 't');
    assert("effect_proposed"@[0] == 'e' && "effect_proposed"@[7] == 'p' && "effect_proposed"@[9]
        == 'o');
    assert("effect_prepared"@[0] == 'e' && "effect_prepared"@[7] == 'p' && "effect_prepared"@[9]
        == 'e');
    assert("effect_approved"@[0] == 'e' && "effect_approved"@[7] == 'a');
}

/// An event to be appended: what happened, and whose doing it was.
#[derive(Debug)]
pub struct NewEvent {
    pub kind: EventKind,
    pub episode: EpisodeId,
    pub branch: Option<BranchId>,
    pub step: Option<StepId>,
    pub principal: PrincipalId,
    pub payload: Value,
    /// Sequence numbers of the events that caused this one.
    pub caused_by: Vec<i64>,
}

/// The hashed part of a ledger event.
#[derive(Debug)]
pub struct EventBody {
    pub seq: i64,
    pub kind: EventKind,
    pub episode: EpisodeId,
    pub branch: Option<BranchId>,
    pub step: Option<StepId>,
    pub principal: PrincipalId,
    pub timestamp: Timestamp,
    pub payload: Value,
    pub caused_by: Vec<i64>,
    /// The hash of the event before; `None` for the first.
    pub prev_event_hash: Option<ContentHash>,
}

/// What an [`EventBody`] says.
pub struct EventBodyView {
    pub seq: i64,
    pub kind: EventKind,
    pub episode: Seq<char>,
    pub branch: Option<Seq<char>>,
    pub step: Option<Seq<char>>,
    pub principal: Seq<char>,
    pub timestamp: Timestamp,
    pub payload: Json,
    pub caused_by: Seq<i64>,
    pub prev_event_hash: Option<Seq<char>>,
}

/// A persisted event: the body and its content hash.
#[derive(Debug)]
pub struct LedgerEvent {
    pub body: EventBody,
    pub event_hash: ContentHash,
}

/// What a [`LedgerEvent`] says.
pub struct EventView {
    pub body: EventBodyView,
    pub event_hash: Seq<char>,
}

/// Integers in JSON.
pub open spec fn integers_json(s: Seq<i64>) -> Seq<Json> {
    Seq::new(s.len(), |i: int| integer_json(s[i]))
}

impl EventBodyView {
    /// The body in JSON.
    pub open spec fn json(self) -> Json {
        Json::Object(
            map![
                "seq"@ => integer_json(self.seq),
                "kind"@ => Json::Text(self.kind.name()),
                "episode"@ => Json::Text(self.episode),
                "branch"@ => opt_text_json(self.branch),
                "step"@ => opt_text_json(self.step),
                "principal"@ => Json::Text(self.principal),
                "timestamp"@ => Json::Text(self.timestamp.wire_text()),
                "payload"@ => self.payload,
                "caused_by"@ => Json::Array(integers_json(self.caused_by)),
                "prev_event_hash"@ => opt_text_json(self.prev_event_hash)
            ],
        )
    }

    /// The body's content hash.
    pub open spec fn hash(self) -> Seq<char> {
        canonical_hash(self.json())
    }
}

impl EventBody {
    pub open spec fn view(&self) -> EventBodyView {
        EventBodyView {
            seq: self.seq,
            kind: self.kind,
            episode: self.episode@,
            branch: self.branch.deep_view(),
            step: self.step.deep_view(),
            principal: self.principal@,
            timestamp: self.timestamp,
            payload: self.payload@,
            caused_by: self.caused_by@,
            prev_event_hash: self.prev_event_hash.deep_view(),
        }
    }

    /// The body in JSON.
    pub fn to_value(&self) -> (r: Value)
        ensures
            r@ == self@.json(),
    {
        let branch = match &self.branch {
            Some(b) => Value::text(b.as_str()),
            None => Value::Null,
        };
        let step = match &self.step {
            Some(s) => Value::text(s.as_str()),
            None => Value::Null,
        };
        let prev = match &self.prev_event_hash {
            Some(h) => Value::text(h.as_str()),
            None => Value::Null,
        };
        let mut m = JsonMap::new();
        m.insert("seq".to_owned(), integer_value(self.seq));
        m.insert("kind".to_owned(), Value::text(self.kind.as_str()));
        m.insert("episode".to_owned(), Value::text(self.episode.as_str()));
        m.insert("branch".to_owned(), branch);
        m.insert("step".to_owned(), step);
        m.insert("principal".to_owned(), Value::text(self.principal.as_str()));
        m.insert("timestamp".to_owned(), Value::Text(self.timestamp.to_wire()));
        m.insert("payload".to_owned(), self.payload.clone());
        m.insert("caused_by".to_owned(), integers_value(&self.caused_by));
        m.insert("prev_event_hash".to_owned(), prev);
        Value::Object(m)
    }

    /// The body's content hash, over its canonical JSON.
    pub fn compute_hash(&self) -> (r: ContentHash)
        ensures
            r@ == self@.hash(),
    {
        hash_canonical(&self.to_value())
    }
}

impl Clone for EventBody {
    fn clone(&self) -> (r: Self)
        ensures
            r@ == self@,
    {
        let branch = match &self.branch {
            Some(b) => Some(b.clone()),
            None => None,
        };
        let step = match &self.step {
            Some(s) => Some(s.clone()),
            None => None,
        };
        let prev_event_hash = match &self.prev_event_hash {
            Some(h) => Some(h.clone()),
            None => None,
        };
        EventBody {
            seq: self.seq,
            kind: self.kind,
            episode: self.episode.clone(),
            branch,
            step,
            principal: self.principal.clone(),
            timestamp: self.timestamp,
            payload: self.payload.clone(),
            caused_by: clone_integers(&self.caused_by),
            prev_event_hash,
        }
    }
}

impl EventView {
    /// The event in JSON: the members of its body, and its hash.
    pub open spec fn json(self) -> Json {
        match self.body.json() {
            Json::Object(m) => Json::Object(m.insert("event_hash"@, Json::Text(self.event_hash))),
            other => other,
        }
    }
}

impl LedgerEvent {
    pub open spec fn view(&self) -> EventView {
        EventView { body: self.body@, event_hash: self.event_hash@ }
    }
}

impl LedgerEvent {
    /// The event in JSON: the members of its body, and its hash.
    pub fn to_value(&self) -> (r: Value)
        ensures
            r@ == self@.json(),
    {
        match self.body.to_value() {
            Value::Object(m) => {
                let mut m = m;
                m.insert("event_hash".to_owned(), Value::text(self.event_hash.as_str()));
                Value::Object(m)
            },
            other => other,
        }
    }
}

impl DeepView for LedgerEvent {
    type V = EventView;

    open spec fn deep_view(&self) -> EventView {
        self@
    }
}

impl Clone for LedgerEvent {
    fn clone(&self) -> (r: Self)
        ensures
            r@ == self@,
    {
        LedgerEvent { body: self.body.clone(), event_hash: self.event_hash.clone() }
    }
}

fn clone_integers(v: &Vec<i64>) -> (r: Vec<i64>)
    ensures
        r@ == v@,
{
    let mut out: Vec<i64> = Vec::new();
    let mut i: usize = 0;
    while i < v.len()
        invariant
            i <= v.len(),
            out@ == v@.take(i as int),
        decreases v.len() - i,
    {
        out.push(v[i]);
        proof {
            assert(v@.take(i + 1) =~= v@.take(i as int).push(v@[i as int]));
        }
        i = i + 1;
    }
    proof {
        assert(v@.take(v@.len() as int) =~= v@);
    }
    out
}

fn integers_value(v: &Vec<i64>) -> (r: Value)
    ensures
        r@ == Json::Array(integers_json(v@)),
{
    let mut vs: Vec<Value> = Vec::new();
    let mut i: usize = 0;
    proof {
        assert(vs.deep_view() =~= integers_json(v@).take(0));
    }
    while i < v.len()
        invariant
            i <= v.len(),
            vs.deep_view() == integers_json(v@).take(i as int),
        decreases v.len() - i,
    {
        let ghost before = vs.deep_view();
        vs.push(integer_value(v[i]));
        proof {
            assert(vs.deep_view() =~= before.push(integer_json(v@[i as int])));
            assert(integers_json(v@).take(i + 1) =~= integers_json(v@).take(i as int).push(
                integers_json(v@)[i as int],
            ));
        }
        i = i + 1;
    }
    proof {
        assert(integers_json(v@).take(v@.len() as int) =~= integers_json(v@));
        broadcast use lemma_values_deep_view;

        assert(crate::json::values_seq(vs@) == vs.deep_view());
    }
    Value::Array(vs)
}

/// The content hash covers the whole body: two bodies that differ in any field, but
/// for how their instants read on the wire, differ in what is hashed.
pub proof fn law_every_field_is_hashed(a: EventBodyView, b: EventBodyView)
    requires
        a.json() == b.json(),
    ensures
        a.seq == b.seq,
        a.kind == b.kind,
        a.episode == b.episode,
        a.branch == b.branch,
        a.step == b.step,
        a.principal == b.principal,
        a.timestamp.wire_text() == b.timestamp.wire_text(),
        a.payload == b.payload,
        a.caused_by == b.caused_by,
        a.prev_event_hash == b.prev_event_hash,
{
    reveal_strlit("seq");
    reveal_strlit("kind");
    reveal_strlit("episode");
    reveal_strlit("branch");
    reveal_strlit("step");
    reveal_strlit("principal");
    reveal_strlit("timestamp");
    reveal_strlit("payload");
    reveal_strlit("caused_by");
    reveal_strlit("prev_event_hash");
    assert("seq"@.len() == 3 && "kind"@.len() == 4 && "episode"@.len() == 7);
    assert("branch"@.len() == 6 && "step"@.len() == 4 && "principal"@.len() == 9);
    assert("timestamp"@.len() == 9 && "payload"@.len() == 7 && "caused_by"@.len() == 9);
    assert("prev_event_hash"@.len() == 15);
    assert("kind"@[0] != "step"@[0]);
    assert("episode"@[0] != "payload"@[0]);
    assert("principal"@[0] != "timestamp"@[0]);
    assert("principal"@[0] != "caused_by"@[0]);
    assert("timestamp"@[0] != "caused_by"@[0]);
    let m = a.json()->Object_0;
    let n = b.json()->Object_0;
    assert(m["seq"@] == integer_json(a.seq) && n["seq"@] == integer_json(b.seq));
    assert(m["kind"@] == Json::Text(a.kind.name()) && n["kind"@] == Json::Text(b.kind.name()));
    law_kinds_are_found_by_name(a.kind);
    law_kinds_are_found_by_name(b.kind);
    assert(m["episode"@] == Json::Text(a.episode) && n["episode"@] == Json::Text(b.episode));
    assert(m["branch"@] == opt_text_json(a.branch) && n["branch"@] == opt_text_json(b.branch));
    assert(m["step"@] == opt_text_json(a.step) && n["step"@] == opt_text_json(b.step));
    assert(m["principal"@] == Json::Text(a.principal) && n["principal"@] == Json::Text(
        b.principal,
    ));
    assert(m["timestamp"@] == Json::Text(a.timestamp.wire_text()) && n["timestamp"@] == Json::Text(
        b.timestamp.wire_text(),
    ));
    assert(m["payload"@] == a.payload && n["payload"@] == b.payload);
    assert(m["caused_by"@] == Json::Array(integers_json(a.caused_by)) && n["caused_by"@]
        == Json::Array(integers_json(b.caused_by)));
    assert(m["prev_event_hash"@] == opt_text_json(a.prev_event_hash) && n["prev_event_hash"@]
        == opt_text_json(b.prev_event_hash));
    let x = integers_json(a.caused_by);
    let y = integers_json(b.caused_by);
    assert(x == y);
    assert(a.caused_by.len() == x.len() && b.caused_by.len() == y.len());
    assert forall|i: int| 0 <= i < a.caused_by.len() implies a.caused_by[i] == b.caused_by[i] by {
        assert(x[i] == integer_json(a.caused_by[i]) && y[i] == integer_json(b.caused_by[i]));
    }
    assert(a.caused_by =~= b.caused_by);
}

/// In JSON every field of an event stands under its own name, its hash among them.
pub proof fn law_event_fields_have_their_names(e: EventView)
    ensures
        e.json() matches Json::Object(m) && {
            &&& m.contains_key("seq"@) && m["seq"@] == integer_json(e.body.seq)
            &&& m.contains_key("kind"@) && m["kind"@] == Json::Text(e.body.kind.name())
            &&& m.contains_key("episode"@) && m["episode"@] == Json::Text(e.body.episode)
            &&& m.contains_key("branch"@) && m["branch"@] == opt_text_json(e.body.branch)
            &&& m.contains_key("step"@) && m["step"@] == opt_text_json(e.body.step)
            &&& m.contains_key("principal"@) && m["principal"@] == Json::Text(e.body.principal)
            &&& m.contains_key("timestamp"@) && m["timestamp"@] == Json::Text(
                e.body.timestamp.wire_text(),
            )
            &&& m.contains_key("payload"@) && m["payload"@] == e.body.payload
            &&& m.contains_key("caused_by"@) && m["caused_by"@] == Json::Array(
                integers_json(e.body.caused_by),
            )
            &&& m.contains_key("prev_event_hash"@) && m["prev_event_hash"@] == opt_text_json(
                e.body.prev_event_hash,
            )
            &&& m.contains_key("event_hash"@) && m["event_hash"@] == Json::Text(e.event_hash)
        },
        integers_json(e.body.caused_by).len() == e.body.caused_by.len(),
        forall|i: int|
            0 <= i < e.body.caused_by.len() ==> #[trigger] integers_json(e.body.caused_by)[i]
                == integer_json(e.body.caused_by[i]),
        e.body.hash() == canonical_hash(e.body.json()),
{
    reveal_strlit("seq");
    reveal_strlit("kind");
    reveal_strlit("episode");
    reveal_strlit("branch");
    reveal_strlit("step");
    reveal_strlit("principal");
    reveal_strlit("timestamp");
    reveal_strlit("payload");
    reveal_strlit("caused_by");
    reveal_strlit("prev_event_hash");
    reveal_strlit("event_hash");
    assert("seq"@.len() == 3 && "kind"@.len() == 4 && "episode"@.len() == 7);
    assert("branch"@.len() == 6 && "step"@.len() == 4 && "principal"@.len() == 9);
    assert("timestamp"@.len() == 9 && "payload"@.len() == 7 && "caused_by"@.len() == 9);
    assert("prev_event_hash"@.len() == 15 && "event_hash"@.len() == 10);
    assert("kind"@[0] == 'k' && "step"@[0] == 's');
    assert("episode"@[0] == 'e' && "payload"@[0] == 'p');
    assert("principal"@[0] == 'p' && "timestamp"@[0] == 't' && "caused_by"@[0] == 'c');
}

/// Each kind has its name on the wire.
pub proof fn law_kinds_have_their_names(k: EventKind)
    ensures
        k is Objective ==> k.name() == "objective"@,
        k is ModelResponse ==> k.name() == "model_response"@,
        k is DeclaredIntent ==> k.name() == "declared_intent"@,
        k is CapabilityRequest ==> k.name() == "capability_request"@,
        k is PolicyDecision ==> k.name() == "policy_decision"@,
        k is ToolInvocation ==> k.name() == "tool_invocation"@,
        k is OsEvent ==> k.name() == "os_event"@,
        k is StateDeltaRecorded ==> k.name() == "state_delta_recorded"@,
        k is ObservationEmitted ==> k.name() == "observation_emitted"@,
        k is EffectProposed ==> k.name() == "effect_proposed"@,
        k is EffectPrepared ==> k.name() == "effect_prepared"@,
        k is EffectApproved ==> k.name() == "effect_approved"@,
        k is EffectCommitted ==> k.name() == "effect_committed"@,
        k is EffectAborted ==> k.name() == "effect_aborted"@,
        k is DenialIssued ==> k.name() == "denial_issued"@,
{
}

/// A name that is found is the name of what it finds: no other text names a kind.
pub proof fn law_only_names_are_found(s: Seq<char>)
    ensures
        EventKind::named(s) matches Some(k) ==> k.name() == s,
{
}

} // verus!
