//! Steps through a connector: the host that a URL names, the contract that an
//! operation becomes, and what the agent sees of a read.
use vstd::prelude::*;
use vstd::utf8::encode_utf8;
use crate::action::Action;
use crate::api::branch::Branch;
use crate::api::denials::offering;
use crate::api::kernel::{Kernel, same_but_broker_and_ledger, same_but_ledger};
use crate::api::local::with_raw;
use crate::api::step::{NodePlan, StepTicket};
use crate::broker::effects::{duplicate_error, effect_id_taken, unknown_connector};
use crate::broker::model::route;
use crate::bytes;
use crate::capability::Operation;
use crate::delta::DeltaView;
use crate::denial::{Denial, DenialCode, DenialView, RequestableScope, ScopeView, bare_denial};
use crate::effect::{ContractView, EffectClass, EffectContract, EffectView, PhaseView};
use crate::error::{KernelError, KernelResult};
use crate::glob::{glob_match, globs};
use crate::hash::hash_text;
use crate::ids::{EffectId, generated};
use crate::json::{Json, JsonMap, Value, member, object1, object3, text_of};
use crate::layout::{laid_out, pretty_json};
use crate::ledger::event::EventKind;
use crate::ledger::store::{grown, next_seq, room_for};
use crate::observation::{Observation, ObservationView, distill_output, head_text, tail_text};
use crate::state::{StateDelta, StateNode};
use crate::text;
use crate::time::Timestamp;

verus! {

/// What follows the scheme of a URL, up to the next scheme separator if there
/// is one.
pub open spec fn after_scheme(url: Seq<char>) -> Option<Seq<char>> {
    match text::index_from(url, "://"@, 0) {
        None => None,
        Some(k) => {
            let rest = url.skip(k + 3);
            match text::index_from(rest, "://"@, 0) {
                Some(j) => Some(rest.take(j)),
                None => Some(rest),
            }
        },
    }
}

/// Where the authority of a URL ends: before a path, a query or a fragment.
pub open spec fn authority_end(s: Seq<char>, i: int) -> int
    decreases s.len() - i,
{
    if i >= s.len() || s[i] == '/' || s[i] == '?' || s[i] == '#' {
        i
    } else {
        authority_end(s, i + 1)
    }
}

/// Where the host starts: behind the last `@` among the first `k` characters.
pub open spec fn host_start(s: Seq<char>, k: int) -> int
    decreases k,
{
    if k <= 0 {
        0
    } else if s[k - 1] == '@' {
        k
    } else {
        host_start(s, k - 1)
    }
}

/// The host without its port: bracketed up to the closing bracket, else up to a
/// colon.
pub open spec fn without_port(host: Seq<char>) -> Seq<char> {
    if host.len() > 0 && host[0] == '[' {
        let k = text::pos(host, ']');
        host.take(if k < host.len() { k + 1 } else { k })
    } else {
        host.take(text::pos(host, ':'))
    }
}

/// The host that a URL names, in lower case.
pub open spec fn host(url: Seq<char>) -> Option<Seq<char>> {
    match after_scheme(url) {
        None => None,
        Some(rest) => {
            let authority = rest.take(authority_end(rest, 0));
            let h = without_port(authority.skip(host_start(authority, authority.len() as int)));
            if h.len() == 0 {
                None
            } else {
                Some(text::ascii_lower(h))
            }
        },
    }
}

proof fn lemma_host_start(s: Seq<char>, k: int)
    requires
        0 <= k <= s.len(),
    ensures
        0 <= host_start(s, k) <= k,
    decreases k,
{
    if k > 0 && s[k - 1] != '@' {
        lemma_host_start(s, k - 1);
    }
}

/// Extract the host from an http(s) URL. Ports and userinfo are stripped;
/// bracketed IPv6 hosts keep their brackets (they never match domain globs,
/// which is correct: literal IPs are refused by the connector guards anyway).
pub fn host_of(url: &str) -> (r: Option<String>)
    ensures
        r.deep_view() == host(url@),
{
    let chars = text::chars_of(url);
    let mark = text::chars_of("://");
    proof {
        reveal_strlit("://");
    }
    let start: usize = match text::index_of(&chars, &mark, 0) {
        Some(k) => k + 3,
        None => {
            return None;
        },
    };
    let rest = text::slice(&chars, start, chars.len());
    proof {
        assert(rest@ =~= url@.skip(start as int));
    }
    let rest = match text::index_of(&rest, &mark, 0) {
        Some(j) => {
            let cut = text::slice(&rest, 0, j);
            proof {
                assert(cut@ =~= rest@.take(j as int));
            }
            cut
        },
        None => rest,
    };
    let mut e: usize = 0;
    while e < rest.len() && rest[e] != '/' && rest[e] != '?' && rest[e] != '#'
        invariant
            e <= rest.len(),
            authority_end(rest@, 0) == authority_end(rest@, e as int),
        decreases rest.len() - e,
    {
        e = e + 1;
    }
    let authority = text::slice(&rest, 0, e);
    proof {
        assert(authority@ =~= rest@.take(authority_end(rest@, 0)));
    }
    let mut b: usize = authority.len();
    while b > 0 && authority[b - 1] != '@'
        invariant
            b <= authority.len(),
            host_start(authority@, authority@.len() as int) == host_start(authority@, b as int),
        decreases b,
    {
        b = b - 1;
    }
    let h = text::slice(&authority, b, authority.len());
    proof {
        assert(h@ =~= authority@.skip(b as int));
    }
    let bracketed = h.len() > 0 && h[0] == '[';
    let close: usize = text::pos_from(
        &h,
        if bracketed {
            ']'
        } else {
            ':'
        },
        0,
    );
    proof {
        assert(h@.skip(0) =~= h@);
        text::lemma_pos_is_first(h@, ']');
        text::lemma_pos_is_first(h@, ':');
    }
    let end: usize = if bracketed && close < h.len() {
        close + 1
    } else {
        close
    };
    let bare = text::slice(&h, 0, end);
    proof {
        assert(bare@ =~= without_port(h@));
    }
    if bare.len() == 0 {
        return None;
    }
    let t = text::string_of(&bare);
    Some(text::to_ascii_lower(t.as_str()))
}

/// The bytes of a read response.
pub open spec fn response_bytes(response: Json) -> Seq<u8> {
    match response_body(response) {
        Some(body) => encode_utf8(body),
        None => encode_utf8(laid_out(response, "\n"@)),
    }
}

/// The body of an HTTP-shaped response.
pub open spec fn response_body(response: Json) -> Option<Seq<char>> {
    match member(response, "body"@) {
        Some(v) => text_of(v),
        None => None,
    }
}

/// The metadata of an HTTP-shaped response.
pub open spec fn response_data(response: Json) -> Option<Json> {
    match response {
        Json::Object(m) => if response_body(response) is Some {
            Some(Json::Object(m.remove("body"@)))
        } else {
            None
        },
        _ => None,
    }
}

/// What an optional value says.
pub open spec fn optional(v: Option<Value>) -> Option<Json> {
    match v {
        Some(x) => Some(x@),
        None => None,
    }
}

/// Split a connector read response into raw bytes for the raw store and a small
/// structured `data` payload. HTTP-shaped responses (`{body, ...}`) keep their
/// metadata in `data` and their body in the raw stream; anything else is stored
/// as pretty JSON with no separate metadata.
pub fn shape_read_response(response: &Value) -> (r: (Vec<u8>, Option<Value>))
    ensures
        r.0@ == response_bytes(response@),
        optional(r.1) == response_data(response@),
{
    if let Value::Object(obj) = response {
        if let Some(value) = obj.get("body") {
            if let Some(body) = value.as_str() {
                let mut meta = obj.clone();
                meta.remove("body");
                return (bytes::copy(body.as_bytes()), Some(Value::Object(meta)));
            }
        }
    }
    let pretty = pretty_json(response);
    (bytes::copy(pretty.as_str().as_bytes()), None)
}

/// The resource that an operation names: the given one, else the repository of
/// its parameters, else the connector.
pub open spec fn resource(connector: Seq<char>, params: Json) -> Seq<char> {
    match text_member(params, "resource"@) {
        Some(r) => r,
        None => match (text_member(params, "owner"@), text_member(params, "repo"@)) {
            (Some(o), Some(r)) => o + "/"@ + r,
            _ => connector,
        },
    }
}

/// The text under a key.
pub open spec fn text_member(j: Json, key: Seq<char>) -> Option<Seq<char>> {
    match member(j, key) {
        Some(v) => text_of(v),
        None => None,
    }
}

fn text_at<'a>(v: &'a Value, key: &str) -> (r: Option<&'a str>)
    ensures
        r is Some <==> text_member(v@, key@) is Some,
        r matches Some(t) ==> text_member(v@, key@) == Some(t@),
{
    match v.get(key) {
        Some(x) => x.as_str(),
        None => None,
    }
}

/// The resource that an operation names.
pub fn resource_of(connector: &str, params: &Value) -> (r: String)
    ensures
        r@ == resource(connector@, params@),
{
    if let Some(r) = text_at(params, "resource") {
        return r.to_owned();
    }
    match (text_at(params, "owner"), text_at(params, "repo")) {
        (Some(o), Some(r)) => text::cat3(o, "/", r),
        _ => connector.to_owned(),
    }
}

/// The arguments of an operation: its parameters without what the contract
/// holds beside them.
pub open spec fn arguments(params: Json) -> Json {
    match params {
        Json::Object(m) => Json::Object(m.remove("resource"@).remove("preconditions"@)),
        other => other,
    }
}

/// The arguments of an operation.
pub fn arguments_of(params: &Value) -> (r: Value)
    ensures
        r@ == arguments(params@),
{
    match params {
        Value::Object(m) => {
            let mut m = m.clone();
            m.remove("resource");
            m.remove("preconditions");
            Value::Object(m)
        },
        other => other.clone(),
    }
}

/// The preconditions of an operation; none when its parameters state none.
pub open spec fn preconditions(params: Json) -> Json {
    match member(params, "preconditions"@) {
        Some(p) => p,
        None => Json::Object(Map::empty()),
    }
}

/// The contract that an operation becomes. `arguments` is what the connector
/// makes of [`arguments_of`] the parameters, and `class` how it classifies them.
pub fn connector_contract(
    ticket: &StepTicket,
    connector: &str,
    op: &str,
    params: &Value,
    arguments: Value,
    class: EffectClass,
) -> (r: EffectContract)
    ensures
        r@ == (ContractView {
            operation: connector@ + "."@ + op@,
            resource: resource(connector@, params@),
            arguments: arguments@,
            preconditions: preconditions(params@),
            idempotency_key: ticket.writer.episode@ + "-"@ + ticket.step@,
            class,
        }),
{
    let preconditions = match params.get("preconditions") {
        Some(p) => p.clone(),
        None => Value::Object(JsonMap::new()),
    };
    EffectContract {
        operation: text::cat3(connector, ".", op),
        resource: resource_of(connector, params),
        arguments,
        preconditions,
        idempotency_key: text::cat3(
            ticket.writer.episode.as_str(),
            "-",
            ticket.step.as_str(),
        ),
        class,
    }
}

/// The effect that a step proposes.
pub open spec fn proposal(
    id: Seq<char>,
    contract: ContractView,
    ticket: StepTicket,
    branch: Branch,
    action: Action,
    now: Timestamp,
) -> EffectView {
    EffectView {
        id,
        contract,
        contract_hash: contract.hash(),
        proposer: ticket.writer.principal@,
        branch: branch.id@,
        step: ticket.step@,
        lease: action.lease@,
        phase: PhaseView::Proposed,
        proposed_at: now,
    }
}

/// A delta that changes no file.
pub open spec fn fileless(
    policy_epoch: u64,
    tool_sessions: Seq<Seq<char>>,
    effects_proposed: Seq<Seq<char>>,
) -> DeltaView {
    DeltaView {
        files: Seq::empty(),
        processes_started: Seq::empty(),
        processes_exited: Seq::empty(),
        tool_sessions,
        policy_epoch,
        effects_proposed,
        effects_committed: Seq::empty(),
    }
}

/// The state follows the head, with the given delta.
pub open spec fn follows(p: NodePlan, head: StateNode, delta: DeltaView, cause: int) -> bool {
    &&& p.delta@ == delta
    &&& p.workspace_root == head.workspace_root
    &&& p.replay_class == head.replay_class
    &&& p.cause == cause
}

/// What the ledger records of a proposal.
pub open spec fn proposed_json(e: EffectView) -> Json {
    Json::Object(
        map![
            "effect_id"@ => Json::Text(e.id),
            "contract_hash"@ => Json::Text(e.contract_hash),
            "class"@ => Json::Text(e.contract.class.spec_wire())
        ],
    )
}

/// The contract of a read on the observation plane.
pub fn read_contract(ticket: &StepTicket, full_op: &str, resource: &str, arguments: Value) -> (r:
    EffectContract)
    ensures
        r@ == (ContractView {
            operation: full_op@,
            resource: resource@,
            arguments: arguments@,
            preconditions: Json::Object(Map::empty()),
            idempotency_key: ticket.writer.episode@ + "-"@ + ticket.step@ + "-read"@,
            class: EffectClass::Pure,
        }),
{
    EffectContract {
        operation: full_op.to_owned(),
        resource: resource.to_owned(),
        arguments,
        preconditions: Value::Object(JsonMap::new()),
        idempotency_key: text::cat4(
            ticket.writer.episode.as_str(),
            "-",
            ticket.step.as_str(),
            "-read",
        ),
        class: EffectClass::Pure,
    }
}

/// The raw output of a read: the response, or the error message.
pub open spec fn read_bytes(outcome: KernelResult<Value>) -> Seq<u8> {
    match outcome {
        Ok(response) => response_bytes(response@),
        Err(e) => encode_utf8(e.spec_message()),
    }
}

/// What the agent sees of a read. Network and tool failures are normal
/// agent-visible outcomes, not kernel errors.
pub open spec fn read_view(full_op: Seq<char>, outcome: KernelResult<Value>, elapsed_ms: u64) -> ObservationView {
    let raw = read_bytes(outcome);
    match outcome {
        Ok(response) => ObservationView::Success {
            summary: full_op + " returned "@ + text::decimal(raw.len()) + " bytes in "@
                + text::decimal(elapsed_ms as nat) + " ms"@,
            data: response_data(response@),
            stdout_head: head_text(raw, 2048),
            stdout_tail: tail_text(raw, 2048, 1024),
            exit_code: 0,
            full_output: hash_text(raw),
            truncated: raw.len() > 2048,
        },
        Err(e) => ObservationView::Failure {
            summary: full_op + " failed"@,
            exit_code: 1,
            first_causal_failure: Some(first_chars(e.spec_message(), 400)),
            output_tail: None,
            full_output: hash_text(raw),
        },
    }
}

/// The first `n` characters.
pub open spec fn first_chars(s: Seq<char>, n: int) -> Seq<char> {
    s.take(
        if s.len() < n {
            s.len() as int
        } else {
            n
        },
    )
}

fn take_chars(s: &str, n: usize) -> (r: String)
    ensures
        r@ == first_chars(s@, n as int),
{
    let chars = text::chars_of(s);
    let end: usize = if chars.len() < n {
        chars.len()
    } else {
        n
    };
    let cut = text::slice(&chars, 0, end);
    proof {
        assert(cut@ =~= first_chars(s@, n as int));
    }
    text::string_of(&cut)
}

impl Kernel {
    /// Propose the effect of a connector operation: it never executes inline.
    /// The proposal is recorded, and the state that the step appends names it.
    pub fn propose_connector_op(
        &mut self,
        ticket: &StepTicket,
        branch: &Branch,
        action: &Action,
        contract: EffectContract,
        head: &StateNode,
        now: Timestamp,
    ) -> (r: KernelResult<(NodePlan, Observation)>)
        requires
            old(self).wf(),
            room_for(old(self).ledger.events(), 2),
        ensures
            final(self).wf(),
            same_but_broker_and_ledger(*final(self), *old(self)),
            final(self).broker.spec_signer() == old(self).broker.spec_signer(),
            final(self).ledger.raw() == old(self).ledger.raw(),
            final(self).ledger.receipts() == old(self).ledger.receipts(),
            match r {
                Ok((plan, observation)) => {
                    &&& old(self).broker@.connectors.contains(route(contract@.operation))
                    &&& !old(self).broker@.has_receipt(contract@.idempotency_key)
                    &&& observation@ matches ObservationView::EffectPending {
                        effect,
                        contract_hash,
                        class,
                    } && {
                        let e = proposal(effect, contract@, *ticket, *branch, *action, now);
                        let called = grown(
                            old(self).ledger.events(),
                            ticket.writer@,
                            EventKind::ToolInvocation,
                            Json::Object(action.spec_invocation()),
                            Seq::empty(),
                            now,
                        );
                        &&& generated(effect, "fx-"@)
                        &&& contract_hash == contract@.hash()
                        &&& class == contract@.class
                        &&& final(self).broker@ == old(self).broker@.proposed(e)
                        &&& final(self).ledger.events() == grown(
                            called,
                            ticket.writer@,
                            EventKind::EffectProposed,
                            proposed_json(e),
                            seq![next_seq(old(self).ledger.events()) as i64],
                            now,
                        )
                        &&& follows(
                            plan,
                            *head,
                            fileless(head.delta.policy_epoch, Seq::empty(), seq![effect]),
                            next_seq(called),
                        )
                    }
                },
                Err(e) => {
                    &&& final(self).broker@ == old(self).broker@
                    &&& final(self).ledger == old(self).ledger
                    &&& if !old(self).broker@.connectors.contains(route(contract@.operation)) {
                        unknown_connector(e, contract@.operation)
                    } else if old(self).broker@.has_receipt(contract@.idempotency_key) {
                        duplicate_error(e, old(self).broker@, contract@.idempotency_key)
                    } else {
                        e is Storage && effect_id_taken(old(self).broker@)
                    }
                },
            },
    {
        let effect = match self.broker.propose(
            contract,
            ticket.writer.principal.clone(),
            branch.id.clone(),
            ticket.step.clone(),
            action.lease.clone(),
            now,
        ) {
            Ok(e) => e,
            Err(e) => {
                return Err(e);
            },
        };
        let ghost ev = self.ledger.events();
        let tool = ticket.writer.record(
            &mut self.ledger,
            EventKind::ToolInvocation,
            Value::Object(action.invocation()),
            now,
        );
        let payload = object3(
            "effect_id",
            Value::text(effect.id.as_str()),
            "contract_hash",
            Value::text(effect.contract_hash.as_str()),
            "class",
            Value::text(effect.contract.class.wire()),
        );
        let mut causes: Vec<i64> = Vec::new();
        causes.push(tool.body.seq);
        proof {
            assert(causes@ =~= seq![next_seq(ev) as i64]);
        }
        let proposed = ticket.writer.record_caused_by(
            &mut self.ledger,
            EventKind::EffectProposed,
            payload,
            causes,
            now,
        );
        let mut effects_proposed: Vec<EffectId> = Vec::new();
        effects_proposed.push(effect.id.clone());
        let delta = StateDelta {
            files: Vec::new(),
            processes_started: Vec::new(),
            processes_exited: Vec::new(),
            tool_sessions: Vec::new(),
            policy_epoch: head.delta.policy_epoch,
            effects_proposed,
            effects_committed: Vec::new(),
        };
        proof {
            assert(delta@ =~= fileless(
                head.delta.policy_epoch,
                Seq::empty(),
                seq![effect@.id],
            ));
        }
        let plan = NodePlan {
            delta,
            workspace_root: head.workspace_root.clone(),
            replay_class: head.replay_class,
            cause: proposed.body.seq,
        };
        let observation = Observation::EffectPending {
            effect: effect.id.clone(),
            contract_hash: effect.contract_hash.clone(),
            class: effect.contract.class,
        };
        Ok((plan, observation))
    }

    /// Record the invocation of an inline read: the operation was classified
    /// `Pure` for these exact arguments, so it needs no proposal, no approval
    /// and no receipt. Returns the event that the transition cites.
    pub fn begin_read(&mut self, ticket: &StepTicket, action: &Action, now: Timestamp) -> (cause: i64)
        requires
            old(self).wf(),
            room_for(old(self).ledger.events(), 1),
        ensures
            final(self).wf(),
            same_but_ledger(*final(self), *old(self)),
            cause == next_seq(old(self).ledger.events()),
            final(self).ledger.events() == grown(
                old(self).ledger.events(),
                ticket.writer@,
                EventKind::ToolInvocation,
                Json::Object(
                    action.spec_invocation().insert("plane"@, Json::Text("observation"@)),
                ),
                Seq::empty(),
                now,
            ),
            final(self).ledger.raw() == old(self).ledger.raw(),
            final(self).ledger.receipts() == old(self).ledger.receipts(),
    {
        let mut m = action.invocation();
        m.insert("plane".to_owned(), Value::text("observation"));
        let tool = ticket.writer.record(
            &mut self.ledger,
            EventKind::ToolInvocation,
            Value::Object(m),
            now,
        );
        tool.body.seq
    }

    /// What the agent sees of an inline read. The full response goes to the raw
    /// store; the observation carries head, tail and metadata.
    pub fn observe_read(
        &mut self,
        full_op: &str,
        outcome: KernelResult<Value>,
        elapsed_ms: u64,
        head: &StateNode,
        cause: i64,
    ) -> (r: (NodePlan, Observation))
        requires
            old(self).wf(),
        ensures
            final(self).wf(),
            same_but_ledger(*final(self), *old(self)),
            final(self).ledger.events() == old(self).ledger.events(),
            final(self).ledger.receipts() == old(self).ledger.receipts(),
            final(self).ledger.raw() == with_raw(old(self).ledger.raw(), read_bytes(outcome)),
            r.1@ == read_view(full_op@, outcome, elapsed_ms),
            follows(
                r.0,
                *head,
                fileless(head.delta.policy_epoch, seq![full_op@], Seq::empty()),
                cause as int,
            ),
    {
        let observation = match &outcome {
            Ok(response) => {
                let (raw, data) = shape_read_response(response);
                let full_output = self.ledger.store_raw(raw.as_slice());
                let d = distill_output(raw.as_slice(), 2048, 1024);
                let count = text::to_decimal(raw.len() as u64);
                let ms = text::to_decimal(elapsed_ms);
                let summary = text::cat5(
                    full_op,
                    " returned ",
                    count.as_str(),
                    " bytes in ",
                    ms.as_str(),
                );
                Observation::Success {
                    summary: text::cat2(summary.as_str(), " ms"),
                    data,
                    stdout_head: d.head,
                    stdout_tail: d.tail,
                    exit_code: 0,
                    full_output,
                    truncated: d.truncated,
                }
            },
            Err(e) => {
                let message = e.message();
                let full_output = self.ledger.store_raw(message.as_str().as_bytes());
                Observation::Failure {
                    summary: text::cat2(full_op, " failed"),
                    exit_code: 1,
                    first_causal_failure: Some(take_chars(message.as_str(), 400)),
                    output_tail: None,
                    full_output,
                }
            },
        };
        let mut tool_sessions: Vec<String> = Vec::new();
        tool_sessions.push(full_op.to_owned());
        let delta = StateDelta {
            files: Vec::new(),
            processes_started: Vec::new(),
            processes_exited: Vec::new(),
            tool_sessions,
            policy_epoch: head.delta.policy_epoch,
            effects_proposed: Vec::new(),
            effects_committed: Vec::new(),
        };
        proof {
            assert(delta@ =~= fileless(
                head.delta.policy_epoch,
                seq![full_op@],
                Seq::empty(),
            ));
        }
        let plan = NodePlan {
            delta,
            workspace_root: head.workspace_root.clone(),
            replay_class: head.replay_class,
            cause,
        };
        (plan, observation)
    }

    /// Whether the observation plane is configured; a denial when it is not.
    pub fn require_http(&self) -> (r: Result<(), Denial>)
        ensures
            match r {
                Ok(_) => self.connector_names.deep_view().contains("http"@),
                Err(d) => !self.connector_names.deep_view().contains("http"@) && d@
                    == no_http_denial(),
            },
    {
        if self.has_connector("http") {
            return Ok(());
        }
        Err(
            Denial::bare(
                DenialCode::BackendUnavailable,
                "net.http_read",
                "no `http` connector is registered with this kernel; configure `http` in KernelConfig (or register an HttpConnector) to enable the observation plane".to_owned(),
                false,
            ),
        )
    }

    /// Whether an MCP server is registered; a denial that names those that are,
    /// when it is not.
    pub fn require_server(&self, server: &str) -> (r: Result<(), Denial>)
        ensures
            match r {
                Ok(_) => self.connector_names.deep_view().contains(server@),
                Err(d) => !self.connector_names.deep_view().contains(server@) && d@
                    == no_server_denial(server@, self.connector_names.deep_view()),
            },
    {
        if self.has_connector(server) {
            return Ok(());
        }
        let known = text::join(&self.connector_names, ", ");
        let reason = text::cat5(
            "no MCP server `",
            server,
            "` is registered with this kernel (registered connectors: [",
            known.as_str(),
            "])",
        );
        Err(Denial::bare(DenialCode::BackendUnavailable, "mcp.invoke", reason, false))
    }
}

/// The denial without an `http` connector.
pub open spec fn no_http_denial() -> DenialView {
    bare_denial(
        DenialCode::BackendUnavailable,
        "net.http_read"@,
        "no `http` connector is registered with this kernel; configure `http` in KernelConfig (or register an HttpConnector) to enable the observation plane"@,
        false,
    )
}

/// The denial of an unknown MCP server.
pub open spec fn no_server_denial(server: Seq<char>, known: Seq<Seq<char>>) -> DenialView {
    bare_denial(
        DenialCode::BackendUnavailable,
        "mcp.invoke"@,
        "no MCP server `"@ + server
            + "` is registered with this kernel (registered connectors: ["@ + text::joined(
            known,
            ", "@,
        ) + "])"@,
        false,
    )
}

/// The denial of a URL that the connector refuses.
pub open spec fn url_denial(error: Seq<char>) -> DenialView {
    bare_denial(
        DenialCode::ConstraintViolated,
        "net.http_read"@,
        "url refused: "@ + error,
        false,
    )
}

/// The denial of a host that the grant does not cover.
pub open spec fn egress_denial(host: Seq<char>) -> DenialView {
    offering(
        DenialCode::PolicyForbidden,
        "net.http_read"@,
        "host `"@ + host
            + "` is not covered by this grant's egress domains; request net.http_read scoped to the domain, or ask an operator to extend the policy egress allowlist"@,
        ScopeView {
            operation: "net.http_read"@,
            constraints: Json::Object(map!["domain"@ => Json::Text(host)]),
            requires_human: false,
        },
    )
}

/// The denial of arguments that a manifest refuses.
pub open spec fn manifest_denial(server: Seq<char>, error: Seq<char>) -> DenialView {
    bare_denial(
        DenialCode::ConstraintViolated,
        "mcp.invoke"@,
        "arguments refused by the `"@ + server + "` manifest: "@ + error,
        false,
    )
}

/// The host that a read goes to; empty when its URL names none.
pub open spec fn target_host(canon: Json, url: Seq<char>) -> Seq<char> {
    let u = match text_member(canon, "url"@) {
        Some(u) => u,
        None => url,
    };
    match host(u) {
        Some(h) => h,
        None => Seq::empty(),
    }
}

/// Some pattern matches the text.
pub open spec fn any_glob(patterns: Seq<Seq<char>>, t: Seq<char>) -> bool {
    exists|i: int| 0 <= i < patterns.len() && globs(#[trigger] patterns[i], t)
}

/// Judge a read of a URL that the connector has canonicalized (or refused):
/// the compiled egress confinement is enforced at the kernel boundary. An empty
/// list means no network for this grant.
pub fn judge_http_read(url: &str, canon: &KernelResult<Value>, egress_domains: &Vec<String>) -> (r:
    Result<String, Denial>)
    ensures
        match (*canon, r) {
            (Err(e), Err(d)) => d@ == url_denial(e.spec_message()),
            (Ok(c), Ok(h)) => h@ == target_host(c@, url@) && any_glob(
                egress_domains.deep_view(),
                h@,
            ),
            (Ok(c), Err(d)) => !any_glob(egress_domains.deep_view(), target_host(c@, url@)) && d@
                == egress_denial(target_host(c@, url@)),
            _ => false,
        },
{
    let c = match canon {
        Ok(c) => c,
        Err(e) => {
            let message = e.message();
            return Err(
                Denial::bare(
                    DenialCode::ConstraintViolated,
                    "net.http_read",
                    text::cat2("url refused: ", message.as_str()),
                    false,
                ),
            );
        },
    };
    let target = match text_at(c, "url") {
        Some(u) => u,
        None => url,
    };
    let host = match host_of(target) {
        Some(h) => h,
        None => String::new(),
    };
    let ghost patterns = egress_domains.deep_view();
    let mut i: usize = 0;
    while i < egress_domains.len()
        invariant
            i <= egress_domains.len(),
            patterns == egress_domains.deep_view(),
            host@ == target_host(c@, url@),
            *canon == Ok::<Value, KernelError>(*c),
            forall|j: int| 0 <= j < i ==> !globs(#[trigger] patterns[j], host@),
        decreases egress_domains.len() - i,
    {
        proof {
            assert(patterns[i as int] == egress_domains@[i as int]@);
        }
        if glob_match(egress_domains[i].as_str(), host.as_str()) {
            return Ok(host);
        }
        i = i + 1;
    }
    let reason = text::cat3(
        "host `",
        host.as_str(),
        "` is not covered by this grant's egress domains; request net.http_read scoped to the domain, or ask an operator to extend the policy egress allowlist",
    );
    let mut scopes: Vec<RequestableScope> = Vec::new();
    scopes.push(
        RequestableScope {
            operation: Operation::new("net.http_read"),
            constraints: object1("domain", Value::text(host.as_str())),
            requires_human: false,
        },
    );
    let d = Denial {
        code: DenialCode::PolicyForbidden,
        attempted_operation: Operation::new("net.http_read"),
        reason,
        safe_alternatives: Vec::new(),
        requestable_scopes: scopes,
        escalation_allowed: true,
    };
    proof {
        assert(d@ =~= egress_denial(host@)) by {
            assert(d@.safe_alternatives =~= Seq::<Seq<char>>::empty());
            assert(d@.requestable_scopes =~= egress_denial(host@).requestable_scopes);
        }
    }
    Err(d)
}

/// The denial of arguments that a manifest refuses.
pub fn denial_of_manifest(server: &str, error: &KernelError) -> (d: Denial)
    ensures
        d@ == manifest_denial(server@, error.spec_message()),
{
    let message = error.message();
    Denial::bare(
        DenialCode::ConstraintViolated,
        "mcp.invoke",
        text::cat4(
            "arguments refused by the `",
            server,
            "` manifest: ",
            message.as_str(),
        ),
        false,
    )
}

/// The parameters of a fetch that is not read-safe: it goes through the
/// transactional effect plane, with its host as the resource.
pub fn fetch_params(canon: Value, host: &str) -> (r: Value)
    ensures
        r@ == match canon@ {
            Json::Object(m) => Json::Object(m.insert("resource"@, Json::Text(host@))),
            other => other,
        },
{
    match canon {
        Value::Object(m) => {
            let mut m = m;
            m.insert("resource".to_owned(), Value::text(host));
            Value::Object(m)
        },
        other => other,
    }
}

/// On which plane a connector call runs: only what is pure runs inline.
#[derive(Debug, Clone, Copy, PartialEq, Eq, Structural)]
pub enum ConnectorPlane {
    Observation,
    Effect,
}

/// On which plane a call of that class runs.
pub fn connector_plane(class: EffectClass) -> (r: ConnectorPlane)
    ensures
        r == ConnectorPlane::Observation <==> class == EffectClass::Pure,
{
    match class {
        EffectClass::Pure => ConnectorPlane::Observation,
        _ => ConnectorPlane::Effect,
    }
}

/// Where the authority ends: at the first slash, question mark or hash, or at the end.
pub proof fn law_authorities_end_at_the_path(s: Seq<char>, i: int)
    requires
        0 <= i <= s.len(),
    ensures
        i <= authority_end(s, i) <= s.len(),
        forall|j: int|
            i <= j < authority_end(s, i) ==> #[trigger] s[j] != '/' && s[j] != '?' && s[j] != '#',
        authority_end(s, i) < s.len() ==> s[authority_end(s, i)] == '/' || s[authority_end(s, i)]
            == '?' || s[authority_end(s, i)] == '#',
    decreases s.len() - i,
{
    if i < s.len() && s[i] != '/' && s[i] != '?' && s[i] != '#' {
        law_authorities_end_at_the_path(s, i + 1);
    }
}

/// The host starts behind the last at sign, so what stands before it never counts.
pub proof fn law_hosts_start_behind_the_user(s: Seq<char>, k: int)
    requires
        0 <= k <= s.len(),
    ensures
        0 <= host_start(s, k) <= k,
        host_start(s, k) > 0 ==> s[host_start(s, k) - 1] == '@',
        forall|j: int| host_start(s, k) <= j < k ==> #[trigger] s[j] != '@',
    decreases k,
{
    if k > 0 && s[k - 1] != '@' {
        law_hosts_start_behind_the_user(s, k - 1);
    }
}

/// A port does not belong to the host: the host ends before the first colon, a
/// bracketed one behind the first closing bracket.
pub proof fn law_ports_do_not_belong_to_the_host(h: Seq<char>, port: Seq<char>)
    ensures
        !h.contains(':') && h.len() > 0 && h[0] != '[' ==> without_port(h + seq![':'] + port) == h,
        !h.contains(':') && h.len() > 0 && h[0] != '[' ==> without_port(h) == h,
        !h.contains(']') && h.len() > 0 && h[0] == '[' ==> without_port(h + seq![']'] + port) == h
            + seq![']'],
{
    let a = h + seq![':'] + port;
    let b = h + seq![']'] + port;
    let n = h.len() as int;
    assert(a[n] == ':' && b[n] == ']');
    assert forall|j: int| 0 <= j < n implies a[j] == h[j] && b[j] == h[j] by {}
    if !h.contains(':') {
        assert forall|j: int| 0 <= j < n implies h[j] != ':' by {
            assert(h.contains(h[j]));
        }
        text::lemma_pos(a, ':', n);
        text::lemma_pos(h, ':', n);
        assert(a.take(n) =~= h);
        assert(h.take(n) =~= h);
    }
    if !h.contains(']') {
        assert forall|j: int| 0 <= j < n implies h[j] != ']' by {
            assert(h.contains(h[j]));
        }
        text::lemma_pos(b, ']', n);
        assert(b.take(n + 1) =~= h + seq![']']);
    }
}

/// A URL without a scheme names no host, and a host is never empty and always in
/// lowercase.
pub proof fn law_hosts_need_a_scheme(url: Seq<char>)
    ensures
        !text::occurs_in(url, "://"@) ==> host(url) is None,
        host(url) matches Some(h) ==> h.len() > 0,
        host(url) matches Some(h) ==> forall|i: int|
            0 <= i < h.len() ==> !('A' <= #[trigger] h[i] && h[i] <= 'Z'),
{
    text::law_leftmost_place_is_found(url, "://"@, 0);
    if text::index_from(url, "://"@, 0) is Some {
        let k = text::index_from(url, "://"@, 0)->0;
        assert(text::occurs_at(url, "://"@, k));
    }
    if host(url) is Some {
        let rest = after_scheme(url)->0;
        let authority = rest.take(authority_end(rest, 0));
        let h0 = without_port(authority.skip(host_start(authority, authority.len() as int)));
        assert forall|i: int| 0 <= i < host(url)->0.len() implies !('A' <= #[trigger] host(
            url,
        )->0[i] && host(url)->0[i] <= 'Z') by {
            text::law_only_capitals_are_lowered(h0, i);
        }
    }
}

/// The host of a URL is what stands between its scheme and its path, without a user,
/// without a port, in lowercase: whatever stands before an at sign or behind the path
/// is not it.
pub proof fn law_hosts_stand_between_scheme_and_path(
    scheme: Seq<char>,
    user: Seq<char>,
    name: Seq<char>,
    path: Seq<char>,
)
    requires
        forall|i: int| 0 <= i < scheme.len() ==> #[trigger] scheme[i] != ':',
        forall|i: int|
            0 <= i < user.len() ==> #[trigger] user[i] != '/' && user[i] != '?' && user[i] != '#',
        name.len() > 0,
        forall|i: int|
            0 <= i < name.len() ==> #[trigger] name[i] != '/' && name[i] != '?' && name[i] != '#'
                && name[i] != '@' && name[i] != ':' && name[i] != '[',
        forall|i: int| 0 <= i < path.len() ==> #[trigger] path[i] != ':',
    ensures
        host(scheme + "://"@ + user + seq!['@'] + name + seq!['/'] + path) == Some(
            text::ascii_lower(name),
        ),
        host(scheme + "://"@ + name + seq!['/'] + path) == Some(text::ascii_lower(name)),
{
    lemma_host(scheme, user + seq!['@'], name, path);
    lemma_host(scheme, Seq::empty(), name, path);
    assert(scheme + "://"@ + (user + seq!['@']) + name + seq!['/'] + path =~= scheme + "://"@ + user
        + seq!['@'] + name + seq!['/'] + path);
    assert(scheme + "://"@ + Seq::empty() + name + seq!['/'] + path =~= scheme + "://"@ + name
        + seq!['/'] + path);
}

/// A second scheme separator would need a colon before a slash, and none stands there.
proof fn lemma_no_second_scheme(before: Seq<char>, name: Seq<char>, path: Seq<char>)
    requires
        forall|i: int| 0 <= i < before.len() ==> #[trigger] before[i] != '/',
        name.len() > 0,
        forall|i: int| 0 <= i < name.len() ==> #[trigger] name[i] != '/' && name[i] != ':',
        forall|i: int| 0 <= i < path.len() ==> #[trigger] path[i] != ':',
    ensures
        text::index_from(before + name + seq!['/'] + path, "://"@, 0) is None,
{
    reveal_strlit("://");
    let sep = "://"@;
    assert(sep.len() == 3 && sep[0] == ':' && sep[1] == '/');
    let rest = before + name + seq!['/'] + path;
    let b = before.len() as int;
    let n = b + name.len();
    text::law_leftmost_place_is_found(rest, sep, 0);
    if text::index_from(rest, sep, 0) is Some {
        let j = text::index_from(rest, sep, 0)->0;
        assert(rest.subrange(j, j + 3)[0] == rest[j]);
        assert(rest.subrange(j, j + 3)[1] == rest[j + 1]);
        if j + 1 < b {
            assert(rest[j + 1] == before[j + 1]);
        } else if j + 1 == b {
            assert(rest[j + 1] == name[0]);
        } else if j < n {
            assert(rest[j] == name[j - b]);
        } else if j > n {
            assert(rest[j] == path[j - n - 1]);
        }
    }
}

proof fn lemma_first_separator(scheme: Seq<char>, rest: Seq<char>)
    requires
        forall|i: int| 0 <= i < scheme.len() ==> #[trigger] scheme[i] != ':',
    ensures
        text::index_from(scheme + "://"@ + rest, "://"@, 0) == Some(scheme.len() as int),
{
    reveal_strlit("://");
    let sep = "://"@;
    assert(sep.len() == 3 && sep[0] == ':');
    let url = scheme + sep + rest;
    let k = scheme.len() as int;
    assert(url.subrange(k, k + 3) =~= sep);
    assert(text::occurs_at(url, sep, k));
    text::law_leftmost_place_is_found(url, sep, 0);
    let found = text::index_from(url, sep, 0);
    assert(found is Some);
    let j = found->0;
    assert(j <= k);
    if j < k {
        assert(url.subrange(j, j + 3)[0] == url[j]);
        assert(url[j] == scheme[j]);
    }
}

proof fn lemma_scheme(scheme: Seq<char>, rest: Seq<char>)
    requires
        forall|i: int| 0 <= i < scheme.len() ==> #[trigger] scheme[i] != ':',
        text::index_from(rest, "://"@, 0) is None,
    ensures
        after_scheme(scheme + "://"@ + rest) == Some(rest),
{
    lemma_first_separator(scheme, rest);
    assert("://"@.len() == 3) by {
        reveal_strlit("://");
    }
    assert((scheme + "://"@ + rest).skip(scheme.len() as int + 3) =~= rest);
}

proof fn lemma_authority(before: Seq<char>, name: Seq<char>, path: Seq<char>)
    requires
        forall|i: int|
            0 <= i < before.len() ==> #[trigger] before[i] != '/' && before[i] != '?' && before[i]
                != '#',
        before.len() > 0 ==> before.last() == '@',
        forall|i: int|
            0 <= i < name.len() ==> #[trigger] name[i] != '/' && name[i] != '?' && name[i] != '#'
                && name[i] != '@',
    ensures
        ({
            let rest = before + name + seq!['/'] + path;
            let authority = rest.take(authority_end(rest, 0));
            authority.skip(host_start(authority, authority.len() as int)) == name
        }),
{
    let rest = before + name + seq!['/'] + path;
    law_authorities_end_at_the_path(rest, 0);
    let b = before.len() as int;
    let n = b + name.len();
    assert(rest[n] == '/');
    let e = authority_end(rest, 0);
    if e < b {
        assert(rest[e] == before[e]);
    } else if e < n {
        assert(rest[e] == name[e - b]);
    }
    assert(e == n);
    let authority = rest.take(n);
    assert(authority =~= before + name);
    law_hosts_start_behind_the_user(authority, n);
    let s = host_start(authority, n);
    if s > b {
        assert(authority[s - 1] == name[s - 1 - b]);
    }
    if s < b {
        assert(authority[b - 1] == before.last());
    }
    assert(authority.skip(s) =~= name);
}

proof fn lemma_host(scheme: Seq<char>, before: Seq<char>, name: Seq<char>, path: Seq<char>)
    requires
        forall|i: int| 0 <= i < scheme.len() ==> #[trigger] scheme[i] != ':',
        forall|i: int|
            0 <= i < before.len() ==> #[trigger] before[i] != '/' && before[i] != '?' && before[i]
                != '#',
        before.len() > 0 ==> before.last() == '@',
        name.len() > 0,
        forall|i: int|
            0 <= i < name.len() ==> #[trigger] name[i] != '/' && name[i] != '?' && name[i] != '#'
                && name[i] != '@' && name[i] != ':' && name[i] != '[',
        forall|i: int| 0 <= i < path.len() ==> #[trigger] path[i] != ':',
    ensures
        host(scheme + "://"@ + before + name + seq!['/'] + path) == Some(text::ascii_lower(name)),
{
    let rest = before + name + seq!['/'] + path;
    lemma_no_second_scheme(before, name, path);
    lemma_scheme(scheme, rest);
    lemma_authority(before, name, path);
    law_ports_do_not_belong_to_the_host(name, Seq::empty());
    assert(!name.contains(':'));
    assert(scheme + "://"@ + before + name + seq!['/'] + path =~= scheme + "://"@ + rest);
    assert(text::ascii_lower(name).len() == name.len());
}

/// What a read gives back is the body of the response where there is one, and then
/// the rest of the response is its data.
pub proof fn law_bodies_are_parted_from_the_rest(m: Map<Seq<char>, Json>, body: Seq<char>)
    ensures
        m.contains_key("body"@) && m["body"@] == Json::Text(body) ==> {
            &&& response_bytes(Json::Object(m)) == encode_utf8(body)
            &&& response_data(Json::Object(m)) matches Some(Json::Object(d)) && (forall|k: Seq<char>|
                #[trigger]
                d.contains_key(k) <==> m.contains_key(k) && k != "body"@) && (forall|
                k: Seq<char>,
            | #[trigger] d.contains_key(k) ==> d[k] == m[k])
        },
        !m.contains_key("body"@) || !(m["body"@] is Text) ==> {
            &&& response_data(Json::Object(m)) is None
            &&& response_bytes(Json::Object(m)) == encode_utf8(laid_out(Json::Object(m), "\n"@))
        },
{
}

/// The resource of an operation is the one it names, else the repository it names,
/// else the connector itself.
pub proof fn law_resources_are_named_first(
    connector: Seq<char>,
    m: Map<Seq<char>, Json>,
    r: Seq<char>,
    owner: Seq<char>,
    repo: Seq<char>,
)
    ensures
        m.contains_key("resource"@) && m["resource"@] == Json::Text(r) ==> resource(
            connector,
            Json::Object(m),
        ) == r,
        !m.contains_key("resource"@) && m.contains_key("owner"@) && m["owner"@] == Json::Text(owner)
            && m.contains_key("repo"@) && m["repo"@] == Json::Text(repo) ==> resource(
            connector,
            Json::Object(m),
        ) == owner + "/"@ + repo,
        !m.contains_key("resource"@) && !(m.contains_key("owner"@) && m.contains_key("repo"@))
            ==> resource(connector, Json::Object(m)) == connector,
{
}

/// The arguments of an operation are all its parameters but the resource and the
/// preconditions; these stand beside them in the contract.
pub proof fn law_arguments_are_the_other_parameters(m: Map<Seq<char>, Json>, key: Seq<char>)
    ensures
        arguments(Json::Object(m)) matches Json::Object(a) && (a.contains_key(key)
            <==> m.contains_key(key) && key != "resource"@ && key != "preconditions"@) && (
        a.contains_key(key) ==> a[key] == m[key]),
        m.contains_key("preconditions"@) ==> preconditions(Json::Object(m)) == m["preconditions"@],
        !m.contains_key("preconditions"@) ==> preconditions(Json::Object(m)) == Json::Object(
            Map::empty(),
        ),
{
}

/// A proposal carries the contract and its hash, and says who proposed it, where, in
/// which step and under which lease.
pub proof fn law_proposals_say_where_they_come_from(
    id: Seq<char>,
    contract: ContractView,
    ticket: StepTicket,
    branch: Branch,
    action: Action,
    now: Timestamp,
)
    ensures
        ({
            let p = proposal(id, contract, ticket, branch, action, now);
            &&& p.id == id && p.contract == contract
            &&& p.contract_hash == crate::hash::canonical_hash(contract.json())
            &&& p.proposer == ticket.writer.principal@
            &&& p.branch == branch.id@ && p.step == ticket.step@ && p.lease == action.lease@
            &&& p.phase is Proposed && p.proposed_at == now
        }),
{
}

/// A step that goes through a connector changes no file and commits nothing: what it
/// proposes is all that its delta says beside its sessions.
pub proof fn law_proposals_change_no_file(
    epoch: u64,
    sessions: Seq<Seq<char>>,
    proposed: Seq<Seq<char>>,
    path: Seq<char>,
)
    ensures
        !fileless(epoch, sessions, proposed).touches(path),
        fileless(epoch, sessions, proposed).effects_proposed == proposed,
        fileless(epoch, sessions, proposed).effects_committed.len() == 0,
        fileless(epoch, sessions, proposed).tool_sessions == sessions,
        fileless(epoch, sessions, proposed).processes_started.len() == 0,
        fileless(epoch, sessions, proposed).processes_exited.len() == 0,
        fileless(epoch, sessions, proposed).policy_epoch == epoch,
{
}

/// A read that came back is a success with its bytes, and one that failed a failure
/// with its reason; the full output can be found by its hash either way.
pub proof fn law_reads_are_reported_as_they_went(
    op: Seq<char>,
    outcome: KernelResult<Value>,
    ms: u64,
)
    ensures
        outcome is Ok <==> read_view(op, outcome, ms) is Success,
        outcome is Err <==> read_view(op, outcome, ms) is Failure,
        read_view(op, outcome, ms) matches ObservationView::Success {
            exit_code,
            full_output,
            truncated,
            data,
            stdout_head,
            ..
        } ==> exit_code == 0 && full_output == hash_text(response_bytes(outcome->Ok_0@))
            && truncated == (response_bytes(outcome->Ok_0@).len() > 2048) && data == response_data(
            outcome->Ok_0@,
        ) && stdout_head == head_text(response_bytes(outcome->Ok_0@), 2048),
        read_view(op, outcome, ms) matches ObservationView::Failure {
            exit_code,
            full_output,
            first_causal_failure,
            ..
        } ==> exit_code == 1 && full_output == hash_text(encode_utf8(outcome->Err_0.spec_message()))
            && (first_causal_failure matches Some(f) && f.len() <= 400 && f.is_prefix_of(
            outcome->Err_0.spec_message(),
        ) && (outcome->Err_0.spec_message().len() <= 400 ==> f == outcome->Err_0.spec_message())),
{
    if outcome is Err {
        let m = outcome->Err_0.spec_message();
        let f = first_chars(m, 400);
        assert(f =~= m.subrange(0, f.len() as int));
    }
}

/// A list of patterns covers a text exactly if one of them matches it; an empty list
/// covers nothing.
pub proof fn law_one_pattern_is_enough(
    patterns: Seq<Seq<char>>,
    pattern: Seq<char>,
    t: Seq<char>,
)
    ensures
        !any_glob(Seq::empty(), t),
        any_glob(patterns.push(pattern), t) <==> any_glob(patterns, t) || globs(pattern, t),
{
    let more = patterns.push(pattern);
    if globs(pattern, t) {
        assert(more[patterns.len() as int] == pattern);
    }
    if any_glob(patterns, t) {
        let i = choose|i: int| 0 <= i < patterns.len() && globs(#[trigger] patterns[i], t);
        assert(more[i] == patterns[i]);
    }
    if any_glob(more, t) {
        let i = choose|i: int| 0 <= i < more.len() && globs(#[trigger] more[i], t);
        if i < patterns.len() {
            assert(more[i] == patterns[i]);
        }
    }
}

/// A read goes where its canonical form says, and only without one where the agent
/// said.
pub proof fn law_reads_go_where_the_canonical_form_says(
    m: Map<Seq<char>, Json>,
    url: Seq<char>,
    canonical_url: Seq<char>,
)
    ensures
        m.contains_key("url"@) && m["url"@] == Json::Text(canonical_url) ==> target_host(
            Json::Object(m),
            url,
        ) == (match host(canonical_url) {
            Some(h) => h,
            None => Seq::<char>::empty(),
        }),
        !m.contains_key("url"@) ==> target_host(Json::Object(m), url) == (match host(url) {
            Some(h) => h,
            None => Seq::<char>::empty(),
        }),
{
}

/// What is missing cannot be escalated, and what is out of reach can be asked for by
/// its domain.
pub proof fn law_connector_denials_say_what_to_do(
    h: Seq<char>,
    server: Seq<char>,
    known: Seq<Seq<char>>,
    error: Seq<char>,
)
    ensures
        no_http_denial().code is BackendUnavailable && !no_http_denial().escalation_allowed,
        no_http_denial().attempted_operation == "net.http_read"@,
        no_server_denial(server, known).code is BackendUnavailable,
        no_server_denial(server, known).attempted_operation == "mcp.invoke"@,
        !no_server_denial(server, known).escalation_allowed,
        url_denial(error).code is ConstraintViolated && !url_denial(error).escalation_allowed,
        url_denial(error).reason == "url refused: "@ + error,
        manifest_denial(server, error).code is ConstraintViolated,
        !manifest_denial(server, error).escalation_allowed,
        manifest_denial(server, error).attempted_operation == "mcp.invoke"@,
        egress_denial(h).code is PolicyForbidden,
        egress_denial(h).attempted_operation == "net.http_read"@,
        egress_denial(h).requestable_scopes.len() == 1,
        egress_denial(h).requestable_scopes[0].operation == "net.http_read"@,
        !egress_denial(h).requestable_scopes[0].requires_human,
        egress_denial(h).requestable_scopes[0].constraints == Json::Object(
            map!["domain"@ => Json::Text(h)],
        ),
{
}

/// A URL with nothing between its scheme and its path names no host.
pub proof fn law_empty_authorities_name_no_host(scheme: Seq<char>, path: Seq<char>)
    requires
        forall|i: int| 0 <= i < scheme.len() ==> #[trigger] scheme[i] != ':',
        forall|i: int| 0 <= i < path.len() ==> #[trigger] path[i] != ':',
    ensures
        host(scheme + "://"@ + seq!['/'] + path) is None,
{
    reveal_strlit("://");
    let rest = seq!['/'] + path;
    text::law_leftmost_place_is_found(rest, "://"@, 0);
    if text::index_from(rest, "://"@, 0) is Some {
        let j = text::index_from(rest, "://"@, 0)->0;
        assert("://"@.len() == 3 && "://"@[0] == ':');
        assert(rest.subrange(j, j + 3)[0] == rest[j]);
        if j > 0 {
            assert(rest[j] == path[j - 1]);
        }
    }
    lemma_scheme(scheme, rest);
    assert(scheme + "://"@ + seq!['/'] + path =~= scheme + "://"@ + rest);
    assert(rest[0] == '/');
    assert(authority_end(rest, 0) == 0);
    assert(rest.take(0) =~= Seq::<char>::empty());
    assert(Seq::<char>::empty().skip(0) =~= Seq::<char>::empty());
    assert(text::pos(Seq::<char>::empty(), ':') == 0);
    assert(Seq::<char>::empty().take(0) =~= Seq::<char>::empty());
}

/// The record of a proposal names the effect, the contract by its hash, and the class.
pub proof fn law_proposals_are_recorded_by_name(e: EffectView)
    ensures
        proposed_json(e) matches Json::Object(m) && m.contains_key("effect_id"@) && m["effect_id"@]
            == Json::Text(e.id) && m.contains_key("contract_hash"@) && m["contract_hash"@]
            == Json::Text(e.contract_hash) && m.contains_key("class"@) && m["class"@]
            == Json::Text(e.contract.class.spec_wire()),
{
    reveal_strlit("effect_id");
    reveal_strlit("contract_hash");
    reveal_strlit("class");
    assert("effect_id"@.len() == 9 && "contract_hash"@.len() == 13 && "class"@.len() == 5);
}

/// A state that follows the head keeps its workspace and replay class, under the delta
/// and the cause that are given.
pub proof fn law_states_follow_the_head(p: NodePlan, head: StateNode, delta: DeltaView, cause: int)
    requires
        follows(p, head, delta, cause),
    ensures
        p.delta@ == delta,
        p.workspace_root == head.workspace_root,
        p.replay_class == head.replay_class,
        p.cause == cause,
{
}

} // verus!
