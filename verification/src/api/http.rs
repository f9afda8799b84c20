//! What the JSON/HTTP binding answers: statuses, pages of raw outputs, and the
//! reading of request parameters.
//!
//! Errors are returned as [`ErrorEnvelope`]; policy denials are HTTP 403 carrying
//! the full machine-readable denial.
use vstd::prelude::*;
use vstd::utf8::{decode_utf8, encode_utf8, valid_utf8};
use crate::api::auth::{AuthError, Role};
use crate::api::step::StepResult;
use crate::error::{ErrorEnvelope, KernelError, KernelResult};
use crate::ids::{BranchId, EffectId, EpisodeId, PrincipalId, StepId, invalid_id};
use crate::json::{Json, JsonMap, Value, member, object3};
use crate::ledger::event::EventKind;
use crate::ledger::query::TraceQuery;
use crate::lines::{lossy_text, read_lossy};
use crate::observation::{Observation, ObservationView};
use crate::text;

verus! {

/// Kernel or authorization error.
#[derive(Debug)]
pub enum ApiError {
    Kernel(KernelError),
    Auth(AuthError),
}

/// The HTTP status of a kernel error.
pub open spec fn status(e: KernelError) -> u16 {
    match e {
        KernelError::Denied(_) => 403,
        KernelError::NotFound { .. } => 404,
        KernelError::InvalidId { .. } => 400,
        KernelError::Serde(_) => 400,
        KernelError::StaleAuthorization { .. } => 409,
        KernelError::DuplicateCommit { .. } => 409,
        KernelError::CommitInDoubt { .. } => 409,
        KernelError::WrongEffectPhase { .. } => 409,
        KernelError::BranchDiscarded { .. } => 409,
        KernelError::MergeConflict { .. } => 409,
        KernelError::BackendUnavailable { .. } => 503,
        _ => 500,
    }
}

/// The HTTP status of a kernel error.
pub fn status_of(e: &KernelError) -> (r: u16)
    ensures
        r == status(*e),
{
    match e {
        KernelError::Denied(_) => 403,
        KernelError::NotFound { .. } => 404,
        KernelError::InvalidId { .. } => 400,
        KernelError::Serde(_) => 400,
        KernelError::StaleAuthorization { .. } => 409,
        KernelError::DuplicateCommit { .. } => 409,
        KernelError::CommitInDoubt { .. } => 409,
        KernelError::WrongEffectPhase { .. } => 409,
        KernelError::BranchDiscarded { .. } => 409,
        KernelError::MergeConflict { .. } => 409,
        KernelError::BackendUnavailable { .. } => 503,
        _ => 500,
    }
}

impl ApiError {
    /// The HTTP response: the status and the error envelope.
    pub fn into_response(self) -> (r: (u16, ErrorEnvelope))
        ensures
            match self {
                ApiError::Kernel(e) => {
                    &&& r.0 == status(e)
                    &&& r.1.code@ == e.spec_code()
                    &&& r.1.message@ == e.spec_message()
                    &&& r.1.denial.deep_view() == match e {
                        KernelError::Denied(d) => Some(d@),
                        _ => None,
                    }
                },
                ApiError::Auth(e) => {
                    &&& r.0 == e.spec_status()
                    &&& r.1.code@ == e.spec_code()
                    &&& r.1.message@ == e.spec_message()
                    &&& r.1.denial is None
                },
            },
    {
        match self {
            ApiError::Kernel(e) => (status_of(&e), ErrorEnvelope::of(&e)),
            ApiError::Auth(e) => e.into_response(),
        }
    }
}

/// A step result in JSON.
pub open spec fn result_json(step: Seq<char>, state: Seq<char>, observation: ObservationView) -> Map<
    Seq<char>,
    Json,
> {
    map![
        "step"@ => Json::Text(step),
        "state"@ => Json::Text(state),
        "observation"@ => observation.json()
    ]
}

/// The envelope of a denied step in JSON.
pub open spec fn denied_envelope(d: crate::denial::DenialView) -> Json {
    Json::Object(
        map![
            "code"@ => Json::Text("DENIED"@),
            "message"@ => Json::Text(d.reason),
            "denial"@ => d.json()
        ],
    )
}

/// The HTTP response to a step: denials are full observations and HTTP 403 with
/// the structured denial. A step whose lease the kernel chose names it.
pub open spec fn step_answer(
    step: Seq<char>,
    state: Seq<char>,
    observation: ObservationView,
    lease: Option<(Seq<char>, bool)>,
) -> (u16, Json) {
    let m = result_json(step, state, observation);
    let m = match lease {
        Some((id, minted)) => m.insert("lease"@, Json::Text(id)).insert(
            "lease_minted"@,
            Json::Bool(minted),
        ),
        None => m,
    };
    match observation {
        ObservationView::Denied { denial } => (
            403,
            Json::Object(m.insert("error"@, denied_envelope(denial))),
        ),
        _ => (200, Json::Object(m)),
    }
}

/// The HTTP response to a step.
pub fn step_response(result: &StepResult, lease: Option<(&str, bool)>) -> (r: (u16, Value))
    ensures
        r.0 == step_answer(
            result.step@,
            result.state@,
            result.observation@,
            match lease {
                Some((id, minted)) => Some((id@, minted)),
                None => None,
            },
        ).0,
        r.1@ == step_answer(
            result.step@,
            result.state@,
            result.observation@,
            match lease {
                Some((id, minted)) => Some((id@, minted)),
                None => None,
            },
        ).1,
{
    let mut m = JsonMap::new();
    m.insert("step".to_owned(), Value::text(result.step.as_str()));
    m.insert("state".to_owned(), Value::text(result.state.as_str()));
    m.insert("observation".to_owned(), result.observation.to_value());
    if let Some((id, minted)) = lease {
        m.insert("lease".to_owned(), Value::text(id));
        m.insert("lease_minted".to_owned(), Value::Bool(minted));
    }
    match &result.observation {
        Observation::Denied { denial } => {
            let error = object3(
                "code",
                Value::text("DENIED"),
                "message",
                Value::text(denial.reason.as_str()),
                "denial",
                denial.to_value(),
            );
            m.insert("error".to_owned(), error);
            (403, Value::Object(m))
        },
        _ => (200, Value::Object(m)),
    }
}

/// The lesser of two numbers.
pub open spec fn lesser(a: int, b: int) -> int {
    if a < b {
        a
    } else {
        b
    }
}

/// The largest page of a raw output, in bytes.
pub const MAX_SLICE: u64 = 1_048_576;

/// How many hits a search in a raw output gives at most.
pub const MAX_GREP_MATCHES: usize = 200;

/// A page of a raw output.
#[derive(Debug)]
pub struct RawPage {
    pub total_bytes: u64,
    pub offset: u64,
    pub returned_bytes: u64,
    /// Where the next page starts; `None` on the last one.
    pub next_offset: Option<u64>,
    pub data: String,
}

/// Where a page starts.
pub open spec fn page_start(total: int, offset: Option<u64>) -> int {
    lesser(
        match offset {
            Some(o) => o as int,
            None => 0,
        },
        total,
    )
}

/// Where a page ends: behind 64 kibibytes when nothing is said of its size, and
/// behind one mebibyte at most.
pub open spec fn page_end(total: int, offset: Option<u64>, limit: Option<u64>) -> int {
    lesser(
        page_start(total, offset) + lesser(
            match limit {
                Some(l) => l as int,
                None => 65_536,
            },
            MAX_SLICE as int,
        ),
        total,
    )
}

/// A page of a raw output.
pub fn raw_page(bytes: &[u8], offset: Option<u64>, limit: Option<u64>) -> (r: RawPage)
    ensures
        ({
            let total = bytes@.len() as int;
            let from = page_start(total, offset);
            let to = page_end(total, offset, limit);
            &&& r.total_bytes == total
            &&& r.offset == from
            &&& r.returned_bytes == to - from
            &&& r.next_offset == if to < total {
                Some(to as u64)
            } else {
                None
            }
            &&& r.data@ == lossy_text(bytes@.subrange(from, to))
        }),
{
    let total: u64 = bytes.len() as u64;
    let asked: u64 = match offset {
        Some(o) => o,
        None => 0,
    };
    let from: u64 = if asked < total {
        asked
    } else {
        total
    };
    let size: u64 = match limit {
        Some(l) => if l < MAX_SLICE {
            l
        } else {
            MAX_SLICE
        },
        None => 65_536,
    };
    let to: u64 = if size < total - from {
        from + size
    } else {
        total
    };
    let data = read_lossy(vstd::slice::slice_subrange(bytes, from as usize, to as usize));
    RawPage {
        total_bytes: total,
        offset: from,
        returned_bytes: to - from,
        next_offset: if to < total {
            Some(to)
        } else {
            None
        },
        data,
    }
}

/// A line in which a search hit, with its place in the output.
#[derive(Debug)]
pub struct RawMatch {
    pub offset: u64,
    pub line: String,
}

/// What a [`RawMatch`] says.
pub struct HitView {
    pub offset: nat,
    pub line: Seq<char>,
}

impl RawMatch {
    pub open spec fn view(&self) -> HitView {
        HitView { offset: self.offset as nat, line: self.line@ }
    }
}

impl DeepView for RawMatch {
    type V = HitView;

    open spec fn deep_view(&self) -> HitView {
        self@
    }
}

/// The hits of a search.
#[derive(Debug)]
pub struct RawGrep {
    pub total_bytes: u64,
    pub matches: Vec<RawMatch>,
    /// Whether there are more hits than are listed.
    pub matches_truncated: bool,
}

/// Where the line ends that starts at byte `i`, its line feed included.
pub open spec fn line_end(b: Seq<u8>, i: int) -> int
    decreases b.len() - i,
{
    if i >= b.len() {
        i
    } else if b[i] == 10 {
        i + 1
    } else {
        line_end(b, i + 1)
    }
}

/// A line ends behind its start, and within its output.
pub proof fn lemma_line_end(b: Seq<u8>, i: int)
    requires
        0 <= i < b.len(),
    ensures
        i < line_end(b, i) <= b.len(),
    decreases b.len() - i,
{
    if b[i] != 10 {
        if i + 1 < b.len() {
            lemma_line_end(b, i + 1);
        } else {
            assert(line_end(b, i + 1) == i + 1);
        }
    }
}

/// What the bytes of a line read as.
pub open spec fn line_text(bytes: Seq<u8>) -> Seq<char> {
    if valid_utf8(bytes) {
        decode_utf8(bytes)
    } else {
        lossy_text(bytes)
    }
}

/// A line without its line feed.
pub open spec fn without_feed(line: Seq<char>) -> Seq<char> {
    if line.len() > 0 && line.last() == '\n' {
        line.drop_last()
    } else {
        line
    }
}

/// The lines from byte `i` on that hold the pattern, each with the byte at which
/// it starts.
pub open spec fn hits(b: Seq<u8>, p: Seq<char>, i: int) -> Seq<HitView>
    decreases b.len() - i,
{
    if i < 0 || i >= b.len() {
        Seq::empty()
    } else {
        proof {
            lemma_line_end(b, i);
        }
        let line = line_text(b.subrange(i, line_end(b, i)));
        let rest = hits(b, p, line_end(b, i));
        if text::occurs_in(line, p) {
            seq![HitView { offset: i as nat, line: without_feed(line) }] + rest
        } else {
            rest
        }
    }
}

/// The end of the line that starts at byte `i`.
fn find_line_end(bytes: &[u8], i: usize) -> (e: usize)
    requires
        i < bytes@.len(),
    ensures
        e == line_end(bytes@, i as int),
        i < e <= bytes@.len(),
{
    let mut e: usize = i;
    proof {
        lemma_line_end(bytes@, i as int);
    }
    while e < bytes.len() && bytes[e] != 10
        invariant
            i <= e <= bytes@.len(),
            line_end(bytes@, i as int) == line_end(bytes@, e as int),
            i < line_end(bytes@, i as int) <= bytes@.len(),
        decreases bytes.len() - e,
    {
        e = e + 1;
    }
    if e < bytes.len() {
        e + 1
    } else {
        e
    }
}

/// Search the lines of a raw output for a text, with byte offsets, so that an
/// agent can search a big log and then page precisely around the hits: an offset
/// is where the line starts in the output, whatever stands before it.
pub fn raw_grep(bytes: &[u8], pattern: &str) -> (r: RawGrep)
    ensures
        ({
            let all = hits(bytes@, pattern@, 0);
            &&& r.total_bytes == bytes@.len()
            &&& r.matches.deep_view() == all.take(
                lesser(all.len() as int, MAX_GREP_MATCHES as int),
            )
            &&& r.matches_truncated == (all.len() > MAX_GREP_MATCHES)
        }),
{
    let total_bytes: u64 = bytes.len() as u64;
    let p = text::chars_of(pattern);
    let ghost all = hits(bytes@, p@, 0);
    let mut matches: Vec<RawMatch> = Vec::new();
    let mut i: usize = 0;
    proof {
        assert(matches.deep_view() + hits(bytes@, p@, 0) =~= all);
    }
    while i < bytes.len()
        invariant
            i <= bytes@.len(),
            p@ == pattern@,
            total_bytes == bytes@.len(),
            all == hits(bytes@, p@, 0),
            matches.len() <= MAX_GREP_MATCHES,
            matches.deep_view() + hits(bytes@, p@, i as int) == all,
        decreases bytes.len() - i,
    {
        let e = find_line_end(bytes, i);
        let t = read_lossy(vstd::slice::slice_subrange(bytes, i, e));
        let line = text::chars_of(t.as_str());
        let ghost rest = hits(bytes@, p@, e as int);
        proof {
            assert(line@ == line_text(bytes@.subrange(i as int, e as int)));
        }
        if text::contains(&line, &p) {
            let ghost hit = HitView { offset: i as nat, line: without_feed(line@) };
            proof {
                assert(hits(bytes@, p@, i as int) == seq![hit] + rest);
            }
            if matches.len() >= MAX_GREP_MATCHES {
                proof {
                    assert(all.len() == matches.deep_view().len() + 1 + rest.len());
                    assert(all.take(MAX_GREP_MATCHES as int) =~= matches.deep_view());
                }
                return RawGrep { total_bytes, matches, matches_truncated: true };
            }
            let end: usize = if line.len() > 0 && line[line.len() - 1] == '\n' {
                line.len() - 1
            } else {
                line.len()
            };
            let bare = text::slice(&line, 0, end);
            proof {
                assert(bare@ =~= without_feed(line@));
            }
            let ghost before = matches.deep_view();
            matches.push(RawMatch { offset: i as u64, line: text::string_of(&bare) });
            proof {
                assert(matches.deep_view() =~= before.push(hit));
                assert(before + (seq![hit] + rest) =~= before.push(hit) + rest);
            }
        }
        i = e;
    }
    proof {
        assert(matches.deep_view() + hits(bytes@, p@, i as int) =~= matches.deep_view());
        assert(all.take(all.len() as int) =~= all);
    }
    RawGrep { total_bytes, matches, matches_truncated: false }
}

/// A hit is found at its offset: the page that starts there starts with the line.
pub proof fn law_hits_lie_at_their_offsets(b: Seq<u8>, p: Seq<char>, i: int, k: int)
    requires
        0 <= i <= b.len() <= u64::MAX,
        0 <= k < hits(b, p, i).len(),
    ensures
        ({
            let at = hits(b, p, i)[k].offset as int;
            &&& i <= at < b.len()
            &&& page_start(b.len() as int, Some(at as u64)) == at
            &&& hits(b, p, i)[k].line == without_feed(
                line_text(b.subrange(at, line_end(b, at))),
            )
            &&& text::occurs_in(line_text(b.subrange(at, line_end(b, at))), p)
        }),
    decreases b.len() - i,
{
    lemma_line_end(b, i);
    let e = line_end(b, i);
    let rest = hits(b, p, e);
    let line = line_text(b.subrange(i, e));
    if text::occurs_in(line, p) {
        if k > 0 {
            assert(hits(b, p, i)[k] == rest[k - 1]);
            law_hits_lie_at_their_offsets(b, p, e, k - 1);
        }
    } else {
        law_hits_lie_at_their_offsets(b, p, e, k);
    }
}

/// The parameters of a trace query.
#[derive(Debug)]
pub struct TraceParams {
    pub episode: Option<String>,
    pub branch: Option<String>,
    pub step: Option<String>,
    pub principal: Option<String>,
    pub kind: Option<String>,
    pub limit: Option<usize>,
}

/// The text is there and lacks the prefix.
pub open spec fn lacks(t: Option<String>, prefix: Seq<char>) -> bool {
    t matches Some(s) && !prefix.is_prefix_of(s@)
}

/// The kinds that a parameter names: one, or all when it names none.
pub open spec fn kinds_of(kind: Option<String>) -> Seq<EventKind> {
    match kind {
        Some(s) => match EventKind::named(s@) {
            Some(k) => seq![k],
            None => Seq::empty(),
        },
        None => Seq::empty(),
    }
}

impl TraceParams {
    /// The query that the parameters stand for. An identifier that lacks its
    /// prefix is an error, the first of them first.
    pub fn query(&self) -> (r: KernelResult<TraceQuery>)
        ensures
            if lacks(self.episode, "ep-"@) {
                r matches Err(e) && invalid_id(e, "ep"@, self.episode->0@)
            } else if lacks(self.branch, "br-"@) {
                r matches Err(e) && invalid_id(e, "br"@, self.branch->0@)
            } else if lacks(self.step, "step-"@) {
                r matches Err(e) && invalid_id(e, "step"@, self.step->0@)
            } else if lacks(self.principal, "pr-"@) {
                r matches Err(e) && invalid_id(e, "pr"@, self.principal->0@)
            } else {
                r matches Ok(q) && q.episode.deep_view() == self.episode.deep_view()
                    && q.branch.deep_view() == self.branch.deep_view() && q.step.deep_view()
                    == self.step.deep_view() && q.principal.deep_view()
                    == self.principal.deep_view() && q.kinds@ == kinds_of(self.kind) && q.limit
                    == self.limit && q.seq_range is None && q.time_range is None
            },
    {
        let episode = match &self.episode {
            Some(s) => match EpisodeId::parse(s.as_str()) {
                Ok(id) => Some(id),
                Err(e) => {
                    return Err(e);
                },
            },
            None => None,
        };
        let branch = match &self.branch {
            Some(s) => match BranchId::parse(s.as_str()) {
                Ok(id) => Some(id),
                Err(e) => {
                    return Err(e);
                },
            },
            None => None,
        };
        let step = match &self.step {
            Some(s) => match StepId::parse(s.as_str()) {
                Ok(id) => Some(id),
                Err(e) => {
                    return Err(e);
                },
            },
            None => None,
        };
        let principal = match &self.principal {
            Some(s) => match PrincipalId::parse(s.as_str()) {
                Ok(id) => Some(id),
                Err(e) => {
                    return Err(e);
                },
            },
            None => None,
        };
        let mut kinds: Vec<EventKind> = Vec::new();
        if let Some(s) = &self.kind {
            if let Some(k) = EventKind::parse(s.as_str()) {
                kinds.push(k);
            }
        }
        proof {
            assert(kinds@ =~= kinds_of(self.kind));
        }
        Ok(
            TraceQuery {
                episode,
                branch,
                step,
                seq_range: None,
                principal,
                kinds,
                time_range: None,
                limit: self.limit,
            },
        )
    }
}

/// The body of a replay request.
#[derive(Debug)]
pub struct ReplayBody {
    /// `audit`: inclusive ledger sequence range.
    pub seq_from: Option<i64>,
    pub seq_to: Option<i64>,
    /// `sandbox`: the recorded step to re-execute.
    pub step: Option<String>,
    /// `live`: the recorded effect whose contract is re-committed, and the
    /// principal approving the new commit.
    pub effect: Option<String>,
    pub approver: Option<String>,
}

/// What a replay request asks for.
#[derive(Debug)]
pub enum ReplayAsk {
    Audit { from: i64, to: i64 },
    Sandbox { step: StepId },
    Live { effect: EffectId, approver: PrincipalId },
}

/// The role that a mode of replay needs; a sandbox replay needs the owner of its
/// step instead.
pub fn replay_role(mode: &str) -> (r: KernelResult<Option<Role>>)
    ensures
        if mode@ == "audit"@ {
            r == Ok::<_, KernelError>(Some(Role::Admin))
        } else if mode@ == "sandbox"@ {
            r == Ok::<_, KernelError>(None::<Role>)
        } else if mode@ == "live"@ {
            r == Ok::<_, KernelError>(Some(Role::Approver))
        } else {
            r matches Err(e) && invalid_id(e, "audit|sandbox|live"@, mode@)
        },
{
    if text::str_eq(mode, "audit") {
        Ok(Some(Role::Admin))
    } else if text::str_eq(mode, "sandbox") {
        Ok(None)
    } else if text::str_eq(mode, "live") {
        Ok(Some(Role::Approver))
    } else {
        Err(KernelError::InvalidId { expected_prefix: "audit|sandbox|live", got: mode.to_owned() })
    }
}

/// The error for a request that lacks something.
pub open spec fn says_other(e: KernelError, message: Seq<char>) -> bool {
    e matches KernelError::Other(m) && m@ == message
}

impl ReplayBody {
    /// What the request asks for. An audit without bounds is of everything; the
    /// other modes have to name what they replay.
    pub fn ask(&self, mode: &str) -> (r: KernelResult<ReplayAsk>)
        ensures
            if mode@ == "audit"@ {
                r matches Ok(ReplayAsk::Audit { from, to }) && from == match self.seq_from {
                    Some(n) => n,
                    None => 1,
                } && to == match self.seq_to {
                    Some(n) => n,
                    None => i64::MAX,
                }
            } else if mode@ == "sandbox"@ {
                match self.step {
                    None => r matches Err(e) && says_other(e, "sandbox replay requires `step`"@),
                    Some(s) => if "step-"@.is_prefix_of(s@) {
                        r matches Ok(ReplayAsk::Sandbox { step }) && step@ == s@
                    } else {
                        r matches Err(e) && invalid_id(e, "step"@, s@)
                    },
                }
            } else if mode@ == "live"@ {
                match (self.effect, self.approver) {
                    (None, _) => r matches Err(e) && says_other(
                        e,
                        "live replay requires `effect`"@,
                    ),
                    (Some(_), None) => r matches Err(e) && says_other(
                        e,
                        "live replay requires `approver`"@,
                    ),
                    (Some(f), Some(a)) => if !"pr-"@.is_prefix_of(a@) {
                        r matches Err(e) && invalid_id(e, "pr"@, a@)
                    } else if !"fx-"@.is_prefix_of(f@) {
                        r matches Err(e) && invalid_id(e, "fx"@, f@)
                    } else {
                        r matches Ok(ReplayAsk::Live { effect, approver }) && effect@ == f@
                            && approver@ == a@
                    },
                }
            } else {
                r matches Err(e) && invalid_id(e, "audit|sandbox|live"@, mode@)
            },
    {
        if text::str_eq(mode, "audit") {
            let from: i64 = match self.seq_from {
                Some(n) => n,
                None => 1,
            };
            let to: i64 = match self.seq_to {
                Some(n) => n,
                None => i64::MAX,
            };
            Ok(ReplayAsk::Audit { from, to })
        } else if text::str_eq(mode, "sandbox") {
            match &self.step {
                Some(s) => match StepId::parse(s.as_str()) {
                    Ok(step) => Ok(ReplayAsk::Sandbox { step }),
                    Err(e) => Err(e),
                },
                None => Err(KernelError::Other("sandbox replay requires `step`".to_owned())),
            }
        } else if text::str_eq(mode, "live") {
            match (&self.effect, &self.approver) {
                (Some(f), Some(a)) => match PrincipalId::parse(a.as_str()) {
                    Ok(approver) => match EffectId::parse(f.as_str()) {
                        Ok(effect) => Ok(ReplayAsk::Live { effect, approver }),
                        Err(e) => Err(e),
                    },
                    Err(e) => Err(e),
                },
                (None, _) => Err(KernelError::Other("live replay requires `effect`".to_owned())),
                (Some(_), None) => Err(
                    KernelError::Other("live replay requires `approver`".to_owned()),
                ),
            }
        } else {
            Err(
                KernelError::InvalidId {
                    expected_prefix: "audit|sandbox|live",
                    got: mode.to_owned(),
                },
            )
        }
    }
}

/// Reading page after page gives the whole output: a page that is not the last
/// starts the next one where it ends, and moves on unless its size is zero.
pub proof fn law_pages_follow_each_other(total: int, offset: Option<u64>, limit: Option<u64>)
    requires
        0 <= total <= u64::MAX,
    ensures
        0 <= page_start(total, offset) <= page_end(total, offset, limit) <= total,
        page_end(total, offset, limit) < total ==> page_start(
            total,
            Some(page_end(total, offset, limit) as u64),
        ) == page_end(total, offset, limit),
        page_start(total, offset) < total && limit != Some(0u64) ==> page_start(total, offset)
            < page_end(total, offset, limit),
        page_end(total, offset, limit) - page_start(total, offset) <= MAX_SLICE,
{
}

/// Every error has its status: what is forbidden, missing, malformed, in conflict or
/// unavailable is told apart, and everything else is the server's fault.
pub proof fn law_errors_have_their_status(e: KernelError)
    ensures
        status(e) == 403 <==> e is Denied,
        status(e) == 404 <==> e is NotFound,
        status(e) == 400 <==> e is InvalidId || e is Serde,
        status(e) == 409 <==> e is StaleAuthorization || e is DuplicateCommit || e is CommitInDoubt
            || e is WrongEffectPhase || e is BranchDiscarded || e is MergeConflict,
        status(e) == 503 <==> e is BackendUnavailable,
        status(e) == 500 || status(e) == 403 || status(e) == 404 || status(e) == 400 || status(e)
            == 409 || status(e) == 503,
{
}

/// A denied step is answered with 403 and the denial in full beside its observation;
/// every other step with 200. A lease that the kernel chose is named.
pub proof fn law_denied_steps_are_answered_in_full(
    step: Seq<char>,
    state: Seq<char>,
    observation: ObservationView,
    lease: Option<(Seq<char>, bool)>,
)
    ensures
        ({
            let (code, body) = step_answer(step, state, observation, lease);
            &&& code == 403 <==> observation is Denied
            &&& code == 200 <==> !(observation is Denied)
            &&& member(body, "step"@) == Some(Json::Text(step))
            &&& member(body, "state"@) == Some(Json::Text(state))
            &&& member(body, "observation"@) == Some(observation.json())
            &&& lease matches Some((id, minted)) ==> member(body, "lease"@) == Some(Json::Text(id))
                && member(body, "lease_minted"@) == Some(Json::Bool(minted))
            &&& lease is None ==> member(body, "lease"@) is None && member(body, "lease_minted"@)
                is None
            &&& member(body, "error"@) is Some <==> observation is Denied
            &&& observation matches ObservationView::Denied { denial } ==> (member(
                body,
                "error"@,
            ) matches Some(e) && member(e, "denial"@) == Some(denial.json()) && member(
                e,
                "message"@,
            ) == Some(Json::Text(denial.reason)) && member(e, "code"@) == Some(
                Json::Text("DENIED"@),
            ))
        }),
{
    reveal_strlit("step");
    reveal_strlit("state");
    reveal_strlit("observation");
    reveal_strlit("lease");
    reveal_strlit("lease_minted");
    reveal_strlit("error");
    reveal_strlit("code");
    reveal_strlit("message");
    reveal_strlit("denial");
    assert("step"@.len() == 4 && "state"@.len() == 5 && "observation"@.len() == 11);
    assert("lease"@.len() == 5 && "lease_minted"@.len() == 12 && "error"@.len() == 5);
    assert("code"@.len() == 4 && "message"@.len() == 7 && "denial"@.len() == 6);
    assert("state"@[0] == 's' && "lease"@[0] == 'l' && "error"@[0] == 'e');
}

/// A page starts where it was asked to, and is as long as it was asked to be: 64
/// kibibytes where nothing was said, never more than the largest page, and never
/// beyond the end.
pub proof fn law_pages_are_as_long_as_asked(total: int, offset: u64, limit: u64)
    requires
        0 <= total,
    ensures
        offset <= total ==> page_start(total, Some(offset)) == offset,
        offset > total ==> page_start(total, Some(offset)) == total,
        page_start(total, None) == 0,
        offset + limit <= total && limit <= MAX_SLICE ==> page_end(total, Some(offset), Some(limit))
            == offset + limit,
        offset + limit > total && offset + MAX_SLICE > total ==> page_end(
            total,
            Some(offset),
            Some(limit),
        ) == total,
        limit > MAX_SLICE && offset + MAX_SLICE <= total ==> page_end(
            total,
            Some(offset),
            Some(limit),
        ) == offset + MAX_SLICE,
        offset + 65_536 <= total ==> page_end(total, Some(offset), None) == offset + 65_536,
        MAX_SLICE == 1_048_576,
{
}

/// A line ends with its line feed, or at the end of the output; it is a hit exactly if
/// it holds the pattern, at the byte it starts at, and the search goes on behind it.
pub proof fn law_lines_are_searched_one_by_one(b: Seq<u8>, p: Seq<char>, i: int, e: int)
    requires
        0 <= i < e <= b.len(),
        forall|j: int| i <= j < e - 1 ==> #[trigger] b[j] != 10,
        b[e - 1] == 10 || e == b.len(),
    ensures
        line_end(b, i) == e,
        text::occurs_in(line_text(b.subrange(i, e)), p) ==> hits(b, p, i) == seq![
            (HitView { offset: i as nat, line: without_feed(line_text(b.subrange(i, e))) }),
        ] + hits(b, p, e),
        !text::occurs_in(line_text(b.subrange(i, e)), p) ==> hits(b, p, i) == hits(b, p, e),
        hits(b, p, b.len() as int).len() == 0,
    decreases e - i,
{
    lemma_line_at(b, i, e);
}

proof fn lemma_line_at(b: Seq<u8>, i: int, e: int)
    requires
        0 <= i < e <= b.len(),
        forall|j: int| i <= j < e - 1 ==> #[trigger] b[j] != 10,
        b[e - 1] == 10 || e == b.len(),
    ensures
        line_end(b, i) == e,
    decreases e - i,
{
    if i < e - 1 {
        assert(b[i] != 10);
        lemma_line_at(b, i + 1, e);
    } else {
        reveal_with_fuel(line_end, 2);
    }
}

/// A hit is shown without its line feed, and with everything else.
pub proof fn law_hits_are_shown_without_their_feed(line: Seq<char>)
    ensures
        without_feed(line.push('\n')) == line,
        line.len() == 0 || line.last() != '\n' ==> without_feed(line) == line,
{
    assert(line.push('\n').drop_last() =~= line);
}

/// A parameter that names a kind selects that kind alone; one that is absent, or names
/// none, selects all.
pub proof fn law_kinds_are_selected_by_name(kind: Option<String>)
    ensures
        kind is None ==> kinds_of(kind).len() == 0,
        kind matches Some(s) ==> (EventKind::named(s@) matches Some(k) ==> kinds_of(kind) == seq![k]),
        kind matches Some(s) ==> EventKind::named(s@) is None ==> kinds_of(kind).len() == 0,
{
}

/// A line is read as the text it encodes, and where it encodes none with what cannot be
/// read replaced.
pub proof fn law_lines_are_read_as_they_are(t: Seq<char>, bytes: Seq<u8>)
    ensures
        line_text(encode_utf8(t)) == t,
        valid_utf8(bytes) ==> encode_utf8(line_text(bytes)) == bytes,
        !valid_utf8(bytes) ==> line_text(bytes) == lossy_text(bytes),
{
    vstd::utf8::encode_utf8_valid_utf8(t);
    vstd::utf8::encode_utf8_decode_utf8(t);
    if valid_utf8(bytes) {
        vstd::utf8::decode_utf8_encode_utf8(bytes);
    }
}

/// An audit needs an admin, a live replay an approver, and a sandbox replay no role;
/// nothing else is a mode.
pub proof fn law_modes_need_their_role(mode: &str, r: KernelResult<Option<Role>>)
    requires
        call_ensures(replay_role, (mode,), r),
    ensures
        (r matches Ok(Some(Role::Admin))) <==> mode@ == "audit"@,
        (r matches Ok(Some(Role::Approver))) <==> mode@ == "live"@,
        (r matches Ok(None)) <==> mode@ == "sandbox"@,
        r is Err <==> mode@ != "audit"@ && mode@ != "live"@ && mode@ != "sandbox"@,
        !(r matches Ok(Some(Role::Agent))),
{
    reveal_strlit("audit");
    reveal_strlit("live");
    reveal_strlit("sandbox");
    assert("audit"@.len() == 5 && "live"@.len() == 4 && "sandbox"@.len() == 7);
}

} // verus!
