//! Structured observations returned to the agent after each step.
//!
//! Observations are budget-aware: raw logs stay in the ledger; the agent gets a
//! distilled, queryable summary that preserves its effective context window.
//! Distillation keeps the head and the tail of the output: compiler errors,
//! test summaries and package-manager hints usually live at the end, not the
//! beginning. The full blob is always addressable by content hash.
use vstd::prelude::*;
use crate::denial::{Denial, DenialView};
use crate::effect::EffectClass;
use crate::hash::{ContentHash, hash_bytes, hash_text};
use crate::ids::{EffectId, ReceiptId};
use crate::json::{Json, JsonMap, Value, integer_json, integer_value, with_some};
use crate::lines::{cap, capped, lines, lines_of, lossy_text, read_lossy, trim, trimmed};
use crate::text;

verus! {

/// What the agent sees of a step.
#[derive(Debug)]
pub enum Observation {
    /// Successful execution with distilled output.
    Success {
        summary: String,
        /// Structured payload (e.g. parsed test results).
        data: Option<Value>,
        /// Leading bytes of the output, if textual.
        stdout_head: Option<String>,
        /// Trailing bytes of the output (only present when the middle was
        /// elided; test summaries and final errors live here).
        stdout_tail: Option<String>,
        exit_code: i32,
        /// Full output is addressable in the ledger via this hash.
        full_output: ContentHash,
        truncated: bool,
    },
    /// Execution ran but failed; includes a causal hint when derivable.
    Failure {
        summary: String,
        exit_code: i32,
        /// Best-effort root-cause line extracted from stderr (error/panic/
        /// traceback markers scanned across the whole stream, not just the
        /// first line).
        first_causal_failure: Option<String>,
        /// Trailing bytes of combined output, where compilers and test runners
        /// put their summaries.
        output_tail: Option<String>,
        full_output: ContentHash,
    },
    /// The kernel refused the action. Always machine-readable.
    Denied { denial: Denial },
    /// An external effect was proposed and now awaits prepare/approval.
    EffectPending { effect: EffectId, contract_hash: ContentHash, class: EffectClass },
    /// An external effect committed; the receipt is the proof.
    EffectCommitted { receipt: ReceiptId },
}

/// What an [`Observation`] says.
#[verifier::ext_equal]
pub enum ObservationView {
    Success {
        summary: Seq<char>,
        data: Option<Json>,
        stdout_head: Option<Seq<char>>,
        stdout_tail: Option<Seq<char>>,
        exit_code: i32,
        full_output: Seq<char>,
        truncated: bool,
    },
    Failure {
        summary: Seq<char>,
        exit_code: i32,
        first_causal_failure: Option<Seq<char>>,
        output_tail: Option<Seq<char>>,
        full_output: Seq<char>,
    },
    Denied { denial: DenialView },
    EffectPending { effect: Seq<char>, contract_hash: Seq<char>, class: EffectClass },
    EffectCommitted { receipt: Seq<char> },
}

/// A text in JSON, if there is one.
pub open spec fn some_text(t: Option<Seq<char>>) -> Option<Json> {
    match t {
        Some(s) => Some(Json::Text(s)),
        None => None,
    }
}

impl ObservationView {
    /// The observation in JSON: its kind beside its fields. What is not there is
    /// left out.
    pub open spec fn json(self) -> Json {
        match self {
            ObservationView::Success {
                summary,
                data,
                stdout_head,
                stdout_tail,
                exit_code,
                full_output,
                truncated,
            } => {
                let m = map![
                    "kind"@ => Json::Text("success"@),
                    "summary"@ => Json::Text(summary),
                    "exit_code"@ => integer_json(exit_code as i64),
                    "full_output"@ => Json::Text(full_output),
                    "truncated"@ => Json::Bool(truncated)
                ];
                let m = with_some(m, "data"@, data);
                let m = with_some(m, "stdout_head"@, some_text(stdout_head));
                Json::Object(with_some(m, "stdout_tail"@, some_text(stdout_tail)))
            },
            ObservationView::Failure {
                summary,
                exit_code,
                first_causal_failure,
                output_tail,
                full_output,
            } => {
                let m = map![
                    "kind"@ => Json::Text("failure"@),
                    "summary"@ => Json::Text(summary),
                    "exit_code"@ => integer_json(exit_code as i64),
                    "full_output"@ => Json::Text(full_output)
                ];
                let m = with_some(m, "first_causal_failure"@, some_text(first_causal_failure));
                Json::Object(with_some(m, "output_tail"@, some_text(output_tail)))
            },
            ObservationView::Denied { denial } => Json::Object(
                map!["kind"@ => Json::Text("denied"@), "denial"@ => denial.json()],
            ),
            ObservationView::EffectPending { effect, contract_hash, class } => Json::Object(
                map![
                    "kind"@ => Json::Text("effect_pending"@),
                    "effect"@ => Json::Text(effect),
                    "contract_hash"@ => Json::Text(contract_hash),
                    "class"@ => Json::Text(class.spec_wire())
                ],
            ),
            ObservationView::EffectCommitted { receipt } => Json::Object(
                map!["kind"@ => Json::Text("effect_committed"@), "receipt"@ => Json::Text(receipt)],
            ),
        }
    }
}

/// Adds a text to the members, if there is one.
fn put_text(m: &mut JsonMap, key: &str, t: &Option<String>)
    ensures
        final(m)@ == with_some(old(m)@, key@, some_text(t.deep_view())),
{
    match t {
        Some(s) => m.insert(key.to_owned(), Value::text(s.as_str())),
        None => {},
    }
}

/// What an optional value says.
pub open spec fn data_view(d: Option<Value>) -> Option<Json> {
    match d {
        Some(v) => Some(v@),
        None => None,
    }
}

impl Observation {
    pub open spec fn view(&self) -> ObservationView {
        match self {
            Observation::Success {
                summary,
                data,
                stdout_head,
                stdout_tail,
                exit_code,
                full_output,
                truncated,
            } => ObservationView::Success {
                summary: summary@,
                data: data_view(*data),
                stdout_head: stdout_head.deep_view(),
                stdout_tail: stdout_tail.deep_view(),
                exit_code: *exit_code,
                full_output: full_output@,
                truncated: *truncated,
            },
            Observation::Failure {
                summary,
                exit_code,
                first_causal_failure,
                output_tail,
                full_output,
            } => ObservationView::Failure {
                summary: summary@,
                exit_code: *exit_code,
                first_causal_failure: first_causal_failure.deep_view(),
                output_tail: output_tail.deep_view(),
                full_output: full_output@,
            },
            Observation::Denied { denial } => ObservationView::Denied { denial: denial@ },
            Observation::EffectPending { effect, contract_hash, class } => {
                ObservationView::EffectPending {
                    effect: effect@,
                    contract_hash: contract_hash@,
                    class: *class,
                }
            },
            Observation::EffectCommitted { receipt } => ObservationView::EffectCommitted {
                receipt: receipt@,
            },
        }
    }

    /// The observation in JSON: its kind beside its fields. What is not there is
    /// left out.
    pub fn to_value(&self) -> (r: Value)
        ensures
            r@ == self@.json(),
    {
        let mut m = JsonMap::new();
        match self {
            Observation::Success {
                summary,
                data,
                stdout_head,
                stdout_tail,
                exit_code,
                full_output,
                truncated,
            } => {
                m.insert("kind".to_owned(), Value::text("success"));
                m.insert("summary".to_owned(), Value::text(summary.as_str()));
                m.insert("exit_code".to_owned(), integer_value(*exit_code as i64));
                m.insert("full_output".to_owned(), Value::text(full_output.as_str()));
                m.insert("truncated".to_owned(), Value::Bool(*truncated));
                match data {
                    Some(v) => m.insert("data".to_owned(), v.clone()),
                    None => {},
                }
                put_text(&mut m, "stdout_head", stdout_head);
                put_text(&mut m, "stdout_tail", stdout_tail);
            },
            Observation::Failure {
                summary,
                exit_code,
                first_causal_failure,
                output_tail,
                full_output,
            } => {
                m.insert("kind".to_owned(), Value::text("failure"));
                m.insert("summary".to_owned(), Value::text(summary.as_str()));
                m.insert("exit_code".to_owned(), integer_value(*exit_code as i64));
                m.insert("full_output".to_owned(), Value::text(full_output.as_str()));
                put_text(&mut m, "first_causal_failure", first_causal_failure);
                put_text(&mut m, "output_tail", output_tail);
            },
            Observation::Denied { denial } => {
                m.insert("kind".to_owned(), Value::text("denied"));
                m.insert("denial".to_owned(), denial.to_value());
            },
            Observation::EffectPending { effect, contract_hash, class } => {
                m.insert("kind".to_owned(), Value::text("effect_pending"));
                m.insert("effect".to_owned(), Value::text(effect.as_str()));
                m.insert("contract_hash".to_owned(), Value::text(contract_hash.as_str()));
                m.insert("class".to_owned(), Value::text(class.wire()));
            },
            Observation::EffectCommitted { receipt } => {
                m.insert("kind".to_owned(), Value::text("effect_committed"));
                m.insert("receipt".to_owned(), Value::text(receipt.as_str()));
            },
        }
        Value::Object(m)
    }
}

impl Observation {
    /// The exit code of an executed observation.
    pub open spec fn spec_exit_code(&self) -> Option<i32> {
        match self {
            Observation::Success { exit_code, .. } => Some(*exit_code),
            Observation::Failure { exit_code, .. } => Some(*exit_code),
            _ => None,
        }
    }

    /// Whether the kernel refused the action.
    pub fn is_denial(&self) -> (r: bool)
        ensures
            r == (self is Denied),
    {
        match self {
            Observation::Denied { .. } => true,
            _ => false,
        }
    }

    /// Exit code of an executed observation (None for denials/effects).
    pub fn exit_code(&self) -> (r: Option<i32>)
        ensures
            r == self.spec_exit_code(),
    {
        match self {
            Observation::Success { exit_code, .. } => Some(*exit_code),
            Observation::Failure { exit_code, .. } => Some(*exit_code),
            _ => None,
        }
    }
}

/// Head + tail distillation of raw process output.
#[derive(Debug)]
pub struct DistilledOutput {
    /// Leading `head_limit` bytes (lossy UTF-8). `None` when the output is
    /// empty.
    pub head: Option<String>,
    /// Trailing `tail_limit` bytes, present only when the middle was elided.
    pub tail: Option<String>,
    pub hash: ContentHash,
    pub truncated: bool,
}

/// The first `limit` bytes.
pub open spec fn head_bytes(raw: Seq<u8>, limit: nat) -> Seq<u8> {
    raw.take(if raw.len() < limit { raw.len() } else { limit } as int)
}

/// Where the tail starts: `tail_limit` bytes before the end, but not in the
/// head.
pub open spec fn tail_start(len: nat, head_limit: nat, tail_limit: nat) -> int {
    if len - tail_limit > head_limit {
        len - tail_limit
    } else {
        head_limit as int
    }
}

/// The head of an output, as text.
pub open spec fn head_text(raw: Seq<u8>, limit: nat) -> Option<Seq<char>> {
    if raw.len() == 0 {
        None
    } else {
        Some(lossy_text(head_bytes(raw, limit)))
    }
}

/// The tail of an output that is longer than its head, as text.
pub open spec fn tail_text(raw: Seq<u8>, head_limit: nat, tail_limit: nat) -> Option<Seq<char>> {
    if raw.len() > head_limit && tail_limit > 0 {
        Some(lossy_text(raw.skip(tail_start(raw.len(), head_limit, tail_limit))))
    } else {
        None
    }
}

/// Distill raw output into bounded head + tail + full-content hash. When the
/// output fits within `head_limit` there is no tail; otherwise the head keeps
/// the first `head_limit` bytes and the tail the last `tail_limit` bytes.
pub fn distill_output(raw: &[u8], head_limit: usize, tail_limit: usize) -> (r: DistilledOutput)
    ensures
        r.hash@ == hash_text(raw@),
        r.truncated == (raw@.len() > head_limit),
        r.head.deep_view() == head_text(raw@, head_limit as nat),
        r.tail.deep_view() == tail_text(raw@, head_limit as nat, tail_limit as nat),
{
    let hash = hash_bytes(raw);
    let n = raw.len();
    if n == 0 {
        return DistilledOutput { head: None, tail: None, hash, truncated: false };
    }
    let truncated = n > head_limit;
    let cut: usize = if truncated {
        head_limit
    } else {
        n
    };
    let head = read_lossy(vstd::slice::slice_subrange(raw, 0, cut));
    let tail = if truncated && tail_limit > 0 {
        let start: usize = if n >= tail_limit && n - tail_limit > head_limit {
            n - tail_limit
        } else {
            head_limit
        };
        let t = vstd::slice::slice_subrange(raw, start, n);
        proof {
            assert(t@ =~= raw@.skip(start as int));
        }
        Some(read_lossy(t))
    } else {
        None
    };
    DistilledOutput { head: Some(head), tail, hash, truncated }
}

/// Substring markers that usually indicate the causal failure line in tool
/// output, ordered by specificity.
pub open spec fn markers() -> Seq<Seq<char>> {
    seq![
        "panicked at"@,
        "error["@,
        "error:"@,
        "Error:"@,
        "ERROR"@,
        "fatal:"@,
        "FAILED"@,
        "Traceback"@,
        "Exception"@,
        "assertion failed"@,
        "Segmentation fault"@,
        "command not found"@,
        "No such file or directory"@,
        "permission denied"@,
        "Permission denied"@,
    ]
}

fn causal_markers() -> (r: Vec<&'static str>)
    ensures
        r@.len() == markers().len(),
        forall|i: int| 0 <= i < r@.len() ==> (#[trigger] r@[i])@ == markers()[i],
{
    vec![
        "panicked at",
        "error[",
        "error:",
        "Error:",
        "ERROR",
        "fatal:",
        "FAILED",
        "Traceback",
        "Exception",
        "assertion failed",
        "Segmentation fault",
        "command not found",
        "No such file or directory",
        "permission denied",
        "Permission denied",
    ]
}

/// The first line from position `i` on that holds the marker.
pub open spec fn line_with(ls: Seq<Seq<char>>, marker: Seq<char>, i: int) -> Option<Seq<char>>
    decreases ls.len() - i,
{
    if i >= ls.len() {
        None
    } else if text::occurs_in(ls[i], marker) {
        Some(ls[i])
    } else {
        line_with(ls, marker, i + 1)
    }
}

/// The line with the first marker, from marker `m` on, that stands in any line.
pub open spec fn marked_line(ls: Seq<Seq<char>>, m: int) -> Option<Seq<char>>
    decreases markers().len() - m,
{
    if m >= markers().len() {
        None
    } else {
        match line_with(ls, markers()[m], 0) {
            Some(line) => Some(line),
            None => marked_line(ls, m + 1),
        }
    }
}

/// The first line from position `i` on that is not blank.
pub open spec fn first_written(ls: Seq<Seq<char>>, i: int) -> Option<Seq<char>>
    decreases ls.len() - i,
{
    if i >= ls.len() {
        None
    } else if trimmed(ls[i]).len() > 0 {
        Some(ls[i])
    } else {
        first_written(ls, i + 1)
    }
}

/// The most likely root-cause line of a text: one that holds a failure marker,
/// else the first that is not blank; trimmed, and cut to 400 bytes.
pub open spec fn causal_line(t: Seq<char>) -> Option<Seq<char>> {
    let ls = lines_of(t);
    match marked_line(ls, 0) {
        Some(line) => Some(capped(trimmed(line), 400)),
        None => match first_written(ls, 0) {
            Some(line) => Some(capped(trimmed(line), 400)),
            None => None,
        },
    }
}

fn shortened(line: &Vec<char>) -> (r: String)
    ensures
        r@ == capped(trimmed(line@), 400),
{
    let t = trim(line);
    let c = cap(&t, 400);
    text::string_of(&c)
}

fn find_line(ls: &Vec<Vec<char>>, marker: &str) -> (r: Option<usize>)
    ensures
        match r {
            Some(i) => i < ls.len() && line_with(ls.deep_view(), marker@, 0) == Some(
                ls@[i as int]@,
            ),
            None => line_with(ls.deep_view(), marker@, 0) is None,
        },
{
    let ghost lv = ls.deep_view();
    let m = text::chars_of(marker);
    let mut i: usize = 0;
    while i < ls.len()
        invariant
            i <= ls.len(),
            lv == ls.deep_view(),
            m@ == marker@,
            line_with(lv, marker@, 0) == line_with(lv, marker@, i as int),
        decreases ls.len() - i,
    {
        proof {
            assert(lv[i as int] == ls@[i as int].deep_view());
            assert(ls@[i as int].deep_view() == ls@[i as int]@);
        }
        if text::contains(&ls[i], &m) {
            return Some(i);
        }
        i = i + 1;
    }
    None
}

/// The most likely root-cause line of a failure text.
pub fn causal_failure(t: &str) -> (r: Option<String>)
    ensures
        r.deep_view() == causal_line(t@),
{
    let chars = text::chars_of(t);
    let ls = lines(&chars);
    let ghost lv = ls.deep_view();
    let ms = causal_markers();
    let mut m: usize = 0;
    while m < ms.len()
        invariant
            m <= ms.len(),
            ms@.len() == markers().len(),
            forall|i: int| 0 <= i < ms@.len() ==> (#[trigger] ms@[i])@ == markers()[i],
            lv == ls.deep_view(),
            lv == lines_of(t@),
            marked_line(lv, 0) == marked_line(lv, m as int),
        decreases ms.len() - m,
    {
        if let Some(i) = find_line(&ls, ms[m]) {
            return Some(shortened(&ls[i]));
        }
        m = m + 1;
    }
    let mut i: usize = 0;
    while i < ls.len()
        invariant
            i <= ls.len(),
            lv == ls.deep_view(),
            lv == lines_of(t@),
            marked_line(lv, 0) is None,
            first_written(lv, 0) == first_written(lv, i as int),
        decreases ls.len() - i,
    {
        proof {
            assert(lv[i as int] == ls@[i as int].deep_view());
            assert(ls@[i as int].deep_view() == ls@[i as int]@);
        }
        let bare = trim(&ls[i]);
        if bare.len() > 0 {
            return Some(shortened(&ls[i]));
        }
        i = i + 1;
    }
    None
}

/// Extract the most likely root-cause line from a failure stream. Scans the
/// whole stream for known failure markers (a compiler error can sit in the
/// middle, a test summary at the end); falls back to the first non-empty line.
/// Returned lines are trimmed and capped at 400 bytes.
pub fn extract_causal_failure(stream: &[u8]) -> (r: Option<String>)
    ensures
        r.deep_view() == causal_line(lossy_text(stream@)),
{
    let t = read_lossy(stream);
    causal_failure(t.as_str())
}

/// Head and tail never overlap, and together they hold all of the output that
/// fits in them.
pub proof fn law_head_and_tail_do_not_overlap(raw: Seq<u8>, head_limit: nat, tail_limit: nat)
    requires
        raw.len() > head_limit,
        tail_limit > 0,
    ensures
        head_bytes(raw, head_limit).len() <= tail_start(raw.len(), head_limit, tail_limit),
        raw.skip(tail_start(raw.len(), head_limit, tail_limit)).len() <= tail_limit,
        0 < raw.skip(tail_start(raw.len(), head_limit, tail_limit)).len(),
        raw.len() <= head_limit + tail_limit ==> head_bytes(raw, head_limit) + raw.skip(
            tail_start(raw.len(), head_limit, tail_limit),
        ) == raw,
{
}

/// A root-cause line takes at most 400 bytes in UTF-8.
pub proof fn law_causal_lines_are_short(t: Seq<char>)
    requires
        causal_line(t) is Some,
    ensures
        vstd::utf8::encode_utf8(causal_line(t)->0).len() <= 400,
{
    let ls = lines_of(t);
    if let Some(line) = marked_line(ls, 0) {
        crate::lines::law_capped_text_fits(trimmed(line), 400);
    } else if let Some(line) = first_written(ls, 0) {
        crate::lines::law_capped_text_fits(trimmed(line), 400);
    }
}

proof fn lemma_line_with(ls: Seq<Seq<char>>, marker: Seq<char>, i: int)
    requires
        0 <= i,
    ensures
        line_with(ls, marker, i) matches Some(line) ==> exists|k: int|
            i <= k < ls.len() && #[trigger] ls[k] == line && text::occurs_in(line, marker) && forall|
                j: int,
            |
                i <= j < k ==> !text::occurs_in(#[trigger] ls[j], marker),
        line_with(ls, marker, i) is None ==> forall|j: int|
            i <= j < ls.len() ==> !text::occurs_in(#[trigger] ls[j], marker),
    decreases ls.len() - i,
{
    if i < ls.len() {
        if text::occurs_in(ls[i], marker) {
            assert(ls[i] == ls[i]);
        } else {
            lemma_line_with(ls, marker, i + 1);
        }
    }
}

/// Of the marked lines that one is the cause whose marker says most: the first line
/// with the earliest marker that stands in any line. Nothing is marked exactly if no
/// marker stands in any line.
pub proof fn law_most_specific_marker_counts(ls: Seq<Seq<char>>, m: int)
    requires
        0 <= m,
    ensures
        marked_line(ls, m) matches Some(line) ==> exists|n: int, k: int|
            m <= n < markers().len() && 0 <= k < ls.len() && #[trigger] ls[k] == line
                && text::occurs_in(line, #[trigger] markers()[n]) && (forall|j: int|
                0 <= j < k ==> !text::occurs_in(#[trigger] ls[j], markers()[n])) && (forall|
                o: int,
                j: int,
            |
                m <= o < n && 0 <= j < ls.len() ==> !text::occurs_in(
                    #[trigger] ls[j],
                    #[trigger] markers()[o],
                )),
        marked_line(ls, m) is None ==> forall|o: int, j: int|
            m <= o < markers().len() && 0 <= j < ls.len() ==> !text::occurs_in(
                #[trigger] ls[j],
                #[trigger] markers()[o],
            ),
    decreases markers().len() - m,
{
    if m < markers().len() {
        lemma_line_with(ls, markers()[m], 0);
        if line_with(ls, markers()[m], 0) is None {
            law_most_specific_marker_counts(ls, m + 1);
        }
    }
}

/// A line that panicked is the cause before any other, the first of them; then one
/// with a numbered error.
pub proof fn law_panics_come_first(ls: Seq<Seq<char>>, k: int)
    requires
        0 <= k < ls.len(),
    ensures
        text::occurs_in(ls[k], "panicked at"@) && (forall|j: int|
            0 <= j < k ==> !text::occurs_in(#[trigger] ls[j], "panicked at"@)) ==> marked_line(
            ls,
            0,
        ) == Some(ls[k]),
        text::occurs_in(ls[k], "error["@) && (forall|j: int|
            0 <= j < ls.len() ==> !text::occurs_in(#[trigger] ls[j], "panicked at"@)) && (forall|
            j: int,
        |
            0 <= j < k ==> !text::occurs_in(#[trigger] ls[j], "error["@)) ==> marked_line(ls, 0)
            == Some(ls[k]),
{
    assert(markers()[0] == "panicked at"@ && markers()[1] == "error["@);
    lemma_line_with(ls, "panicked at"@, 0);
    lemma_line_with(ls, "error["@, 0);
    reveal_with_fuel(marked_line, 3);
}

/// Without a marker the cause is the first line with something on it; there is none
/// exactly if every line is blank.
pub proof fn law_first_written_line_is_the_cause(ls: Seq<Seq<char>>, i: int)
    requires
        0 <= i,
    ensures
        first_written(ls, i) matches Some(line) ==> exists|k: int|
            i <= k < ls.len() && #[trigger] ls[k] == line && trimmed(line).len() > 0 && forall|
                j: int,
            |
                i <= j < k ==> trimmed(#[trigger] ls[j]).len() == 0,
        first_written(ls, i) is None ==> forall|j: int|
            i <= j < ls.len() ==> trimmed(#[trigger] ls[j]).len() == 0,
    decreases ls.len() - i,
{
    if i < ls.len() {
        if trimmed(ls[i]).len() > 0 {
            assert(ls[i] == ls[i]);
        } else {
            law_first_written_line_is_the_cause(ls, i + 1);
        }
    }
}

/// The cause is reported trimmed, from the marked line where there is one and from
/// the first written line otherwise.
pub proof fn law_causes_are_reported_trimmed(t: Seq<char>)
    ensures
        marked_line(lines_of(t), 0) matches Some(line) ==> (causal_line(t) matches Some(c)
            && c.is_prefix_of(trimmed(line)) && (vstd::utf8::encode_utf8(trimmed(line)).len() <= 400
            ==> c == trimmed(line))),
        marked_line(lines_of(t), 0) is None ==> (first_written(lines_of(t), 0) matches Some(line)
            ==> (causal_line(t) matches Some(c) && c.is_prefix_of(trimmed(line)) && (
        vstd::utf8::encode_utf8(trimmed(line)).len() <= 400 ==> c == trimmed(line)))),
        causal_line(t) is None <==> marked_line(lines_of(t), 0) is None && first_written(
            lines_of(t),
            0,
        ) is None,
{
    if marked_line(lines_of(t), 0) is Some {
        crate::lines::law_capped_text_fits(trimmed(marked_line(lines_of(t), 0)->0), 400);
    } else if first_written(lines_of(t), 0) is Some {
        crate::lines::law_capped_text_fits(trimmed(first_written(lines_of(t), 0)->0), 400);
    }
}

/// The head of an output is its first bytes, all of it where it is short; a tail is
/// shown only of what does not fit.
pub proof fn law_heads_are_shown_of_all_output(raw: Seq<u8>, limit: nat, tail: nat)
    ensures
        head_text(raw, limit) is None <==> raw.len() == 0,
        0 < raw.len() <= limit ==> head_text(raw, limit) == Some(lossy_text(raw)),
        raw.len() > limit ==> head_text(raw, limit) == Some(lossy_text(raw.take(limit as int))),
        tail_text(raw, limit, tail) is Some <==> raw.len() > limit && tail > 0,
        tail > 0 && raw.len() >= limit + tail && raw.len() > limit ==> tail_text(raw, limit, tail)
            == Some(lossy_text(raw.skip(raw.len() - tail))),
        tail > 0 && limit < raw.len() < limit + tail ==> tail_text(raw, limit, tail) == Some(
            lossy_text(raw.skip(limit as int)),
        ),
{
    assert(raw.take(raw.len() as int) =~= raw);
}

/// In JSON an observation names its kind, and every part of it that is there stands
/// under its own name.
pub proof fn law_observations_are_told_in_full(v: ObservationView)
    ensures
        v.json() matches Json::Object(m) && m.contains_key("kind"@) && m["kind"@] == Json::Text(
            match v {
                ObservationView::Success { .. } => "success"@,
                ObservationView::Failure { .. } => "failure"@,
                ObservationView::Denied { .. } => "denied"@,
                ObservationView::EffectPending { .. } => "effect_pending"@,
                ObservationView::EffectCommitted { .. } => "effect_committed"@,
            },
        ),
        v matches ObservationView::Success {
            summary,
            data,
            stdout_head,
            stdout_tail,
            exit_code,
            full_output,
            truncated,
        } ==> {
            let m = v.json()->Object_0;
            &&& m.contains_key("summary"@) && m["summary"@] == Json::Text(summary)
            &&& m.contains_key("exit_code"@) && m["exit_code"@] == integer_json(exit_code as i64)
            &&& m.contains_key("full_output"@) && m["full_output"@] == Json::Text(full_output)
            &&& m.contains_key("truncated"@) && m["truncated"@] == Json::Bool(truncated)
            &&& m.contains_key("data"@) <==> data is Some
            &&& data matches Some(j) ==> m["data"@] == j
            &&& m.contains_key("stdout_head"@) <==> stdout_head is Some
            &&& stdout_head matches Some(t) ==> m["stdout_head"@] == Json::Text(t)
            &&& m.contains_key("stdout_tail"@) <==> stdout_tail is Some
            &&& stdout_tail matches Some(t) ==> m["stdout_tail"@] == Json::Text(t)
        },
        v matches ObservationView::Failure {
            summary,
            exit_code,
            first_causal_failure,
            output_tail,
            full_output,
        } ==> {
            let m = v.json()->Object_0;
            &&& m.contains_key("summary"@) && m["summary"@] == Json::Text(summary)
            &&& m.contains_key("exit_code"@) && m["exit_code"@] == integer_json(exit_code as i64)
            &&& m.contains_key("full_output"@) && m["full_output"@] == Json::Text(full_output)
            &&& m.contains_key("first_causal_failure"@) <==> first_causal_failure is Some
            &&& first_causal_failure matches Some(t) ==> m["first_causal_failure"@] == Json::Text(t)
            &&& m.contains_key("output_tail"@) <==> output_tail is Some
            &&& output_tail matches Some(t) ==> m["output_tail"@] == Json::Text(t)
        },
        v matches ObservationView::Denied { denial } ==> {
            let m = v.json()->Object_0;
            m.contains_key("denial"@) && m["denial"@] == denial.json()
        },
        v matches ObservationView::EffectPending { effect, contract_hash, class } ==> {
            let m = v.json()->Object_0;
            &&& m.contains_key("effect"@) && m["effect"@] == Json::Text(effect)
            &&& m.contains_key("contract_hash"@) && m["contract_hash"@] == Json::Text(contract_hash)
            &&& m.contains_key("class"@) && m["class"@] == Json::Text(class.spec_wire())
        },
        v matches ObservationView::EffectCommitted { receipt } ==> {
            let m = v.json()->Object_0;
            m.contains_key("receipt"@) && m["receipt"@] == Json::Text(receipt)
        },
{
    reveal_strlit("kind");
    reveal_strlit("summary");
    reveal_strlit("exit_code");
    reveal_strlit("full_output");
    reveal_strlit("truncated");
    reveal_strlit("data");
    reveal_strlit("stdout_head");
    reveal_strlit("stdout_tail");
    reveal_strlit("first_causal_failure");
    reveal_strlit("output_tail");
    reveal_strlit("denial");
    reveal_strlit("effect");
    reveal_strlit("contract_hash");
    reveal_strlit("class");
    reveal_strlit("receipt");
    assert("kind"@.len() == 4 && "summary"@.len() == 7 && "exit_code"@.len() == 9);
    assert("full_output"@.len() == 11 && "truncated"@.len() == 9 && "data"@.len() == 4);
    assert("stdout_head"@.len() == 11 && "stdout_tail"@.len() == 11);
    assert("first_causal_failure"@.len() == 20 && "output_tail"@.len() == 11);
    assert("denial"@.len() == 6 && "effect"@.len() == 6 && "contract_hash"@.len() == 13);
    assert("class"@.len() == 5 && "receipt"@.len() == 7);
    assert("kind"@[0] == 'k' && "data"@[0] == 'd');
    assert("exit_code"@[0] == 'e' && "truncated"@[0] == 't');
    assert("full_output"@[0] == 'f' && "stdout_head"@[0] == 's' && "output_tail"@[0] == 'o');
    assert("stdout_head"@[7] == 'h' && "stdout_tail"@[7] == 't');
}

/// What ran has an exit code; what was denied or waits has none.
pub proof fn law_only_what_ran_has_an_exit_code(o: Observation)
    ensures
        o matches Observation::Success { exit_code, .. } ==> o.spec_exit_code() == Some(exit_code),
        o matches Observation::Failure { exit_code, .. } ==> o.spec_exit_code() == Some(exit_code),
        o.spec_exit_code() is None <==> o is Denied || o is EffectPending || o is EffectCommitted,
{
}

} // verus!
