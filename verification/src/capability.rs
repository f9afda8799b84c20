//! Capability leases: time-bound, budgeted, attenuable authority.
//!
//! A lease binds a principal to a set of operations on constrained resources,
//! with an expiry, a use count, a budget, and optional preconditions on the
//! external world. Delegation is only ever attenuation: a child lease can
//! never grant more than its parent.
use indexmap::IndexMap;
use vstd::prelude::*;
use crate::budget::ResourceBudget;
use crate::constraints::{
    all_hold, clone_constraints, constraints_view, law_merging_never_widens,
    law_violation_iff_some_constraint_fails, merged, narrow_by, violated, violation, widened,
};
use crate::glob::{glob_match, globs};
use crate::ids::{BranchId, LeaseId, PrincipalId, generated};
use crate::json::{Json, JsonMap, Number, NumberView, Value, json_eq, norm, norm_number, text_of};
use crate::text;
use crate::time::Timestamp;

verus! {

/// A namespaced operation, e.g. `fs.write`, `net.http_get`,
/// `github.create_pull_request`, `mcp.invoke`.
#[derive(Debug, Hash)]
pub struct Operation(pub String);

impl Operation {
    pub open spec fn view(&self) -> Seq<char> {
        self.0@
    }

    /// The operation of the given name.
    pub fn new(s: &str) -> (r: Self)
        ensures
            r@ == s@,
    {
        Operation(s.to_owned())
    }

    /// The part before the first `.`, or all of it when there is none.
    pub fn namespace(&self) -> (r: &str)
        ensures
            r@ == self@.take(text::pos(self@, '.')),
    {
        let chars = text::chars_of(self.0.as_str());
        let k = text::pos_from(&chars, '.', 0);
        proof {
            assert(chars@.skip(0) == chars@);
        }
        self.0.as_str().substring_char(0, k)
    }
}

impl Clone for Operation {
    fn clone(&self) -> (r: Self)
        ensures
            r == *self,
    {
        Operation(self.0.clone())
    }
}

impl PartialEq for Operation {
    fn eq(&self, other: &Self) -> (r: bool) {
        self.0 == other.0
    }
}

impl Eq for Operation {

}

impl vstd::std_specs::cmp::PartialEqSpecImpl for Operation {
    open spec fn obeys_eq_spec() -> bool {
        true
    }

    open spec fn eq_spec(&self, other: &Self) -> bool {
        self@ == other@
    }
}

impl DeepView for Operation {
    type V = Seq<char>;

    open spec fn deep_view(&self) -> Seq<char> {
        self@
    }
}

/// The bits of the double that is nearest to the number a text denotes; `None`
/// when the text denotes no number, or that double is not finite.
pub uninterp spec fn double_bits(text: Seq<char>) -> Option<u64>;

/// `str::parse` into a double, which gives the nearest one to the number that the
/// text denotes, and `serde_json::Number::from_f64`, which takes the finite ones;
/// the double is handed on as its bits.
#[verifier::external_body]
fn read_double(text: &str) -> (r: Option<u64>)
    ensures
        r == double_bits(text@),
{
    match text.parse() {
        Ok(x) => match serde_json::Number::from_f64(x) {
            Some(n) => match n.as_f64() {
                Some(d) => Some(d.to_bits()),
                None => None,
            },
            None => None,
        },
        Err(_) => None,
    }
}

/// The bits are those of no number.
pub open spec fn is_nan(bits: u64) -> bool {
    magnitude(bits) > 0x7FF0_0000_0000_0000
}

/// The bits without the sign.
pub open spec fn magnitude(bits: u64) -> int {
    if bits >= 0x8000_0000_0000_0000 {
        bits - 0x8000_0000_0000_0000
    } else {
        bits as int
    }
}

/// The place of a double in the order of doubles; both zeros have place 0.
pub open spec fn double_place(bits: u64) -> int {
    if bits >= 0x8000_0000_0000_0000 {
        -magnitude(bits)
    } else {
        magnitude(bits)
    }
}

/// `a <= b` on doubles.
pub open spec fn double_le(a: u64, b: u64) -> bool {
    !is_nan(a) && !is_nan(b) && double_place(a) <= double_place(b)
}

/// The double that stands for a number. Zeros count without their sign.
pub open spec fn double_of(n: NumberView) -> Option<u64> {
    double_bits(number_text(norm_number(n)))
}

/// How a number reads in JSON.
pub open spec fn number_text(n: NumberView) -> Seq<char> {
    match n {
        NumberView::PosInt(v) => text::decimal(v as nat),
        NumberView::NegInt(v) => text::signed_decimal(v as int),
        NumberView::Float(t) => t,
    }
}

/// `a <= b` on numbers, both taken as doubles.
pub open spec fn number_le(a: NumberView, b: NumberView) -> bool {
    match (double_of(a), double_of(b)) {
        (Some(x), Some(y)) => double_le(x, y),
        _ => false,
    }
}

/// How a number reads in JSON.
pub fn write_number(n: &Number) -> (r: String)
    ensures
        r@ == number_text(n@),
{
    match n {
        Number::PosInt(v) => text::to_decimal(*v),
        Number::NegInt(v) => text::to_signed_decimal(*v),
        Number::Float(t) => t.clone(),
    }
}

fn number_double(n: &Number) -> (r: Option<u64>)
    ensures
        r == double_of(n@),
{
    let t = match n {
        Number::Float(t) => {
            if text::str_eq(t.as_str(), "-0.0") {
                "0.0".to_owned()
            } else {
                t.clone()
            }
        },
        _ => write_number(n),
    };
    read_double(t.as_str())
}

fn le_double(a: u64, b: u64) -> (r: bool)
    ensures
        r == double_le(a, b),
{
    let sign: u64 = 0x8000_0000_0000_0000;
    let nan: u64 = 0x7FF0_0000_0000_0000;
    let a_neg = a >= sign;
    let b_neg = b >= sign;
    let am: u64 = if a_neg { a - sign } else { a };
    let bm: u64 = if b_neg { b - sign } else { b };
    if am > nan || bm > nan {
        false
    } else if a_neg && b_neg {
        am >= bm
    } else if a_neg {
        true
    } else if b_neg {
        am == 0 && bm == 0
    } else {
        am <= bm
    }
}

fn le_number(a: &Number, b: &Number) -> (r: bool)
    ensures
        r == number_le(a@, b@),
{
    match (number_double(a), number_double(b)) {
        (Some(x), Some(y)) => le_double(x, y),
        _ => false,
    }
}

/// A deterministic constraint on one parameter of an operation.
#[derive(Debug)]
pub enum Constraint {
    /// Parameter must equal this JSON value exactly.
    Equals { value: Value },
    /// Parameter must be one of these values.
    OneOf { values: Vec<Value> },
    /// String parameter must match this glob (only `*` wildcards).
    Glob { pattern: String },
    /// String parameter must start with this prefix (e.g. path scoping).
    Prefix { prefix: String },
    /// Numeric parameter must be `<= max`.
    Max { max: Number },
    /// Parameter must be absent or JSON `false`.
    Forbidden,
}

/// What a [`Constraint`] says.
pub enum ConstraintView {
    Equals(Json),
    OneOf(Seq<Json>),
    Glob(Seq<char>),
    Prefix(Seq<char>),
    Max(NumberView),
    Forbidden,
}

/// One of the values equals `v`.
pub open spec fn among(values: Seq<Json>, v: Json) -> bool {
    exists|i: int| 0 <= i < values.len() && json_eq(#[trigger] values[i], v)
}

/// The constraint lets the parameter through; `None` means that it was not
/// supplied.
pub open spec fn permits(c: ConstraintView, v: Option<Json>) -> bool {
    match c {
        ConstraintView::Equals(want) => v is Some && json_eq(v->0, want),
        ConstraintView::OneOf(values) => v is Some && among(values, v->0),
        ConstraintView::Glob(pattern) => v is Some && text_of(v->0) is Some && globs(
            pattern,
            text_of(v->0)->0,
        ),
        ConstraintView::Prefix(prefix) => v is Some && text_of(v->0) is Some && prefix.is_prefix_of(
            text_of(v->0)->0,
        ),
        ConstraintView::Max(max) => match v {
            Some(Json::Number(n)) => number_le(n, max),
            _ => false,
        },
        ConstraintView::Forbidden => v is None || v->0 == Json::Bool(false),
    }
}

/// The two constraints are the same.
pub open spec fn constraint_eq(a: ConstraintView, b: ConstraintView) -> bool {
    match (a, b) {
        (ConstraintView::Equals(x), ConstraintView::Equals(y)) => json_eq(x, y),
        (ConstraintView::OneOf(xs), ConstraintView::OneOf(ys)) => xs.len() == ys.len() && forall|
            i: int,
        |
            0 <= i < xs.len() ==> json_eq(#[trigger] xs[i], ys[i]),
        (ConstraintView::Glob(x), ConstraintView::Glob(y)) => x == y,
        (ConstraintView::Prefix(x), ConstraintView::Prefix(y)) => x == y,
        (ConstraintView::Max(x), ConstraintView::Max(y)) => number_le(x, y) && number_le(y, x),
        (ConstraintView::Forbidden, ConstraintView::Forbidden) => true,
        _ => false,
    }
}

/// The child is shown to be at least as restrictive as the parent: it is the
/// same constraint, a list of values that the parent permits (a single value
/// is permitted by another value only as the same constraint), a longer
/// prefix, or a lower maximum.
pub open spec fn narrower(child: ConstraintView, parent: ConstraintView) -> bool {
    constraint_eq(child, parent) || match (child, parent) {
        (ConstraintView::Equals(v), ConstraintView::OneOf(_)) => permits(parent, Some(v)),
        (ConstraintView::Equals(v), ConstraintView::Glob(_)) => permits(parent, Some(v)),
        (ConstraintView::Equals(v), ConstraintView::Prefix(_)) => permits(parent, Some(v)),
        (ConstraintView::Equals(v), ConstraintView::Max(_)) => permits(parent, Some(v)),
        (ConstraintView::OneOf(values), _) => forall|i: int|
            0 <= i < values.len() ==> permits(parent, Some(#[trigger] values[i])),
        (ConstraintView::Prefix(c), ConstraintView::Prefix(p)) => p.is_prefix_of(c),
        (ConstraintView::Max(c), ConstraintView::Max(p)) => number_le(c, p),
        _ => false,
    }
}

/// What an optional value says.
pub open spec fn value_view(v: Option<&Value>) -> Option<Json> {
    match v {
        Some(x) => Some(x@),
        None => None,
    }
}

impl Constraint {
    pub open spec fn view(&self) -> ConstraintView {
        match self {
            Constraint::Equals { value } => ConstraintView::Equals(value@),
            Constraint::OneOf { values } => ConstraintView::OneOf(values.deep_view()),
            Constraint::Glob { pattern } => ConstraintView::Glob(pattern@),
            Constraint::Prefix { prefix } => ConstraintView::Prefix(prefix@),
            Constraint::Max { max } => ConstraintView::Max(max@),
            Constraint::Forbidden => ConstraintView::Forbidden,
        }
    }

    /// Check a candidate value against this constraint. `None` means the
    /// parameter was not supplied.
    pub fn allows(&self, value: Option<&Value>) -> (r: bool)
        ensures
            r == permits(self@, value_view(value)),
    {
        match value {
            Some(v) => self.allows_value(v),
            None => match self {
                Constraint::Forbidden => true,
                _ => false,
            },
        }
    }

    fn allows_value(&self, v: &Value) -> (r: bool)
        ensures
            r == permits(self@, Some(v@)),
    {
        match self {
            Constraint::Equals { value } => v.same(value),
            Constraint::OneOf { values } => contains_value(values, v),
            Constraint::Glob { pattern } => match v.as_str() {
                Some(s) => glob_match(pattern.as_str(), s),
                None => false,
            },
            Constraint::Prefix { prefix } => match v.as_str() {
                Some(s) => text::starts_with(s, prefix.as_str()),
                None => false,
            },
            Constraint::Max { max } => match v {
                Value::Number(n) => le_number(n, max),
                _ => false,
            },
            Constraint::Forbidden => match v {
                Value::Bool(b) => !*b,
                _ => false,
            },
        }
    }

    fn same(&self, other: &Constraint) -> (r: bool)
        ensures
            r == constraint_eq(self@, other@),
    {
        match (self, other) {
            (Constraint::Equals { value: a }, Constraint::Equals { value: b }) => a.same(b),
            (Constraint::OneOf { values: a }, Constraint::OneOf { values: b }) => {
                if a.len() != b.len() {
                    return false;
                }
                let mut i: usize = 0;
                while i < a.len()
                    invariant
                        i <= a.len(),
                        a.len() == b.len(),
                        self@ == ConstraintView::OneOf(a.deep_view()),
                        other@ == ConstraintView::OneOf(b.deep_view()),
                        forall|j: int|
                            0 <= j < i ==> json_eq(#[trigger] a.deep_view()[j], b.deep_view()[j]),
                    decreases a.len() - i,
                {
                    proof {
                        assert(a.deep_view()[i as int] == a@[i as int]@);
                        assert(b.deep_view()[i as int] == b@[i as int]@);
                    }
                    if !a[i].same(&b[i]) {
                        return false;
                    }
                    i = i + 1;
                }
                true
            },
            (Constraint::Glob { pattern: a }, Constraint::Glob { pattern: b }) => *a == *b,
            (Constraint::Prefix { prefix: a }, Constraint::Prefix { prefix: b }) => *a == *b,
            (Constraint::Max { max: a }, Constraint::Max { max: b }) => le_number(a, b)
                && le_number(b, a),
            (Constraint::Forbidden, Constraint::Forbidden) => true,
            _ => false,
        }
    }

    /// Is `self` at least as restrictive as `parent` for every possible value?
    /// Used to verify attenuation. Conservative: returns `false` when the
    /// relationship cannot be proven.
    pub fn narrows(&self, parent: &Constraint) -> (r: bool)
        ensures
            r == narrower(self@, parent@),
    {
        if self.same(parent) {
            return true;
        }
        match (self, parent) {
            (Constraint::Equals { value }, Constraint::OneOf { .. }) => parent.allows(Some(value)),
            (Constraint::Equals { value }, Constraint::Glob { .. }) => parent.allows(Some(value)),
            (Constraint::Equals { value }, Constraint::Prefix { .. }) => parent.allows(Some(value)),
            (Constraint::Equals { value }, Constraint::Max { .. }) => parent.allows(Some(value)),
            (Constraint::OneOf { values }, _) => {
                let mut i: usize = 0;
                while i < values.len()
                    invariant
                        i <= values.len(),
                        self@ == ConstraintView::OneOf(values.deep_view()),
                        !constraint_eq(self@, parent@),
                        forall|j: int|
                            0 <= j < i ==> permits(
                                parent@,
                                Some(#[trigger] values.deep_view()[j]),
                            ),
                    decreases values.len() - i,
                {
                    proof {
                        assert(values.deep_view()[i as int] == values@[i as int]@);
                    }
                    if !parent.allows(Some(&values[i])) {
                        return false;
                    }
                    i = i + 1;
                }
                true
            },
            (Constraint::Prefix { prefix: child }, Constraint::Prefix { prefix }) => {
                text::starts_with(child.as_str(), prefix.as_str())
            },
            (Constraint::Max { max: child }, Constraint::Max { max }) => le_number(child, max),
            _ => false,
        }
    }
}

fn contains_value(values: &Vec<Value>, v: &Value) -> (r: bool)
    ensures
        r == among(values.deep_view(), v@),
{
    let mut i: usize = 0;
    while i < values.len()
        invariant
            i <= values.len(),
            forall|j: int| 0 <= j < i ==> !json_eq(#[trigger] values.deep_view()[j], v@),
        decreases values.len() - i,
    {
        proof {
            assert(values.deep_view()[i as int] == values@[i as int]@);
        }
        if values[i].same(v) {
            return true;
        }
        i = i + 1;
    }
    false
}

impl Clone for Constraint {
    fn clone(&self) -> (r: Self)
        ensures
            r@ == self@,
    {
        match self {
            Constraint::Equals { value } => Constraint::Equals { value: value.clone() },
            Constraint::OneOf { values } => {
                let mut out: Vec<Value> = Vec::new();
                let mut i: usize = 0;
                while i < values.len()
                    invariant
                        i <= values.len(),
                        out.len() == i,
                        forall|j: int| 0 <= j < i ==> #[trigger] out@[j]@ == values@[j]@,
                    decreases values.len() - i,
                {
                    out.push(values[i].clone());
                    i = i + 1;
                }
                proof {
                    assert(out.deep_view() =~= values.deep_view());
                }
                Constraint::OneOf { values: out }
            },
            Constraint::Glob { pattern } => Constraint::Glob { pattern: pattern.clone() },
            Constraint::Prefix { prefix } => Constraint::Prefix { prefix: prefix.clone() },
            Constraint::Max { max } => Constraint::Max { max: max.clone() },
            Constraint::Forbidden => Constraint::Forbidden,
        }
    }
}

/// Equal values are permitted alike.
pub proof fn law_equal_values_are_permitted_alike(c: ConstraintView, v: Json, w: Json)
    requires
        json_eq(v, w),
    ensures
        permits(c, Some(v)) == permits(c, Some(w)),
{
    match c {
        ConstraintView::OneOf(values) => {
            if permits(c, Some(v)) {
                let i = choose|i: int|
                    0 <= i < values.len() && json_eq(#[trigger] values[i], v);
                assert(json_eq(values[i], w));
            }
            if permits(c, Some(w)) {
                let i = choose|i: int|
                    0 <= i < values.len() && json_eq(#[trigger] values[i], w);
                assert(json_eq(values[i], v));
            }
        },
        ConstraintView::Max(max) => {
            if let Json::Number(n) = v {
                assert(norm(v) == Json::Number(norm_number(n)));
                if let Json::Number(m) = w {
                    lemma_norm_number_idempotent(n);
                    lemma_norm_number_idempotent(m);
                }
            }
        },
        _ => {},
    }
}

proof fn lemma_norm_number_idempotent(n: NumberView)
    ensures
        norm_number(norm_number(n)) == norm_number(n),
{
    reveal_strlit("0.0");
    reveal_strlit("-0.0");
    assert("0.0"@.len() != "-0.0"@.len());
}

/// A constraint that narrows another permits nothing that the other refuses.
pub proof fn law_narrowing_never_widens(
    child: ConstraintView,
    parent: ConstraintView,
    v: Option<Json>,
)
    requires
        narrower(child, parent),
        permits(child, v),
    ensures
        permits(parent, v),
{
    if constraint_eq(child, parent) {
        if let ConstraintView::OneOf(xs) = child {
            let i = choose|i: int| 0 <= i < xs.len() && json_eq(#[trigger] xs[i], v->0);
            let ys = parent->OneOf_0;
            assert(json_eq(ys[i], v->0));
        }
    } else {
        match child {
            ConstraintView::Equals(want) => {
                law_equal_values_are_permitted_alike(parent, v->0, want);
            },
            ConstraintView::OneOf(values) => {
                let i = choose|i: int|
                    0 <= i < values.len() && json_eq(#[trigger] values[i], v->0);
                law_equal_values_are_permitted_alike(parent, values[i], v->0);
            },
            ConstraintView::Prefix(c) => {
                let p = parent->Prefix_0;
                let s = text_of(v->0)->0;
                assert(p == c.subrange(0, p.len() as int));
                assert(c == s.subrange(0, c.len() as int));
                assert(p =~= s.subrange(0, p.len() as int));
            },
            _ => {},
        }
    }
}

/// Every constraint narrows itself, except a maximum that is no number.
pub proof fn law_narrowing_is_reflexive(c: ConstraintView)
    requires
        c matches ConstraintView::Max(n) ==> number_le(n, n),
    ensures
        narrower(c, c),
{
}

/// A grant of bounded authority to one principal.
#[derive(Debug)]
pub struct CapabilityLease {
    pub id: LeaseId,
    pub principal: PrincipalId,
    pub operation: Operation,
    /// Constraints keyed by canonical parameter name.
    pub constraints: IndexMap<String, Constraint>,
    /// Remaining invocation count.
    pub remaining_uses: u32,
    pub issued_at: Timestamp,
    pub expires_at: Timestamp,
    /// Branch this lease is bound to, if any: authority does not follow the
    /// agent across speculative branches unless explicitly rebound.
    pub bound_branch: Option<BranchId>,
    pub budget: ResourceBudget,
    /// Lease this one was attenuated from, for the audit chain.
    pub parent_lease: Option<LeaseId>,
    /// Deterministic preconditions revalidated at commit time,
    /// e.g. `{"repo_head_sha": "abc123"}`.
    pub preconditions: JsonMap,
    pub revoked: bool,
}

/// What a [`CapabilityLease`] says.
#[verifier::ext_equal]
pub struct LeaseView {
    pub id: Seq<char>,
    pub principal: Seq<char>,
    pub operation: Seq<char>,
    pub constraints: Seq<(Seq<char>, ConstraintView)>,
    pub remaining_uses: u32,
    pub issued_at: Timestamp,
    pub expires_at: Timestamp,
    pub bound_branch: Option<Seq<char>>,
    pub budget: ResourceBudget,
    pub parent_lease: Option<Seq<char>>,
    pub preconditions: Map<Seq<char>, Json>,
    pub revoked: bool,
}

/// Why a lease does not authorize an invocation.
#[derive(Debug)]
pub enum LeaseCheckFailure {
    Revoked,
    Expired { expired_at: Timestamp },
    Exhausted,
    WrongPrincipal,
    WrongOperation { granted: Operation },
    WrongBranch { bound: BranchId },
    ConstraintViolated { parameter: String },
}

/// What a [`LeaseCheckFailure`] says.
pub enum LeaseFailureView {
    Revoked,
    Expired(Timestamp),
    Exhausted,
    WrongPrincipal,
    WrongOperation(Seq<char>),
    WrongBranch(Seq<char>),
    ConstraintViolated(Seq<char>),
}

impl LeaseCheckFailure {
    pub open spec fn view(&self) -> LeaseFailureView {
        match self {
            LeaseCheckFailure::Revoked => LeaseFailureView::Revoked,
            LeaseCheckFailure::Expired { expired_at } => LeaseFailureView::Expired(*expired_at),
            LeaseCheckFailure::Exhausted => LeaseFailureView::Exhausted,
            LeaseCheckFailure::WrongPrincipal => LeaseFailureView::WrongPrincipal,
            LeaseCheckFailure::WrongOperation { granted } => LeaseFailureView::WrongOperation(
                granted@,
            ),
            LeaseCheckFailure::WrongBranch { bound } => LeaseFailureView::WrongBranch(bound@),
            LeaseCheckFailure::ConstraintViolated { parameter } => {
                LeaseFailureView::ConstraintViolated(parameter@)
            },
        }
    }
}

impl LeaseView {
    /// The lease can still be used at `now`: it is not revoked, not expired and
    /// not used up.
    pub open spec fn active(self, now: Timestamp) -> bool {
        !self.revoked && now.before(self.expires_at) && self.remaining_uses > 0
    }

    /// The lease is bound to no branch, or to the given one.
    pub open spec fn branch_ok(self, branch: Option<Seq<char>>) -> bool {
        self.bound_branch is None || branch == self.bound_branch
    }

    /// The lease authorizes the invocation.
    pub open spec fn authorizes(
        self,
        principal: Seq<char>,
        operation: Seq<char>,
        params: Json,
        branch: Option<Seq<char>>,
        now: Timestamp,
    ) -> bool {
        &&& self.active(now)
        &&& self.principal == principal
        &&& self.operation == operation
        &&& self.branch_ok(branch)
        &&& all_hold(self.constraints, params)
    }

    /// The reason, the first in the order of the checks, why the lease does not
    /// authorize the invocation; `None` when it does.
    pub open spec fn refusal(
        self,
        principal: Seq<char>,
        operation: Seq<char>,
        params: Json,
        branch: Option<Seq<char>>,
        now: Timestamp,
    ) -> Option<LeaseFailureView> {
        if self.revoked {
            Some(LeaseFailureView::Revoked)
        } else if !now.before(self.expires_at) {
            Some(LeaseFailureView::Expired(self.expires_at))
        } else if self.remaining_uses == 0 {
            Some(LeaseFailureView::Exhausted)
        } else if self.principal != principal {
            Some(LeaseFailureView::WrongPrincipal)
        } else if self.operation != operation {
            Some(LeaseFailureView::WrongOperation(self.operation))
        } else if !self.branch_ok(branch) {
            Some(LeaseFailureView::WrongBranch(self.bound_branch->0))
        } else {
            match violated(self.constraints, params) {
                Some(p) => Some(LeaseFailureView::ConstraintViolated(p)),
                None => None,
            }
        }
    }
}

/// A lease is not refused exactly when it authorizes the invocation.
pub proof fn law_refusal_iff_not_authorized(
    lease: LeaseView,
    principal: Seq<char>,
    operation: Seq<char>,
    params: Json,
    branch: Option<Seq<char>>,
    now: Timestamp,
)
    ensures
        lease.refusal(principal, operation, params, branch, now) is None <==> lease.authorizes(
            principal,
            operation,
            params,
            branch,
            now,
        ),
{
    law_violation_iff_some_constraint_fails(lease.constraints, params);
}

/// What an optional branch says.
pub open spec fn branch_view(b: Option<&BranchId>) -> Option<Seq<char>> {
    match b {
        Some(x) => Some(x@),
        None => None,
    }
}

impl CapabilityLease {
    pub open spec fn view(&self) -> LeaseView {
        LeaseView {
            id: self.id@,
            principal: self.principal@,
            operation: self.operation@,
            constraints: constraints_view(self.constraints),
            remaining_uses: self.remaining_uses,
            issued_at: self.issued_at,
            expires_at: self.expires_at,
            bound_branch: self.bound_branch.deep_view(),
            budget: self.budget,
            parent_lease: self.parent_lease.deep_view(),
            preconditions: self.preconditions@,
            revoked: self.revoked,
        }
    }

    /// Checks that this lease authorizes `principal` to invoke `operation` with
    /// `params` on `branch` at `now`.
    pub fn check(
        &self,
        principal: &PrincipalId,
        operation: &Operation,
        params: &Value,
        branch: Option<&BranchId>,
        now: Timestamp,
    ) -> (r: Result<(), LeaseCheckFailure>)
        ensures
            r is Ok == self@.refusal(
                principal@,
                operation@,
                params@,
                branch_view(branch),
                now,
            ) is None,
            r matches Err(f) ==> self@.refusal(
                principal@,
                operation@,
                params@,
                branch_view(branch),
                now,
            ) == Some(f@),
    {
        if self.revoked {
            return Err(LeaseCheckFailure::Revoked);
        }
        if !now.is_before(&self.expires_at) {
            return Err(LeaseCheckFailure::Expired { expired_at: self.expires_at });
        }
        if self.remaining_uses == 0 {
            return Err(LeaseCheckFailure::Exhausted);
        }
        if self.principal != *principal {
            return Err(LeaseCheckFailure::WrongPrincipal);
        }
        if self.operation != *operation {
            return Err(LeaseCheckFailure::WrongOperation { granted: self.operation.clone() });
        }
        if let Some(bound) = &self.bound_branch {
            let same = match branch {
                Some(b) => *b == *bound,
                None => false,
            };
            if !same {
                return Err(LeaseCheckFailure::WrongBranch { bound: bound.clone() });
            }
        }
        match violation(&self.constraints, params) {
            Some(parameter) => Err(LeaseCheckFailure::ConstraintViolated { parameter }),
            None => Ok(()),
        }
    }
}

impl DeepView for CapabilityLease {
    type V = LeaseView;

    open spec fn deep_view(&self) -> LeaseView {
        self@
    }
}

impl Clone for CapabilityLease {
    fn clone(&self) -> (r: Self)
        ensures
            r@ == self@,
    {
        let bound_branch = match &self.bound_branch {
            Some(b) => Some(b.clone()),
            None => None,
        };
        let parent_lease = match &self.parent_lease {
            Some(p) => Some(p.clone()),
            None => None,
        };
        CapabilityLease {
            id: self.id.clone(),
            principal: self.principal.clone(),
            operation: self.operation.clone(),
            constraints: clone_constraints(&self.constraints),
            remaining_uses: self.remaining_uses,
            issued_at: self.issued_at,
            expires_at: self.expires_at,
            bound_branch,
            budget: self.budget,
            parent_lease,
            preconditions: self.preconditions.clone(),
            revoked: self.revoked,
        }
    }
}

/// Why a lease cannot be attenuated as asked.
#[derive(Debug)]
pub enum AttenuationError {
    /// More uses are asked for than the parent has left.
    MoreUses,
    /// The child would outlive its parent.
    LongerLife,
    /// The child's budget does not fit within the parent's.
    LargerBudget,
    /// A constraint does not narrow the parent's on the same parameter.
    Widened { parameter: String },
}

/// What an [`AttenuationError`] says.
pub enum AttenuationView {
    MoreUses,
    LongerLife,
    LargerBudget,
    Widened(Seq<char>),
}

impl AttenuationError {
    pub open spec fn view(&self) -> AttenuationView {
        match self {
            AttenuationError::MoreUses => AttenuationView::MoreUses,
            AttenuationError::LongerLife => AttenuationView::LongerLife,
            AttenuationError::LargerBudget => AttenuationView::LargerBudget,
            AttenuationError::Widened { parameter } => AttenuationView::Widened(parameter@),
        }
    }

    /// The error as people read it.
    pub open spec fn spec_message(&self) -> Seq<char> {
        match self {
            AttenuationError::MoreUses => "more uses than the parent lease has left"@,
            AttenuationError::LongerLife => "the child lease would outlive its parent"@,
            AttenuationError::LargerBudget => "the budget exceeds that of the parent lease"@,
            AttenuationError::Widened { parameter } => "the constraint on `"@ + parameter@
                + "` does not narrow that of the parent lease"@,
        }
    }

    /// The error as people read it.
    pub fn message(&self) -> (r: String)
        ensures
            r@ == self.spec_message(),
    {
        match self {
            AttenuationError::MoreUses => "more uses than the parent lease has left".to_owned(),
            AttenuationError::LongerLife => "the child lease would outlive its parent".to_owned(),
            AttenuationError::LargerBudget => "the budget exceeds that of the parent lease".to_owned(),
            AttenuationError::Widened { parameter } => text::cat3(
                "the constraint on `",
                parameter.as_str(),
                "` does not narrow that of the parent lease",
            ),
        }
    }
}

/// What is asked of an attenuated lease.
#[verifier::ext_equal]
pub struct ShareView {
    pub principal: Seq<char>,
    pub constraints: Seq<(Seq<char>, ConstraintView)>,
    pub uses: u32,
    pub expires_at: Timestamp,
    pub budget: ResourceBudget,
}

impl LeaseView {
    /// Why the lease cannot be attenuated as asked, the first reason in the
    /// order of the checks; `None` when it can.
    pub open spec fn attenuation_refusal(self, share: ShareView) -> Option<AttenuationView> {
        if share.uses > self.remaining_uses {
            Some(AttenuationView::MoreUses)
        } else if self.expires_at.before(share.expires_at) {
            Some(AttenuationView::LongerLife)
        } else if !share.budget.within(self.budget) {
            Some(AttenuationView::LargerBudget)
        } else {
            match widened(self.constraints, share.constraints) {
                Some(p) => Some(AttenuationView::Widened(p)),
                None => None,
            }
        }
    }

    /// The attenuated lease, under the given fresh identifier: the same
    /// operation, branch and preconditions, and every constraint of the parent
    /// or one that narrows it.
    pub open spec fn attenuated(self, share: ShareView, id: Seq<char>, now: Timestamp) -> LeaseView {
        LeaseView {
            id,
            principal: share.principal,
            operation: self.operation,
            constraints: merged(self.constraints, share.constraints),
            remaining_uses: share.uses,
            issued_at: now,
            expires_at: share.expires_at,
            bound_branch: self.bound_branch,
            budget: share.budget,
            parent_lease: Some(self.id),
            preconditions: self.preconditions,
            revoked: false,
        }
    }
}

impl CapabilityLease {
    /// A lease derived from this one for another principal. It can never grant
    /// more than this one does.
    pub fn attenuate(
        &self,
        principal: &PrincipalId,
        constraints: &IndexMap<String, Constraint>,
        uses: u32,
        expires_at: Timestamp,
        budget: ResourceBudget,
        now: Timestamp,
    ) -> (r: Result<CapabilityLease, AttenuationError>)
        ensures
            ({
                let share = ShareView {
                    principal: principal@,
                    constraints: constraints_view(*constraints),
                    uses,
                    expires_at,
                    budget,
                };
                match r {
                    Ok(child) => {
                        &&& self@.attenuation_refusal(share) is None
                        &&& generated(child.id@, "lease-"@)
                        &&& child@ == self@.attenuated(share, child.id@, now)
                    },
                    Err(e) => self@.attenuation_refusal(share) == Some(e@),
                }
            }),
    {
        if uses > self.remaining_uses {
            return Err(AttenuationError::MoreUses);
        }
        if self.expires_at.is_before(&expires_at) {
            return Err(AttenuationError::LongerLife);
        }
        if !budget.fits_within(&self.budget) {
            return Err(AttenuationError::LargerBudget);
        }
        let narrowed = match narrow_by(&self.constraints, constraints) {
            Ok(m) => m,
            Err(parameter) => {
                return Err(AttenuationError::Widened { parameter });
            },
        };
        let bound_branch = match &self.bound_branch {
            Some(b) => Some(b.clone()),
            None => None,
        };
        Ok(
            CapabilityLease {
                id: LeaseId::generate(),
                principal: principal.clone(),
                operation: self.operation.clone(),
                constraints: narrowed,
                remaining_uses: uses,
                issued_at: now,
                expires_at,
                bound_branch,
                budget,
                parent_lease: Some(self.id.clone()),
                preconditions: self.preconditions.clone(),
                revoked: false,
            },
        )
    }
}

/// A child lease never grants more than its parent: what it authorizes is the
/// parent's operation, on the parent's branch, within the parent's life, with
/// parameters that the parent's constraints let through, and neither its budget
/// nor its uses exceed the parent's.
pub proof fn law_attenuation_never_escalates(
    parent: LeaseView,
    share: ShareView,
    id: Seq<char>,
    issued: Timestamp,
    operation: Seq<char>,
    params: Json,
    branch: Option<Seq<char>>,
    now: Timestamp,
)
    requires
        parent.attenuation_refusal(share) is None,
        parent.attenuated(share, id, issued).authorizes(
            share.principal,
            operation,
            params,
            branch,
            now,
        ),
    ensures
        operation == parent.operation,
        parent.branch_ok(branch),
        now.before(parent.expires_at),
        all_hold(parent.constraints, params),
        share.budget.within(parent.budget),
        share.uses <= parent.remaining_uses,
{
    law_merging_never_widens(parent.constraints, share.constraints, params);
}

/// What each kind of constraint lets through: the one value, one of the values, a
/// text that matches the pattern, a text that begins with the prefix, a number up to
/// the maximum; and of what is forbidden nothing, or an explicit `false`.
pub proof fn law_constraints_let_through_by_kind(
    v: Json,
    want: Json,
    values: Seq<Json>,
    t: Seq<char>,
    max: NumberView,
)
    ensures
        permits(ConstraintView::Equals(want), Some(v)) <==> json_eq(v, want),
        permits(ConstraintView::OneOf(values), Some(v)) <==> exists|i: int|
            0 <= i < values.len() && json_eq(#[trigger] values[i], v),
        permits(ConstraintView::Glob(t), Some(v)) <==> (v matches Json::Text(s) && globs(t, s)),
        permits(ConstraintView::Prefix(t), Some(v)) <==> (v matches Json::Text(s) && s.len()
            >= t.len() && s.take(t.len() as int) == t),
        permits(ConstraintView::Max(max), Some(v)) <==> (v matches Json::Number(n) && number_le(
            n,
            max,
        )),
        permits(ConstraintView::Forbidden, Some(v)) <==> v == Json::Bool(false),
        !permits(ConstraintView::Equals(want), None),
        !permits(ConstraintView::OneOf(values), None),
        !permits(ConstraintView::Glob(t), None),
        !permits(ConstraintView::Prefix(t), None),
        !permits(ConstraintView::Max(max), None),
        permits(ConstraintView::Forbidden, None),
{
    if let Json::Text(s) = v {
        if t.is_prefix_of(s) {
            assert(s.take(t.len() as int) =~= t);
        }
        if s.len() >= t.len() && s.take(t.len() as int) == t {
            assert forall|i: int| 0 <= i < t.len() implies t[i] == s[i] by {
                assert(s.take(t.len() as int)[i] == s[i]);
            }
            assert(t.is_prefix_of(s));
        }
    }
}

/// Doubles compare as their values do: positive ones by their bits, negative ones
/// the other way round, negative ones below positive ones, the zeros alike, and what
/// is no number not at all.
pub proof fn law_doubles_compare_as_numbers(a: u64, b: u64)
    ensures
        a < b <= 0x7FF0_0000_0000_0000 ==> double_le(a, b) && !double_le(b, a),
        0x8000_0000_0000_0000 <= a < b <= 0xFFF0_0000_0000_0000 ==> double_le(b, a) && !double_le(
            a,
            b,
        ),
        0x8000_0000_0000_0000 < a <= 0xFFF0_0000_0000_0000 && b <= 0x7FF0_0000_0000_0000
            ==> double_le(a, b) && !double_le(b, a),
        double_le(0x8000_0000_0000_0000, 0) && double_le(0, 0x8000_0000_0000_0000),
        a <= 0x7FF0_0000_0000_0000 ==> double_le(a, a),
        0x7FF0_0000_0000_0000 < a < 0x8000_0000_0000_0000 || a > 0xFFF0_0000_0000_0000
            ==> !double_le(a, b) && !double_le(b, a),
{
}

/// Numbers compare as the doubles nearest to their texts, the two zeros alike.
pub proof fn law_numbers_compare_as_doubles(a: NumberView, b: NumberView)
    ensures
        number_le(a, b) <==> (double_of(a) matches Some(x) && double_of(b) matches Some(y)
            && double_le(x, y)),
        a matches NumberView::Float(t) ==> t != "-0.0"@ ==> double_of(a) == double_bits(t),
        a matches NumberView::PosInt(n) ==> double_of(a) == double_bits(text::decimal(n as nat)),
        a matches NumberView::NegInt(n) ==> double_of(a) == double_bits(
            text::signed_decimal(n as int),
        ),
{
}

/// Which constraints narrow which: a value one that lets it through, a list one that
/// lets all of it through, a longer prefix a shorter one, a lower maximum a higher
/// one; a pattern and a prohibition nothing but themselves.
pub proof fn law_narrowing_by_kind(
    v: Json,
    values: Seq<Json>,
    t: Seq<char>,
    u: Seq<char>,
    m: NumberView,
    n: NumberView,
    parent: ConstraintView,
)
    ensures
        narrower(ConstraintView::Equals(v), ConstraintView::OneOf(values)) <==> permits(
            ConstraintView::OneOf(values),
            Some(v),
        ),
        narrower(ConstraintView::Equals(v), ConstraintView::Glob(t)) <==> permits(
            ConstraintView::Glob(t),
            Some(v),
        ),
        narrower(ConstraintView::Equals(v), ConstraintView::Prefix(t)) <==> permits(
            ConstraintView::Prefix(t),
            Some(v),
        ),
        narrower(ConstraintView::Equals(v), ConstraintView::Max(m)) <==> permits(
            ConstraintView::Max(m),
            Some(v),
        ),
        narrower(ConstraintView::Prefix(t), ConstraintView::Prefix(u)) <==> t == u
            || u.is_prefix_of(t),
        number_le(m, n) ==> narrower(ConstraintView::Max(m), ConstraintView::Max(n)),
        narrower(ConstraintView::Max(m), ConstraintView::Max(n)) ==> number_le(m, n),
        !(parent is OneOf) ==> (narrower(ConstraintView::OneOf(values), parent) <==> forall|i: int|
            0 <= i < values.len() ==> permits(parent, Some(#[trigger] values[i]))),
        narrower(ConstraintView::Glob(t), parent) <==> parent == ConstraintView::Glob(t),
        narrower(ConstraintView::Forbidden, parent) <==> parent is Forbidden,
{
}

/// A lease authorizes exactly the invocations of its own principal and operation, on
/// its branch where it is bound to one, while it is not revoked, not expired and not
/// used up, with parameters that every constraint lets through.
pub proof fn law_leases_authorize_what_they_say(
    l: LeaseView,
    principal: Seq<char>,
    operation: Seq<char>,
    params: Json,
    branch: Option<Seq<char>>,
    now: Timestamp,
)
    ensures
        l.refusal(principal, operation, params, branch, now) is None <==> {
            &&& !l.revoked
            &&& now.secs < l.expires_at.secs || (now.secs == l.expires_at.secs && now.nanos
                < l.expires_at.nanos)
            &&& l.remaining_uses > 0
            &&& l.principal == principal
            &&& l.operation == operation
            &&& l.bound_branch matches Some(b) ==> branch == Some(b)
            &&& forall|i: int|
                0 <= i < l.constraints.len() ==> permits(
                    (#[trigger] l.constraints[i]).1,
                    crate::json::member(params, l.constraints[i].0),
                )
        },
        l.active(now) <==> !l.revoked && now.before(l.expires_at) && l.remaining_uses > 0,
{
    crate::constraints::law_every_constraint_counts(l.constraints, params);
}

/// Why a lease is refused: that it is revoked comes before that it has expired, this
/// before that it is used up, and these before whom, what, where and how it is for.
pub proof fn law_refusals_name_the_first_reason(
    l: LeaseView,
    principal: Seq<char>,
    operation: Seq<char>,
    params: Json,
    branch: Option<Seq<char>>,
    now: Timestamp,
)
    ensures
        ({
            let r = l.refusal(principal, operation, params, branch, now);
            let dead = l.revoked || !now.before(l.expires_at) || l.remaining_uses == 0;
            let foreign = dead || l.principal != principal;
            let other = foreign || l.operation != operation;
            let elsewhere = l.bound_branch is Some && branch != l.bound_branch;
            &&& l.revoked ==> r == Some(LeaseFailureView::Revoked)
            &&& !l.revoked && !now.before(l.expires_at) ==> r == Some(
                LeaseFailureView::Expired(l.expires_at),
            )
            &&& !l.revoked && now.before(l.expires_at) && l.remaining_uses == 0 ==> r == Some(
                LeaseFailureView::Exhausted,
            )
            &&& !dead && l.principal != principal ==> r == Some(LeaseFailureView::WrongPrincipal)
            &&& !foreign && l.operation != operation ==> r == Some(
                LeaseFailureView::WrongOperation(l.operation),
            )
            &&& !other && elsewhere ==> r == Some(LeaseFailureView::WrongBranch(l.bound_branch->0))
            &&& !other && !elsewhere ==> match violated(l.constraints, params) {
                Some(p) => r == Some(LeaseFailureView::ConstraintViolated(p)),
                None => r is None,
            }
        }),
{
}

/// A lease can be attenuated exactly to a share with no more uses, no longer life, no
/// larger budget, and no constraint that widens one of its own. Of several reasons
/// against it the first in this order is given.
pub proof fn law_shares_fit_the_parent(parent: LeaseView, share: ShareView)
    ensures
        parent.attenuation_refusal(share) is None <==> {
            &&& share.uses <= parent.remaining_uses
            &&& !parent.expires_at.before(share.expires_at)
            &&& share.budget.within(parent.budget)
            &&& widened(parent.constraints, share.constraints) is None
        },
        share.uses > parent.remaining_uses ==> parent.attenuation_refusal(share) == Some(
            AttenuationView::MoreUses,
        ),
        share.uses <= parent.remaining_uses && parent.expires_at.before(share.expires_at)
            ==> parent.attenuation_refusal(share) == Some(AttenuationView::LongerLife),
        share.uses <= parent.remaining_uses && !parent.expires_at.before(share.expires_at)
            && !share.budget.within(parent.budget) ==> parent.attenuation_refusal(share) == Some(
            AttenuationView::LargerBudget,
        ),
{
}

/// The share becomes a lease of the one it is for, with its uses, life and budget,
/// under the parent's operation, branch and preconditions, and named as the parent's
/// child. The constraints of both count.
pub proof fn law_shares_become_leases(
    parent: LeaseView,
    share: ShareView,
    id: Seq<char>,
    now: Timestamp,
)
    ensures
        ({
            let l = parent.attenuated(share, id, now);
            &&& l.id == id
            &&& l.principal == share.principal
            &&& l.operation == parent.operation
            &&& l.remaining_uses == share.uses
            &&& l.issued_at == now
            &&& l.expires_at == share.expires_at
            &&& l.bound_branch == parent.bound_branch
            &&& l.budget == share.budget
            &&& l.parent_lease == Some(parent.id)
            &&& l.preconditions == parent.preconditions
            &&& !l.revoked
            &&& l.constraints == merged(parent.constraints, share.constraints)
        }),
{
}

/// What stands against a share reads as what it is about; a widened constraint is named
/// by its parameter.
pub proof fn law_refused_shares_read_as_why(e: AttenuationError)
    ensures
        e is MoreUses ==> e.spec_message() == "more uses than the parent lease has left"@,
        e is LongerLife ==> e.spec_message() == "the child lease would outlive its parent"@,
        e is LargerBudget ==> e.spec_message() == "the budget exceeds that of the parent lease"@,
        e matches AttenuationError::Widened { parameter } ==> e.spec_message()
            == "the constraint on `"@ + parameter@ + "` does not narrow that of the parent lease"@,
{
}

} // verus!
