//! Constraints keyed by parameter name, in the order in which they were given.
use indexmap::IndexMap;
use vstd::prelude::*;
use crate::capability::{
    Constraint, ConstraintView, law_narrowing_never_widens, narrower, permits, value_view,
};
use crate::json::{Json, Value, member};

verus! {

#[verifier::external_type_specification]
#[verifier::external_body]
#[verifier::reject_recursive_types(K)]
#[verifier::reject_recursive_types(V)]
#[verifier::reject_recursive_types(S)]
pub struct ExIndexMap<K, V, S>(IndexMap<K, V, S>);

/// What an index map of constraints holds, in insertion order.
pub uninterp spec fn entries(m: IndexMap<String, Constraint>) -> Seq<(Seq<char>, Constraint)>;

/// The first position of `key`, or the length when it is absent.
pub open spec fn key_index<T>(es: Seq<(Seq<char>, T)>, key: Seq<char>) -> int
    decreases es.len(),
{
    if es.len() == 0 {
        0
    } else if es[0].0 == key {
        0
    } else {
        1 + key_index(es.skip(1), key)
    }
}

/// `IndexMap::new`: the map without entries.
#[verifier::external_body]
pub(crate) fn no_constraints() -> (r: IndexMap<String, Constraint>)
    ensures
        entries(r).len() == 0,
{
    IndexMap::new()
}

/// `IndexMap::len`: the number of entries.
#[verifier::external_body]
pub(crate) fn count(m: &IndexMap<String, Constraint>) -> (n: usize)
    ensures
        n == entries(*m).len(),
{
    m.len()
}

/// `IndexMap::get_index`: the entry at a position. No earlier entry has its
/// key.
#[verifier::external_body]
pub(crate) fn entry_at(m: &IndexMap<String, Constraint>, i: usize) -> (r: (&String, &Constraint))
    requires
        i < entries(*m).len(),
    ensures
        r.0@ == entries(*m)[i as int].0,
        *r.1 == entries(*m)[i as int].1,
        forall|j: int| 0 <= j < i ==> (#[trigger] entries(*m)[j]).0 != r.0@,
{
    m.get_index(i).unwrap()
}

/// `IndexMap::get`: the value under a key.
#[verifier::external_body]
pub(crate) fn get<'a>(m: &'a IndexMap<String, Constraint>, key: &str) -> (r: Option<&'a Constraint>)
    ensures
        r is Some == (key_index(entries(*m), key@) < entries(*m).len()),
        r matches Some(c) ==> *c == entries(*m)[key_index(entries(*m), key@)].1,
{
    m.get(key)
}

/// `IndexMap::insert`: replaces the value of a key that is there, in place,
/// and else appends the entry.
#[verifier::external_body]
pub(crate) fn put(m: &mut IndexMap<String, Constraint>, key: String, c: Constraint)
    ensures
        entries(*final(m)) == if key_index(entries(*old(m)), key@) < entries(*old(m)).len() {
            entries(*old(m)).update(key_index(entries(*old(m)), key@), (key@, c))
        } else {
            entries(*old(m)).push((key@, c))
        },
{
    m.insert(key, c);
}

/// What the entries say.
pub open spec fn entry_views(es: Seq<(Seq<char>, Constraint)>) -> Seq<(Seq<char>, ConstraintView)> {
    Seq::new(es.len(), |i: int| (es[i].0, es[i].1@))
}

/// What a map of constraints says.
pub open spec fn constraints_view(m: IndexMap<String, Constraint>) -> Seq<
    (Seq<char>, ConstraintView),
> {
    entry_views(entries(m))
}

/// A key that no entry has stands at no position.
pub proof fn lemma_key_absent<T>(es: Seq<(Seq<char>, T)>, key: Seq<char>)
    requires
        forall|j: int| 0 <= j < es.len() ==> (#[trigger] es[j]).0 != key,
    ensures
        key_index(es, key) == es.len(),
    decreases es.len(),
{
    if es.len() > 0 {
        let t = es.skip(1);
        assert forall|j: int| 0 <= j < t.len() implies (#[trigger] t[j]).0 != key by {
            assert(t[j] == es[j + 1]);
        }
        lemma_key_absent(t, key);
        assert(es[0].0 != key);
    }
}

/// A copy of a map of constraints.
pub fn clone_constraints(m: &IndexMap<String, Constraint>) -> (r: IndexMap<String, Constraint>)
    ensures
        constraints_view(r) == constraints_view(*m),
{
    let mut out = no_constraints();
    let n = count(m);
    let mut i: usize = 0;
    while i < n
        invariant
            i <= n,
            n == entries(*m).len(),
            constraints_view(out) == constraints_view(*m).take(i as int),
        decreases n - i,
    {
        let e = entry_at(m, i);
        let ghost before = entries(out);
        let key = e.0.clone();
        let c = e.1.clone();
        proof {
            assert(constraints_view(*m).len() == n);
            assert(constraints_view(out).len() == before.len());
            assert(before.len() == i);
            assert forall|j: int| 0 <= j < before.len() implies (#[trigger] before[j]).0 != key@ by {
                assert(constraints_view(out)[j] == constraints_view(*m)[j]);
                assert(entries(*m)[j].0 != e.0@);
            }
            lemma_key_absent(before, key@);
        }
        put(&mut out, key, c);
        proof {
            assert(constraints_view(out) =~= constraints_view(*m).take(i + 1));
        }
        i = i + 1;
    }
    proof {
        assert(constraints_view(out) =~= constraints_view(*m));
    }
    out
}

/// The constraint on the `i`th listed parameter lets the parameters through.
pub open spec fn holds_at(cs: Seq<(Seq<char>, ConstraintView)>, params: Json, i: int) -> bool {
    permits(cs[i].1, member(params, cs[i].0))
}

/// Every constraint lets the parameters through.
pub open spec fn all_hold(cs: Seq<(Seq<char>, ConstraintView)>, params: Json) -> bool {
    forall|i: int| 0 <= i < cs.len() ==> #[trigger] holds_at(cs, params, i)
}

/// The first listed parameter that its constraint refuses.
pub open spec fn violated(cs: Seq<(Seq<char>, ConstraintView)>, params: Json) -> Option<Seq<char>>
    decreases cs.len(),
{
    if cs.len() == 0 {
        None
    } else if !holds_at(cs, params, 0) {
        Some(cs[0].0)
    } else {
        violated(cs.skip(1), params)
    }
}

/// No parameter is refused exactly when every constraint holds.
pub proof fn law_violation_iff_some_constraint_fails(
    cs: Seq<(Seq<char>, ConstraintView)>,
    params: Json,
)
    ensures
        violated(cs, params) is None <==> all_hold(cs, params),
    decreases cs.len(),
{
    if cs.len() > 0 {
        let t = cs.skip(1);
        law_violation_iff_some_constraint_fails(t, params);
        if all_hold(cs, params) {
            assert(holds_at(cs, params, 0));
            assert forall|i: int| 0 <= i < t.len() implies #[trigger] holds_at(t, params, i) by {
                assert(holds_at(cs, params, i + 1));
                assert(t[i] == cs[i + 1]);
            }
        }
        if holds_at(cs, params, 0) && all_hold(t, params) {
            assert forall|i: int| 0 <= i < cs.len() implies #[trigger] holds_at(cs, params, i) by {
                if i > 0 {
                    assert(holds_at(t, params, i - 1));
                    assert(t[i - 1] == cs[i]);
                }
            }
        }
    }
}

/// The first parameter, in listing order, that its constraint refuses.
pub fn violation(m: &IndexMap<String, Constraint>, params: &Value) -> (r: Option<String>)
    ensures
        r.deep_view() == violated(constraints_view(*m), params@),
{
    let n = count(m);
    let ghost cs = constraints_view(*m);
    let mut i: usize = 0;
    proof {
        assert(cs.skip(0) == cs);
    }
    while i < n
        invariant
            i <= n,
            n == entries(*m).len(),
            cs == constraints_view(*m),
            violated(cs, params@) == violated(cs.skip(i as int), params@),
        decreases n - i,
    {
        let e = entry_at(m, i);
        let v = params.get(e.0.as_str());
        let ok = e.1.allows(v);
        let ghost rest = cs.skip(i as int);
        proof {
            assert(rest[0] == (e.0@, e.1@));
            assert(value_view(v) == member(params@, e.0@));
            assert(ok == holds_at(rest, params@, 0));
            assert(rest.skip(1) == cs.skip(i + 1));
        }
        if !ok {
            return Some(e.0.clone());
        }
        i = i + 1;
    }
    None
}

/// The position of a key does not depend on what the values say.
pub proof fn lemma_key_index_of_views(es: Seq<(Seq<char>, Constraint)>, key: Seq<char>)
    ensures
        key_index(entry_views(es), key) == key_index(es, key),
        0 <= key_index(es, key) <= es.len(),
    decreases es.len(),
{
    if es.len() > 0 && es[0].0 != key {
        lemma_key_index_of_views(es.skip(1), key);
        assert(entry_views(es).skip(1) =~= entry_views(es.skip(1)));
    }
}

/// The constraints with one set: in place when its parameter is listed, else
/// at the end.
pub open spec fn with_constraint(
    cs: Seq<(Seq<char>, ConstraintView)>,
    c: (Seq<char>, ConstraintView),
) -> Seq<(Seq<char>, ConstraintView)> {
    if key_index(cs, c.0) < cs.len() {
        cs.update(key_index(cs, c.0), c)
    } else {
        cs.push(c)
    }
}

/// The constraint that is listed on a parameter.
pub open spec fn constraint_on(
    cs: Seq<(Seq<char>, ConstraintView)>,
    param: Seq<char>,
) -> Option<ConstraintView> {
    if key_index(cs, param) < cs.len() {
        Some(cs[key_index(cs, param)].1)
    } else {
        None
    }
}

/// Sets one constraint.
pub fn set_constraint(m: &mut IndexMap<String, Constraint>, param: &str, c: &Constraint)
    ensures
        constraints_view(*final(m)) == with_constraint(constraints_view(*old(m)), (param@, c@)),
{
    let ghost es = entries(*m);
    let value = c.clone();
    proof {
        lemma_key_index_of_views(es, param@);
    }
    put(m, param.to_owned(), value);
    proof {
        assert(constraints_view(*m) =~= with_constraint(entry_views(es), (param@, c@)));
    }
}

/// The constraint on a parameter.
pub fn find_constraint<'a>(m: &'a IndexMap<String, Constraint>, param: &str) -> (r: Option<
    &'a Constraint,
>)
    ensures
        r is Some == constraint_on(constraints_view(*m), param@) is Some,
        r matches Some(c) ==> constraint_on(constraints_view(*m), param@) == Some(c@),
{
    proof {
        lemma_key_index_of_views(entries(*m), param@);
    }
    get(m, param)
}

/// The first extra constraint that does not narrow the constraint on the same
/// parameter.
pub open spec fn widened(
    base: Seq<(Seq<char>, ConstraintView)>,
    extra: Seq<(Seq<char>, ConstraintView)>,
) -> Option<Seq<char>>
    decreases extra.len(),
{
    if extra.len() == 0 {
        None
    } else if widens(base, extra[0]) {
        Some(extra[0].0)
    } else {
        widened(base, extra.skip(1))
    }
}

/// The parameter is constrained, and the extra constraint does not narrow
/// that constraint.
pub open spec fn widens(
    base: Seq<(Seq<char>, ConstraintView)>,
    c: (Seq<char>, ConstraintView),
) -> bool {
    constraint_on(base, c.0) matches Some(parent) && !narrower(c.1, parent)
}

/// The constraints with the extra ones set, one after the other.
pub open spec fn merged(
    base: Seq<(Seq<char>, ConstraintView)>,
    extra: Seq<(Seq<char>, ConstraintView)>,
) -> Seq<(Seq<char>, ConstraintView)>
    decreases extra.len(),
{
    if extra.len() == 0 {
        base
    } else {
        with_constraint(merged(base, extra.drop_last()), extra.last())
    }
}

/// The constraints of `base` with those of `extra` set. An extra constraint may
/// add a parameter, or replace a constraint by one that narrows it; the parameter
/// of the first that does neither is handed back.
pub fn narrow_by(base: &IndexMap<String, Constraint>, extra: &IndexMap<String, Constraint>) -> (r:
    Result<IndexMap<String, Constraint>, String>)
    ensures
        match (r, widened(constraints_view(*base), constraints_view(*extra))) {
            (Ok(m), None) => constraints_view(m) == merged(
                constraints_view(*base),
                constraints_view(*extra),
            ),
            (Err(p), Some(q)) => p@ == q,
            _ => false,
        },
{
    let mut out = clone_constraints(base);
    let n = count(extra);
    let ghost bs = constraints_view(*base);
    let ghost es = constraints_view(*extra);
    let mut i: usize = 0;
    proof {
        assert(es.skip(0) == es);
        assert(es.take(0) == Seq::<(Seq<char>, ConstraintView)>::empty());
    }
    while i < n
        invariant
            i <= n,
            n == entries(*extra).len(),
            bs == constraints_view(*base),
            es == constraints_view(*extra),
            widened(bs, es) == widened(bs, es.skip(i as int)),
            constraints_view(out) == merged(bs, es.take(i as int)),
        decreases n - i,
    {
        let e = entry_at(extra, i);
        let ghost rest = es.skip(i as int);
        proof {
            assert(es[i as int] == (e.0@, e.1@));
            assert(rest[0] == es[i as int]);
            assert(rest.skip(1) == es.skip(i + 1));
        }
        if let Some(parent) = find_constraint(base, e.0.as_str()) {
            if !e.1.narrows(parent) {
                return Err(e.0.clone());
            }
        }
        set_constraint(&mut out, e.0.as_str(), e.1);
        proof {
            assert(es.take(i + 1).drop_last() == es.take(i as int));
            assert(es.take(i + 1).last() == es[i as int]);
        }
        i = i + 1;
    }
    proof {
        assert(es.take(n as int) == es);
        assert(widened(bs, es) is None);
    }
    Ok(out)
}

proof fn lemma_none_widens(
    base: Seq<(Seq<char>, ConstraintView)>,
    extra: Seq<(Seq<char>, ConstraintView)>,
    k: int,
)
    requires
        widened(base, extra) is None,
        0 <= k < extra.len(),
    ensures
        !widens(base, extra[k]),
    decreases k,
{
    if k > 0 {
        lemma_none_widens(base, extra.skip(1), k - 1);
    }
}

proof fn lemma_key_index_first<T>(es: Seq<(Seq<char>, T)>, key: Seq<char>)
    ensures
        0 <= key_index(es, key) <= es.len(),
        key_index(es, key) < es.len() ==> es[key_index(es, key)].0 == key,
        forall|j: int| 0 <= j < key_index(es, key) ==> (#[trigger] es[j]).0 != key,
    decreases es.len(),
{
    if es.len() > 0 && es[0].0 != key {
        lemma_key_index_first(es.skip(1), key);
        assert forall|j: int| 0 <= j < key_index(es, key) implies (#[trigger] es[j]).0 != key by {
            if j > 0 {
                assert(es.skip(1)[j - 1] == es[j]);
            }
        }
    }
}

/// Merging leaves every constraint where it was, or replaces it by one that
/// narrows it.
pub open spec fn stays_or_narrows(
    now: Seq<(Seq<char>, ConstraintView)>,
    base: Seq<(Seq<char>, ConstraintView)>,
    i: int,
) -> bool {
    &&& now[i].0 == base[i].0
    &&& now[i].1 == base[i].1 || narrower(now[i].1, base[i].1)
}

proof fn lemma_merged(
    base: Seq<(Seq<char>, ConstraintView)>,
    extra: Seq<(Seq<char>, ConstraintView)>,
)
    requires
        forall|k: int| 0 <= k < extra.len() ==> !widens(base, #[trigger] extra[k]),
    ensures
        merged(base, extra).len() >= base.len(),
        forall|i: int|
            0 <= i < base.len() ==> #[trigger] stays_or_narrows(merged(base, extra), base, i),
    decreases extra.len(),
{
    if extra.len() > 0 {
        let rest = extra.drop_last();
        let c = extra.last();
        assert forall|k: int| 0 <= k < rest.len() implies !widens(base, #[trigger] rest[k]) by {
            assert(rest[k] == extra[k]);
        }
        lemma_merged(base, rest);
        let before = merged(base, rest);
        let after = merged(base, extra);
        assert(!widens(base, extra[extra.len() - 1]));
        lemma_key_index_first(before, c.0);
        lemma_key_index_first(base, c.0);
        let at = key_index(before, c.0);
        assert forall|i: int| 0 <= i < base.len() implies #[trigger] stays_or_narrows(
            after,
            base,
            i,
        ) by {
            assert(stays_or_narrows(before, base, i));
            if i == at && at < before.len() {
                assert(base[i].0 == c.0);
                let first = key_index(base, c.0);
                assert(first <= i);
                if first < i {
                    assert(stays_or_narrows(before, base, first));
                    assert(before[first].0 == c.0);
                }
                assert(constraint_on(base, c.0) == Some(base[i].1));
            }
        }
    }
}

/// Parameters that satisfy constraints to which others were added, without
/// widening any, satisfy the constraints as they were.
pub proof fn law_merging_never_widens(
    base: Seq<(Seq<char>, ConstraintView)>,
    extra: Seq<(Seq<char>, ConstraintView)>,
    params: Json,
)
    requires
        widened(base, extra) is None,
        all_hold(merged(base, extra), params),
    ensures
        all_hold(base, params),
{
    let now = merged(base, extra);
    assert forall|k: int| 0 <= k < extra.len() implies !widens(base, #[trigger] extra[k]) by {
        lemma_none_widens(base, extra, k);
    }
    lemma_merged(base, extra);
    assert forall|i: int| 0 <= i < base.len() implies #[trigger] holds_at(base, params, i) by {
        assert(stays_or_narrows(now, base, i));
        assert(holds_at(now, params, i));
        if now[i].1 != base[i].1 {
            law_narrowing_never_widens(now[i].1, base[i].1, member(params, base[i].0));
        }
    }
}

/// The parameter that is reported is the first listed one whose constraint refuses
/// it.
pub proof fn law_first_violation_is_reported(
    cs: Seq<(Seq<char>, ConstraintView)>,
    params: Json,
    i: int,
)
    requires
        0 <= i < cs.len(),
        !permits(cs[i].1, member(params, cs[i].0)),
        forall|j: int| 0 <= j < i ==> permits((#[trigger] cs[j]).1, member(params, cs[j].0)),
    ensures
        violated(cs, params) == Some(cs[i].0),
    decreases cs.len(),
{
    if i > 0 {
        assert(permits(cs[0].1, member(params, cs[0].0)));
        let rest = cs.skip(1);
        assert forall|j: int| 0 <= j < i - 1 implies permits(
            (#[trigger] rest[j]).1,
            member(params, rest[j].0),
        ) by {
            assert(rest[j] == cs[j + 1]);
        }
        law_first_violation_is_reported(rest, params, i - 1);
    }
}

/// No parameter is reported exactly if each listed constraint lets its parameter
/// through.
pub proof fn law_every_constraint_counts(cs: Seq<(Seq<char>, ConstraintView)>, params: Json)
    ensures
        violated(cs, params) is None <==> forall|i: int|
            0 <= i < cs.len() ==> permits((#[trigger] cs[i]).1, member(params, cs[i].0)),
{
    law_violation_iff_some_constraint_fails(cs, params);
    if violated(cs, params) is None {
        assert forall|i: int| 0 <= i < cs.len() implies permits(
            (#[trigger] cs[i]).1,
            member(params, cs[i].0),
        ) by {
            assert(holds_at(cs, params, i));
        }
    }
    if forall|i: int|
        0 <= i < cs.len() ==> permits((#[trigger] cs[i]).1, member(params, cs[i].0)) {
        assert forall|i: int| 0 <= i < cs.len() implies #[trigger] holds_at(cs, params, i) by {
            assert(permits(cs[i].1, member(params, cs[i].0)));
        }
    }
}

/// The constraint on a parameter is the first that is listed on it.
pub proof fn law_first_listed_constraint_counts(
    cs: Seq<(Seq<char>, ConstraintView)>,
    param: Seq<char>,
)
    ensures
        match constraint_on(cs, param) {
            Some(c) => exists|i: int|
                0 <= i < cs.len() && (#[trigger] cs[i]) == (param, c) && forall|j: int|
                    0 <= j < i ==> (#[trigger] cs[j]).0 != param,
            None => forall|j: int| 0 <= j < cs.len() ==> (#[trigger] cs[j]).0 != param,
        },
{
    lemma_first_listed(cs, param);
    let k = key_index(cs, param);
    if k < cs.len() {
        assert(cs[k] == (param, cs[k].1));
    }
}

proof fn lemma_first_listed(cs: Seq<(Seq<char>, ConstraintView)>, param: Seq<char>)
    ensures
        0 <= key_index(cs, param) <= cs.len(),
        key_index(cs, param) < cs.len() ==> cs[key_index(cs, param)].0 == param,
        forall|j: int| 0 <= j < key_index(cs, param) ==> (#[trigger] cs[j]).0 != param,
    decreases cs.len(),
{
    if cs.len() > 0 && cs[0].0 != param {
        let rest = cs.skip(1);
        lemma_first_listed(rest, param);
        assert forall|j: int| 0 <= j < key_index(cs, param) implies (#[trigger] cs[j]).0 != param by {
            if j > 0 {
                assert(rest[j - 1] == cs[j]);
            }
        }
    }
}

/// A constraint that is set is the one on its parameter from then on; those on other
/// parameters stay.
pub proof fn law_set_constraints_are_found(
    cs: Seq<(Seq<char>, ConstraintView)>,
    c: (Seq<char>, ConstraintView),
    other: Seq<char>,
)
    ensures
        constraint_on(with_constraint(cs, c), c.0) == Some(c.1),
        other != c.0 ==> constraint_on(with_constraint(cs, c), other) == constraint_on(cs, other),
{
    let now = with_constraint(cs, c);
    lemma_first_listed(cs, c.0);
    lemma_first_listed(now, c.0);
    lemma_first_listed(cs, other);
    lemma_first_listed(now, other);
    let k = key_index(cs, c.0);
    assert(now[k] == c);
    assert(key_index(now, c.0) <= k) by {
        if key_index(now, c.0) > k {
            assert(now[k].0 != c.0);
        }
    }
    assert(key_index(now, c.0) == k) by {
        let n = key_index(now, c.0);
        if n < k {
            assert(now[n] == cs[n]);
        }
    }
    if other != c.0 {
        let a = key_index(cs, other);
        let b = key_index(now, other);
        if a < cs.len() {
            assert(now[a] == cs[a]);
            assert(b <= a);
            assert(now[b].0 == other);
            assert(b < cs.len());
            assert(now[b] == cs[b]);
        } else if b < now.len() {
            assert(now[b].0 == other);
            assert(now[b] == cs[b]);
        }
    }
}

/// Merging sets the extra constraints one after the other: the last extra one on a
/// parameter counts, and without one the base constraint stays.
pub proof fn law_merged_constraints_are_found(
    base: Seq<(Seq<char>, ConstraintView)>,
    extra: Seq<(Seq<char>, ConstraintView)>,
    c: (Seq<char>, ConstraintView),
    param: Seq<char>,
)
    ensures
        constraint_on(merged(base, extra.push(c)), c.0) == Some(c.1),
        param != c.0 ==> constraint_on(merged(base, extra.push(c)), param) == constraint_on(
            merged(base, extra),
            param,
        ),
        merged(base, Seq::empty()) == base,
{
    assert(extra.push(c).drop_last() =~= extra);
    law_set_constraints_are_found(merged(base, extra), c, param);
}

/// Extra constraints widen nothing exactly if each narrows the base constraint on
/// its parameter, where there is one.
pub proof fn law_nothing_is_widened_iff_all_narrow(
    base: Seq<(Seq<char>, ConstraintView)>,
    extra: Seq<(Seq<char>, ConstraintView)>,
)
    ensures
        widened(base, extra) is None <==> forall|i: int|
            0 <= i < extra.len() ==> (constraint_on(base, (#[trigger] extra[i]).0) matches Some(parent)
                ==> narrower(extra[i].1, parent)),
    decreases extra.len(),
{
    if extra.len() > 0 {
        let rest = extra.skip(1);
        law_nothing_is_widened_iff_all_narrow(base, rest);
        if widened(base, extra) is None {
            assert forall|i: int| 0 <= i < extra.len() implies (constraint_on(
                base,
                (#[trigger] extra[i]).0,
            ) matches Some(parent) ==> narrower(extra[i].1, parent)) by {
                if i > 0 {
                    assert(rest[i - 1] == extra[i]);
                }
            }
        }
        if forall|i: int|
            0 <= i < extra.len() ==> (constraint_on(base, (#[trigger] extra[i]).0) matches Some(parent)
                ==> narrower(extra[i].1, parent)) {
            assert(!widens(base, extra[0]));
            assert forall|i: int| 0 <= i < rest.len() implies (constraint_on(
                base,
                (#[trigger] rest[i]).0,
            ) matches Some(parent) ==> narrower(rest[i].1, parent)) by {
                assert(rest[i] == extra[i + 1]);
            }
        }
    }
}

} // verus!
