//! JSON values.
use vstd::prelude::*;
use crate::text;

verus! {

/// A JSON number. An integer that fits is held as one; any other number is a
/// finite double, held as the shortest decimal text that reads back as it.
#[derive(Debug)]
pub enum Number {
    PosInt(u64),
    NegInt(i64),
    Float(String),
}

/// What a [`Number`] says.
pub enum NumberView {
    PosInt(u64),
    NegInt(i64),
    Float(Seq<char>),
}

/// A JSON value.
#[derive(Debug)]
pub enum Value {
    Null,
    Bool(bool),
    Number(Number),
    Text(String),
    Array(Vec<Value>),
    Object(JsonMap),
}

/// The members of a JSON object, held in ascending order of their keys.
#[derive(Debug)]
pub struct JsonMap {
    entries: Vec<(String, Value)>,
}

/// What a [`Value`] says.
pub enum Json {
    Null,
    Bool(bool),
    Number(NumberView),
    Text(Seq<char>),
    Array(Seq<Json>),
    Object(Map<Seq<char>, Json>),
}

impl Number {
    pub open spec fn view(&self) -> NumberView {
        match self {
            Number::PosInt(n) => NumberView::PosInt(*n),
            Number::NegInt(n) => NumberView::NegInt(*n),
            Number::Float(t) => NumberView::Float(t@),
        }
    }
}

impl Value {
    pub open spec fn view(&self) -> Json
        decreases self,
    {
        match self {
            Value::Null => Json::Null,
            Value::Bool(b) => Json::Bool(*b),
            Value::Number(n) => Json::Number(n@),
            Value::Text(s) => Json::Text(s@),
            Value::Array(items) => Json::Array(values_seq(items@)),
            Value::Object(map) => Json::Object(map.view()),
        }
    }
}

/// What a sequence of values says.
pub open spec fn values_seq(s: Seq<Value>) -> Seq<Json>
    decreases s,
{
    if s.len() == 0 {
        Seq::empty()
    } else {
        values_seq(s.drop_last()).push(s.last().view())
    }
}

spec fn entries_map(s: Seq<(String, Value)>) -> Map<Seq<char>, Json>
    decreases s,
{
    if s.len() == 0 {
        Map::empty()
    } else {
        entries_map(s.drop_last()).insert(s.last().0@, s.last().1.view())
    }
}

impl JsonMap {
    pub closed spec fn view(&self) -> Map<Seq<char>, Json>
        decreases self,
    {
        entries_map(self.entries@)
    }

    /// The keys in the order in which they are held.
    pub closed spec fn keys(&self) -> Seq<Seq<char>> {
        keys_of(self.entries@)
    }

    #[verifier::type_invariant]
    spec fn inv(self) -> bool {
        text::ascending(keys_of(self.entries@))
    }
}

impl DeepView for Value {
    type V = Json;

    open spec fn deep_view(&self) -> Json {
        self.view()
    }
}

spec fn keys_of(s: Seq<(String, Value)>) -> Seq<Seq<char>> {
    Seq::new(s.len(), |i: int| s[i].0@)
}

proof fn lemma_values_seq(s: Seq<Value>)
    ensures
        values_seq(s).len() == s.len(),
        forall|i: int| 0 <= i < s.len() ==> #[trigger] values_seq(s)[i] == s[i].view(),
    decreases s,
{
    if s.len() > 0 {
        lemma_values_seq(s.drop_last());
        assert forall|i: int| 0 <= i < s.len() implies #[trigger] values_seq(s)[i]
            == s[i].view() by {
            if i < s.len() - 1 {
                assert(s.drop_last()[i] == s[i]);
                assert(values_seq(s.drop_last())[i] == s[i].view());
            }
        }
    }
}

/// The contents of a vector of values, seen elementwise.
pub broadcast proof fn lemma_values_deep_view(v: Vec<Value>)
    ensures
        values_seq(v@) == #[trigger] v.deep_view(),
{
    lemma_values_seq(v@);
    assert(values_seq(v@) =~= v.deep_view());
}

proof fn lemma_entries_dom(s: Seq<(String, Value)>)
    ensures
        forall|k: Seq<char>| #[trigger]
            entries_map(s).contains_key(k) <==> keys_of(s).contains(k),
        entries_map(s).dom().finite(),
        entries_map(s).dom() == keys_of(s).to_set(),
    decreases s,
{
    if s.len() > 0 {
        let t = s.drop_last();
        lemma_entries_dom(t);
        assert forall|k: Seq<char>| #[trigger]
            entries_map(s).contains_key(k) <==> keys_of(s).contains(k) by {
            if keys_of(s).contains(k) {
                let i = choose|i: int| 0 <= i < s.len() && keys_of(s)[i] == k;
                if i < t.len() {
                    assert(keys_of(t)[i] == k);
                }
            }
            if entries_map(t).contains_key(k) {
                let i = choose|i: int| 0 <= i < t.len() && keys_of(t)[i] == k;
                assert(keys_of(s)[i] == k);
            }
            assert(keys_of(s)[s.len() - 1] == s.last().0@);
        }
    }
    assert forall|k: Seq<char>| entries_map(s).dom().contains(k) <==> keys_of(
        s,
    ).to_set().contains(k) by {
        assert(entries_map(s).contains_key(k) <==> keys_of(s).contains(k));
    }
    assert(entries_map(s).dom() =~= keys_of(s).to_set());
}

proof fn lemma_entries_at(s: Seq<(String, Value)>, i: int)
    requires
        text::ascending(keys_of(s)),
        0 <= i < s.len(),
    ensures
        entries_map(s).contains_key(s[i].0@),
        entries_map(s)[s[i].0@] == s[i].1.view(),
    decreases s,
{
    let t = s.drop_last();
    lemma_entries_dom(s);
    assert(keys_of(s)[i] == s[i].0@);
    if i < s.len() - 1 {
        assert(text::lt(keys_of(s)[i], keys_of(s)[s.len() - 1]));
        text::lemma_lt_irreflexive(s[i].0@);
        lemma_ascending_drop_last(s);
        lemma_entries_at(t, i);
        assert(t[i] == s[i]);
    }
}

proof fn lemma_ascending_drop_last(s: Seq<(String, Value)>)
    requires
        text::ascending(keys_of(s)),
        s.len() > 0,
    ensures
        text::ascending(keys_of(s.drop_last())),
{
    let t = s.drop_last();
    assert forall|i: int, j: int| 0 <= i < j < t.len() implies #[trigger] text::lt(
        keys_of(t)[i],
        keys_of(t)[j],
    ) by {
        assert(text::lt(keys_of(s)[i], keys_of(s)[j]));
    }
}

/// Two ascending lists that agree on keys and values say the same.
proof fn lemma_entries_same(s: Seq<(String, Value)>, m: Map<Seq<char>, Json>)
    requires
        text::ascending(keys_of(s)),
        forall|k: Seq<char>| #[trigger] m.contains_key(k) ==> keys_of(s).contains(k),
        forall|i: int|
            0 <= i < s.len() ==> m.contains_key(#[trigger] keys_of(s)[i]) && m[keys_of(s)[i]]
                == s[i].1.view(),
    ensures
        entries_map(s) == m,
{
    lemma_entries_dom(s);
    assert forall|k: Seq<char>| #[trigger] entries_map(s).contains_key(k) implies m.contains_key(k)
        && m[k] == entries_map(s)[k] by {
        let i = choose|i: int| 0 <= i < s.len() && keys_of(s)[i] == k;
        lemma_entries_at(s, i);
        assert(m.contains_key(keys_of(s)[i]));
    }
    assert(entries_map(s) =~= m);
}

impl JsonMap {
    /// What the order in which a map holds its keys says of its contents.
    pub proof fn lemma_keys(&self)
        requires
            text::ascending(self.keys()),
        ensures
            self@.dom() == self.keys().to_set(),
            self@.dom().finite(),
    {
        lemma_entries_dom(self.entries@);
    }

    /// The object without members.
    pub fn new() -> (r: JsonMap)
        ensures
            r@ == Map::<Seq<char>, Json>::empty(),
    {
        JsonMap { entries: Vec::new() }
    }

    /// The number of members.
    pub fn len(&self) -> (n: usize)
        ensures
            n == self.keys().len(),
            text::ascending(self.keys()),
    {
        proof {
            use_type_invariant(self);
        }
        self.entries.len()
    }

    /// The member at position `i` in key order.
    pub fn entry_at(&self, i: usize) -> (r: (&String, &Value))
        requires
            i < self.keys().len(),
        ensures
            r.0@ == self.keys()[i as int],
            self@.contains_key(r.0@),
            r.1@ == self@[r.0@],
            decreases_to!(self => r.1),
    {
        proof {
            use_type_invariant(self);
            lemma_entries_at(self.entries@, i as int);
        }
        let e = &self.entries[i];
        (&e.0, &e.1)
    }

    fn position(&self, key: &str) -> (p: usize)
        ensures
            p <= self.entries.len(),
            forall|i: int| 0 <= i < p ==> #[trigger] text::lt(keys_of(self.entries@)[i], key@),
            p < self.entries.len() ==> !text::lt(keys_of(self.entries@)[p as int], key@),
    {
        let mut p: usize = 0;
        while p < self.entries.len() && text::less(self.entries[p].0.as_str(), key)
            invariant
                p <= self.entries.len(),
                forall|i: int| 0 <= i < p ==> #[trigger] text::lt(keys_of(self.entries@)[i], key@),
            decreases self.entries.len() - p,
        {
            p = p + 1;
        }
        p
    }

    /// The value under `key`.
    pub fn get(&self, key: &str) -> (r: Option<&Value>)
        ensures
            match r {
                Some(v) => self@.contains_key(key@) && v@ == self@[key@],
                None => !self@.contains_key(key@),
            },
    {
        proof {
            use_type_invariant(self);
            lemma_entries_dom(self.entries@);
        }
        let p = self.position(key);
        if p < self.entries.len() && text::str_eq(self.entries[p].0.as_str(), key) {
            proof {
                lemma_entries_at(self.entries@, p as int);
            }
            Some(&self.entries[p].1)
        } else {
            proof {
                if keys_of(self.entries@).contains(key@) {
                    let i = choose|i: int|
                        0 <= i < self.entries@.len() && keys_of(self.entries@)[i] == key@;
                    text::lemma_lt_irreflexive(key@);
                    if i < p {
                        assert(text::lt(keys_of(self.entries@)[i], key@));
                    } else {
                        text::lemma_lt_total(keys_of(self.entries@)[p as int], key@);
                        if p < i {
                            assert(text::lt(
                                keys_of(self.entries@)[p as int],
                                keys_of(self.entries@)[i],
                            ));
                        }
                    }
                }
            }
            None
        }
    }

    /// Sets the value under `key`.
    pub fn insert(&mut self, key: String, value: Value)
        ensures
            final(self)@ == old(self)@.insert(key@, value@),
    {
        proof {
            use_type_invariant(&*self);
        }
        let p = self.position(key.as_str());
        let mut es: Vec<(String, Value)> = Vec::new();
        std::mem::swap(&mut es, &mut self.entries);
        let ghost s = es@;
        let ghost k = key@;
        let ghost m = entries_map(s).insert(k, value@);
        proof {
            lemma_entries_dom(s);
        }
        if p < es.len() && text::str_eq(es[p].0.as_str(), key.as_str()) {
            es.remove(p);
            es.insert(p, (key, value));
            proof {
                let t = es@;
                assert(t.len() == s.len());
                assert forall|i: int| 0 <= i < t.len() implies #[trigger] keys_of(t)[i] == keys_of(
                    s,
                )[i] by {
                    if i != p {
                        assert(t[i] == s[i]);
                    }
                }
                assert(keys_of(t) =~= keys_of(s));
                assert forall|i: int| 0 <= i < t.len() implies m.contains_key(
                    #[trigger] keys_of(t)[i],
                ) && m[keys_of(t)[i]] == t[i].1.view() by {
                    lemma_entries_at(s, i);
                    if i != p {
                        assert(t[i] == s[i]);
                        if keys_of(s)[i] == keys_of(s)[p as int] {
                            text::lemma_lt_irreflexive(k);
                            if i < p {
                                assert(text::lt(keys_of(s)[i], keys_of(s)[p as int]));
                            } else {
                                assert(text::lt(keys_of(s)[p as int], keys_of(s)[i]));
                            }
                        }
                    }
                }
                assert forall|x: Seq<char>| #[trigger] m.contains_key(x) implies keys_of(
                    t,
                ).contains(x) by {
                    if x == k {
                        assert(keys_of(t)[p as int] == k);
                    } else {
                        assert(entries_map(s).contains_key(x));
                    }
                }
                lemma_entries_same(t, m);
            }
        } else {
            es.insert(p, (key, value));
            proof {
                let t = es@;
                assert(t == s.insert(p as int, t[p as int]));
                assert forall|i: int| p <= i < s.len() implies #[trigger] text::lt(
                    k,
                    keys_of(s)[i],
                ) by {
                    text::lemma_lt_total(keys_of(s)[p as int], k);
                    if i > p {
                        assert(text::lt(keys_of(s)[p as int], keys_of(s)[i]));
                        text::lemma_lt_transitive(k, keys_of(s)[p as int], keys_of(s)[i]);
                    }
                }
                assert forall|i: int, j: int| 0 <= i < j < t.len() implies #[trigger] text::lt(
                    keys_of(t)[i],
                    keys_of(t)[j],
                ) by {
                    let si = if i < p { i } else { i - 1 };
                    let sj = if j < p { j } else { j - 1 };
                    if i == p {
                        assert(text::lt(k, keys_of(s)[sj]));
                    } else if j == p {
                        assert(text::lt(keys_of(s)[si], k));
                    } else {
                        assert(text::lt(keys_of(s)[si], keys_of(s)[sj]));
                    }
                }
                assert forall|i: int| 0 <= i < t.len() implies m.contains_key(
                    #[trigger] keys_of(t)[i],
                ) && m[keys_of(t)[i]] == t[i].1.view() by {
                    text::lemma_lt_irreflexive(k);
                    if i < p {
                        assert(text::lt(keys_of(s)[i], k));
                        lemma_entries_at(s, i);
                    } else if i > p {
                        assert(text::lt(k, keys_of(s)[i - 1]));
                        lemma_entries_at(s, i - 1);
                    }
                }
                assert forall|x: Seq<char>| #[trigger] m.contains_key(x) implies keys_of(
                    t,
                ).contains(x) by {
                    if x == k {
                        assert(keys_of(t)[p as int] == k);
                    } else {
                        assert(entries_map(s).contains_key(x));
                        let i = choose|i: int| 0 <= i < s.len() && keys_of(s)[i] == x;
                        let ti = if i < p { i } else { i + 1 };
                        assert(keys_of(t)[ti] == x);
                    }
                }
                lemma_entries_same(t, m);
            }
        }
        self.entries = es;
    }

    /// Takes the member under `key` away.
    pub fn remove(&mut self, key: &str)
        ensures
            final(self)@ == old(self)@.remove(key@),
    {
        proof {
            use_type_invariant(&*self);
        }
        let p = self.position(key);
        let mut es: Vec<(String, Value)> = Vec::new();
        std::mem::swap(&mut es, &mut self.entries);
        let ghost s = es@;
        let ghost k = key@;
        let ghost m = entries_map(s).remove(k);
        proof {
            lemma_entries_dom(s);
        }
        if p < es.len() && text::str_eq(es[p].0.as_str(), key) {
            es.remove(p);
            proof {
                let t = es@;
                assert(t == s.remove(p as int));
                assert forall|i: int, j: int| 0 <= i < j < t.len() implies #[trigger] text::lt(
                    keys_of(t)[i],
                    keys_of(t)[j],
                ) by {
                    let si = if i < p { i } else { i + 1 };
                    let sj = if j < p { j } else { j + 1 };
                    assert(text::lt(keys_of(s)[si], keys_of(s)[sj]));
                }
                assert forall|i: int| 0 <= i < t.len() implies m.contains_key(
                    #[trigger] keys_of(t)[i],
                ) && m[keys_of(t)[i]] == t[i].1.view() by {
                    let si = if i < p { i } else { i + 1 };
                    lemma_entries_at(s, si);
                    text::lemma_lt_irreflexive(k);
                    if i < p {
                        assert(text::lt(keys_of(s)[si], keys_of(s)[p as int]));
                    } else {
                        assert(text::lt(keys_of(s)[p as int], keys_of(s)[si]));
                    }
                }
                assert forall|x: Seq<char>| #[trigger] m.contains_key(x) implies keys_of(
                    t,
                ).contains(x) by {
                    assert(entries_map(s).contains_key(x));
                    let i = choose|i: int| 0 <= i < s.len() && keys_of(s)[i] == x;
                    let ti = if i < p { i } else { i - 1 };
                    assert(keys_of(t)[ti] == x);
                }
                lemma_entries_same(t, m);
            }
        } else {
            proof {
                if keys_of(s).contains(k) {
                    let i = choose|i: int| 0 <= i < s.len() && keys_of(s)[i] == k;
                    text::lemma_lt_irreflexive(k);
                    if i < p {
                        assert(text::lt(keys_of(s)[i], k));
                    } else {
                        text::lemma_lt_total(keys_of(s)[p as int], k);
                        if p < i {
                            assert(text::lt(keys_of(s)[p as int], keys_of(s)[i]));
                        }
                    }
                }
                assert(!entries_map(s).contains_key(k));
                assert(m =~= entries_map(s));
            }
        }
        self.entries = es;
    }
}


impl Clone for Number {
    fn clone(&self) -> (r: Self)
        ensures
            r == *self,
    {
        match self {
            Number::PosInt(n) => Number::PosInt(*n),
            Number::NegInt(n) => Number::NegInt(*n),
            Number::Float(t) => Number::Float(t.clone()),
        }
    }
}

impl Clone for Value {
    fn clone(&self) -> (r: Self)
        ensures
            r@ == self@,
        decreases self,
    {
        match self {
            Value::Null => Value::Null,
            Value::Bool(b) => Value::Bool(*b),
            Value::Number(n) => Value::Number(n.clone()),
            Value::Text(s) => Value::Text(s.clone()),
            Value::Array(items) => {
                let mut out: Vec<Value> = Vec::new();
                let mut i: usize = 0;
                while i < items.len()
                    invariant
                        i <= items.len(),
                        out.len() == i,
                        decreases_to!(self => items),
                        forall|j: int| 0 <= j < i ==> #[trigger] out@[j].view() == items@[j].view(),
                    decreases items.len() - i,
                {
                    let c = items[i].clone();
                    out.push(c);
                    i = i + 1;
                }
                proof {
                    lemma_values_seq(items@);
                    lemma_values_seq(out@);
                    assert(values_seq(out@) =~= values_seq(items@));
                }
                Value::Array(out)
            },
            Value::Object(map) => Value::Object(map.clone()),
        }
    }
}

impl Clone for JsonMap {
    fn clone(&self) -> (r: Self)
        ensures
            r@ == self@,
        decreases self,
    {
        proof {
            use_type_invariant(self);
        }
        let mut out: Vec<(String, Value)> = Vec::new();
        let mut i: usize = 0;
        while i < self.entries.len()
            invariant
                i <= self.entries.len(),
                out.len() == i,
                forall|j: int|
                    0 <= j < i ==> (#[trigger] out@[j]).0@ == self.entries@[j].0@ && out@[j].1.view()
                        == self.entries@[j].1.view(),
            decreases self.entries.len() - i,
        {
            let key = self.entries[i].0.clone();
            let value = self.entries[i].1.clone();
            out.push((key, value));
            i = i + 1;
        }
        proof {
            let s = self.entries@;
            let t = out@;
            assert(keys_of(t) =~= keys_of(s));
            assert forall|j: int| 0 <= j < t.len() implies entries_map(s).contains_key(
                #[trigger] keys_of(t)[j],
            ) && entries_map(s)[keys_of(t)[j]] == t[j].1.view() by {
                lemma_entries_at(s, j);
                assert(keys_of(s)[j] == s[j].0@);
            }
            lemma_entries_dom(s);
            lemma_entries_same(t, entries_map(s));
        }
        JsonMap { entries: out }
    }
}

/// The text of a double with the sign of a zero dropped.
pub open spec fn unsigned_zero(t: Seq<char>) -> Seq<char> {
    if t == "-0.0"@ { "0.0"@ } else { t }
}

/// A number with the sign of a zero dropped.
pub open spec fn norm_number(n: NumberView) -> NumberView {
    match n {
        NumberView::Float(t) => NumberView::Float(unsigned_zero(t)),
        _ => n,
    }
}

/// A value in which no zero has a sign. Two values are equal when they are the
/// same up to the signs of zeros.
pub open spec fn norm(j: Json) -> Json
    decreases j,
{
    match j {
        Json::Number(n) => Json::Number(norm_number(n)),
        Json::Array(s) => Json::Array(
            Seq::new(
                s.len(),
                |i: int|
                    if 0 <= i < s.len() {
                        norm(s[i])
                    } else {
                        Json::Null
                    },
            ),
        ),
        Json::Object(m) => Json::Object(
            Map::new(
                |k: Seq<char>| m.contains_key(k),
                |k: Seq<char>|
                    if m.dom().finite() && m.contains_key(k) {
                        norm(m[k])
                    } else {
                        Json::Null
                    },
            ),
        ),
        _ => j,
    }
}

/// Equality of JSON values.
pub open spec fn json_eq(a: Json, b: Json) -> bool {
    norm(a) == norm(b)
}

fn number_same(a: &Number, b: &Number) -> (r: bool)
    ensures
        r == (norm_number(a@) == norm_number(b@)),
{
    match (a, b) {
        (Number::PosInt(x), Number::PosInt(y)) => *x == *y,
        (Number::NegInt(x), Number::NegInt(y)) => *x == *y,
        (Number::Float(x), Number::Float(y)) => {
            let zero = "0.0".to_owned();
            let minus = "-0.0".to_owned();
            let x_zero = *x == minus;
            let y_zero = *y == minus;
            if x_zero && y_zero {
                true
            } else if x_zero {
                *y == zero
            } else if y_zero {
                *x == zero
            } else {
                *x == *y
            }
        },
        _ => false,
    }
}

impl Value {
    /// Whether two values are equal.
    pub fn same(&self, other: &Value) -> (r: bool)
        ensures
            r == json_eq(self@, other@),
        decreases self,
    {
        match (self, other) {
            (Value::Null, Value::Null) => true,
            (Value::Bool(a), Value::Bool(b)) => *a == *b,
            (Value::Number(a), Value::Number(b)) => number_same(a, b),
            (Value::Text(a), Value::Text(b)) => *a == *b,
            (Value::Array(a), Value::Array(b)) => {
                let ghost na = norm(self@)->Array_0;
                let ghost nb = norm(other@)->Array_0;
                proof {
                    lemma_values_seq(a@);
                    lemma_values_seq(b@);
                }
                if a.len() != b.len() {
                    proof {
                        assert(na.len() != nb.len());
                    }
                    return false;
                }
                let mut i: usize = 0;
                while i < a.len()
                    invariant
                        i <= a.len(),
                        a.len() == b.len(),
                        decreases_to!(self => a),
                        self@ == Json::Array(values_seq(a@)),
                        other@ == Json::Array(values_seq(b@)),
                        values_seq(a@).len() == a.len(),
                        values_seq(b@).len() == b.len(),
                        na == norm(self@)->Array_0,
                        nb == norm(other@)->Array_0,
                        forall|j: int| 0 <= j < a.len() ==> #[trigger] values_seq(a@)[j] == a@[j].view(),
                        forall|j: int| 0 <= j < b.len() ==> #[trigger] values_seq(b@)[j] == b@[j].view(),
                        forall|j: int| 0 <= j < i ==> #[trigger] na[j] == nb[j],
                    decreases a.len() - i,
                {
                    let e = a[i].same(&b[i]);
                    proof {
                        assert(na[i as int] == norm(values_seq(a@)[i as int]));
                        assert(nb[i as int] == norm(values_seq(b@)[i as int]));
                    }
                    if !e {
                        return false;
                    }
                    i = i + 1;
                }
                proof {
                    assert(na =~= nb);
                }
                true
            },
            (Value::Object(a), Value::Object(b)) => a.same(b),
            _ => false,
        }
    }
}

impl JsonMap {
    /// Whether two objects are equal.
    pub fn same(&self, other: &JsonMap) -> (r: bool)
        ensures
            r == json_eq(Json::Object(self@), Json::Object(other@)),
        decreases self,
    {
        proof {
            use_type_invariant(self);
            use_type_invariant(other);
            lemma_entries_dom(self.entries@);
            lemma_entries_dom(other.entries@);
        }
        let ghost ma = self@;
        let ghost mb = other@;
        let ghost na = norm(Json::Object(ma))->Object_0;
        let ghost nb = norm(Json::Object(mb))->Object_0;
        let ghost sa = self.entries@;
        let ghost sb = other.entries@;
        proof {
            assert(na.dom() =~= ma.dom());
            assert(nb.dom() =~= mb.dom());
            if na == nb {
                text::lemma_ascending_unique(keys_of(sa), keys_of(sb));
            }
        }
        if self.entries.len() != other.entries.len() {
            proof {
                if na == nb {
                    assert(keys_of(sa).len() == keys_of(sb).len());
                }
            }
            return false;
        }
        let mut i: usize = 0;
        while i < self.entries.len()
            invariant
                i <= self.entries.len(),
                sa == self.entries@,
                sb == other.entries@,
                sa.len() == sb.len(),
                ma == entries_map(sa),
                mb == entries_map(sb),
                ma.dom().finite(),
                mb.dom().finite(),
                text::ascending(keys_of(sa)),
                text::ascending(keys_of(sb)),
                na == norm(Json::Object(ma))->Object_0,
                nb == norm(Json::Object(mb))->Object_0,
                na == nb ==> keys_of(sa) == keys_of(sb),
                forall|j: int|
                    0 <= j < i ==> #[trigger] keys_of(sa)[j] == keys_of(sb)[j] && norm(
                        sa[j].1.view(),
                    ) == norm(sb[j].1.view()),
            decreases self.entries.len() - i,
        {
            let key_same = self.entries[i].0 == other.entries[i].0;
            if !key_same {
                proof {
                    if na == nb {
                        assert(keys_of(sa)[i as int] == keys_of(sb)[i as int]);
                    }
                }
                return false;
            }
            let e = self.entries[i].1.same(&other.entries[i].1);
            if !e {
                proof {
                    lemma_entries_at(sa, i as int);
                    lemma_entries_at(sb, i as int);
                    let k = sa[i as int].0@;
                    assert(na.contains_key(k) && na[k] == norm(ma[k]));
                    assert(nb.contains_key(k) && nb[k] == norm(mb[k]));
                }
                return false;
            }
            proof {
                assert(keys_of(sa)[i as int] == sa[i as int].0@);
                assert(keys_of(sb)[i as int] == sb[i as int].0@);
                assert(norm(sa[i as int].1.view()) == norm(sb[i as int].1.view()));
            }
            i = i + 1;
        }
        proof {
            assert(keys_of(sa) =~= keys_of(sb));
            lemma_entries_dom(sa);
            lemma_entries_dom(sb);
            assert forall|k: Seq<char>| #[trigger] na.contains_key(k) implies na[k] == nb[k] by {
                assert(ma.contains_key(k));
                let j = choose|j: int| 0 <= j < sa.len() && keys_of(sa)[j] == k;
                lemma_entries_at(sa, j);
                lemma_entries_at(sb, j);
                assert(keys_of(sb)[j] == k);
                assert(mb.contains_key(k));
            }
            assert(na =~= nb);
        }
        true
    }
}

impl PartialEq for Value {
    fn eq(&self, other: &Self) -> (r: bool) {
        self.same(other)
    }
}

impl vstd::std_specs::cmp::PartialEqSpecImpl for Value {
    open spec fn obeys_eq_spec() -> bool {
        true
    }

    open spec fn eq_spec(&self, other: &Self) -> bool {
        json_eq(self@, other@)
    }
}

/// The value under `key` when `j` is an object that has one.
pub open spec fn member(j: Json, key: Seq<char>) -> Option<Json> {
    match j {
        Json::Object(m) => if m.contains_key(key) { Some(m[key]) } else { None },
        _ => None,
    }
}

/// The text that `j` is, if it is one.
pub open spec fn text_of(j: Json) -> Option<Seq<char>> {
    match j {
        Json::Text(s) => Some(s),
        _ => None,
    }
}

impl Value {
    /// A text value.
    pub fn text(s: &str) -> (r: Value)
        ensures
            r@ == Json::Text(s@),
    {
        Value::Text(s.to_owned())
    }

    /// An integer value.
    pub fn from_u64(n: u64) -> (r: Value)
        ensures
            r@ == Json::Number(NumberView::PosInt(n)),
    {
        Value::Number(Number::PosInt(n))
    }

    /// A text, or `null` when there is none.
    pub fn opt_text(s: &Option<String>) -> (r: Value)
        ensures
            r@ == opt_text_json(s.deep_view()),
    {
        match s {
            Some(t) => Value::text(t.as_str()),
            None => Value::Null,
        }
    }

    /// The member under `key`, when this is an object that has one.
    pub fn get(&self, key: &str) -> (r: Option<&Value>)
        ensures
            r.is_some() == member(self@, key@).is_some(),
            r matches Some(v) ==> member(self@, key@) == Some(v@),
    {
        match self {
            Value::Object(m) => m.get(key),
            _ => None,
        }
    }

    /// The text, when this is one.
    pub fn as_str(&self) -> (r: Option<&str>)
        ensures
            r.is_some() == text_of(self@).is_some(),
            r matches Some(s) ==> text_of(self@) == Some(s@),
    {
        match self {
            Value::Text(s) => Some(s.as_str()),
            _ => None,
        }
    }

    /// Whether this is `null`.
    pub fn is_null(&self) -> (r: bool)
        ensures
            r == (self@ == Json::Null),
    {
        match self {
            Value::Null => true,
            _ => false,
        }
    }
}

/// A text, or `null` when there is none.
pub open spec fn opt_text_json(s: Option<Seq<char>>) -> Json {
    match s {
        Some(t) => Json::Text(t),
        None => Json::Null,
    }
}

/// The object with one member.
pub fn object1(k: &str, v: Value) -> (r: Value)
    ensures
        r@ == Json::Object(map![k@ => v@]),
{
    let mut m = JsonMap::new();
    m.insert(k.to_owned(), v);
    Value::Object(m)
}

/// The object with the given two members; the second wins if their keys agree.
pub fn object2(k1: &str, v1: Value, k2: &str, v2: Value) -> (r: Value)
    ensures
        r@ == Json::Object(map![k1@ => v1@, k2@ => v2@]),
{
    let mut m = JsonMap::new();
    m.insert(k1.to_owned(), v1);
    m.insert(k2.to_owned(), v2);
    Value::Object(m)
}

/// The object with the given three members; later ones win.
pub fn object3(k1: &str, v1: Value, k2: &str, v2: Value, k3: &str, v3: Value) -> (r: Value)
    ensures
        r@ == Json::Object(map![k1@ => v1@, k2@ => v2@, k3@ => v3@]),
{
    let mut m = JsonMap::new();
    m.insert(k1.to_owned(), v1);
    m.insert(k2.to_owned(), v2);
    m.insert(k3.to_owned(), v3);
    Value::Object(m)
}

/// An integer in JSON.
pub open spec fn integer_json(n: i64) -> Json {
    Json::Number(
        if n >= 0 {
            NumberView::PosInt(n as u64)
        } else {
            NumberView::NegInt(n)
        },
    )
}

/// An integer in JSON.
pub fn integer_value(n: i64) -> (r: Value)
    ensures
        r@ == integer_json(n),
{
    if n >= 0 {
        Value::Number(Number::PosInt(n as u64))
    } else {
        Value::Number(Number::NegInt(n))
    }
}

/// Texts in JSON.
pub open spec fn texts_json(s: Seq<Seq<char>>) -> Seq<Json> {
    Seq::new(s.len(), |i: int| Json::Text(s[i]))
}

/// The members with a list added, unless it is empty.
pub open spec fn with_list(m: Map<Seq<char>, Json>, key: Seq<char>, items: Seq<Json>) -> Map<
    Seq<char>,
    Json,
> {
    if items.len() == 0 {
        m
    } else {
        m.insert(key, Json::Array(items))
    }
}

/// The members with a value added, if there is one.
pub open spec fn with_some(m: Map<Seq<char>, Json>, key: Seq<char>, v: Option<Json>) -> Map<
    Seq<char>,
    Json,
> {
    match v {
        Some(j) => m.insert(key, j),
        None => m,
    }
}

/// An array of values.
pub fn array(items: Vec<Value>) -> (r: Value)
    ensures
        r@ == Json::Array(items.deep_view()),
{
    proof {
        broadcast use lemma_values_deep_view;

        assert(values_seq(items@) == items.deep_view());
    }
    Value::Array(items)
}

/// Texts as values.
pub fn text_values(items: &Vec<String>) -> (vs: Vec<Value>)
    ensures
        vs.deep_view() == texts_json(items.deep_view()),
{
    let mut vs: Vec<Value> = Vec::new();
    let ghost ts = items.deep_view();
    let mut i: usize = 0;
    proof {
        assert(vs.deep_view() =~= texts_json(ts).take(0));
    }
    while i < items.len()
        invariant
            i <= items.len(),
            ts == items.deep_view(),
            vs.deep_view() == texts_json(ts).take(i as int),
        decreases items.len() - i,
    {
        let ghost before = vs.deep_view();
        vs.push(Value::Text(items[i].clone()));
        proof {
            assert(vs.deep_view() =~= before.push(Json::Text(ts[i as int])));
            assert(texts_json(ts).take(i + 1) =~= texts_json(ts).take(i as int).push(
                texts_json(ts)[i as int],
            ));
        }
        i = i + 1;
    }
    proof {
        assert(texts_json(ts).take(ts.len() as int) =~= texts_json(ts));
    }
    vs
}

/// Adds a list to the members, unless it is empty.
pub fn put_list(m: &mut JsonMap, key: &str, items: Vec<Value>)
    ensures
        final(m)@ == with_list(old(m)@, key@, items.deep_view()),
{
    if items.len() > 0 {
        m.insert(key.to_owned(), array(items));
    }
}

/// Values are equal only to values of their kind: texts, booleans and integers to
/// the same one, doubles to the same one whatever the sign of a zero.
pub proof fn law_scalars_are_equal_by_value(a: Json, b: Json)
    requires
        !(a is Array) && !(a is Object),
    ensures
        json_eq(a, b) <==> match (a, b) {
            (Json::Null, Json::Null) => true,
            (Json::Bool(x), Json::Bool(y)) => x == y,
            (Json::Text(x), Json::Text(y)) => x == y,
            (Json::Number(NumberView::PosInt(x)), Json::Number(NumberView::PosInt(y))) => x == y,
            (Json::Number(NumberView::NegInt(x)), Json::Number(NumberView::NegInt(y))) => x == y,
            (Json::Number(NumberView::Float(x)), Json::Number(NumberView::Float(y))) => {
                ||| x == y
                ||| x == "-0.0"@ && y == "0.0"@
                ||| x == "0.0"@ && y == "-0.0"@
            },
            _ => false,
        },
        json_eq(a, b) == json_eq(b, a),
{
}

/// Arrays are equal exactly if they have the same length and equal elements at
/// every place.
pub proof fn law_arrays_are_equal_by_elements(s: Seq<Json>, t: Seq<Json>)
    ensures
        json_eq(Json::Array(s), Json::Array(t)) <==> s.len() == t.len() && forall|i: int|
            0 <= i < s.len() ==> json_eq(#[trigger] s[i], t[i]),
{
    let a = norm(Json::Array(s))->Array_0;
    let b = norm(Json::Array(t))->Array_0;
    assert forall|i: int| 0 <= i < s.len() implies a[i] == norm(#[trigger] s[i]) by {}
    assert forall|i: int| 0 <= i < t.len() implies b[i] == norm(#[trigger] t[i]) by {}
    if a == b {
        assert(a.len() == s.len() && b.len() == t.len());
        assert forall|i: int| 0 <= i < s.len() implies json_eq(#[trigger] s[i], t[i]) by {
            assert(a[i] == norm(s[i]));
            assert(b[i] == norm(t[i]));
        }
    }
    if s.len() == t.len() && forall|i: int| 0 <= i < s.len() ==> json_eq(#[trigger] s[i], t[i]) {
        assert forall|i: int| 0 <= i < s.len() implies a[i] == b[i] by {
            assert(json_eq(s[i], t[i]));
            assert(b[i] == norm(t[i]));
        }
        assert(a =~= b);
    }
}

/// Objects are equal exactly if they have the same keys and equal values under
/// every key.
pub proof fn law_objects_are_equal_by_members(m: Map<Seq<char>, Json>, n: Map<Seq<char>, Json>)
    requires
        m.dom().finite(),
        n.dom().finite(),
    ensures
        json_eq(Json::Object(m), Json::Object(n)) <==> (forall|k: Seq<char>| #[trigger]
            m.contains_key(k) <==> n.contains_key(k)) && (forall|k: Seq<char>| #[trigger]
            m.contains_key(k) ==> json_eq(m[k], n[k])),
{
    let a = norm(Json::Object(m))->Object_0;
    let b = norm(Json::Object(n))->Object_0;
    assert forall|k: Seq<char>| #[trigger] a.contains_key(k) == m.contains_key(k) by {}
    assert forall|k: Seq<char>| #[trigger] b.contains_key(k) == n.contains_key(k) by {}
    if a == b {
        assert forall|k: Seq<char>| #[trigger] m.contains_key(k) <==> n.contains_key(k) by {
            assert(a.contains_key(k) == b.contains_key(k));
        }
        assert forall|k: Seq<char>| #[trigger] m.contains_key(k) implies json_eq(m[k], n[k]) by {
            assert(a[k] == b[k]);
        }
    }
    if (forall|k: Seq<char>| #[trigger] m.contains_key(k) <==> n.contains_key(k)) && (forall|
        k: Seq<char>,
    | #[trigger] m.contains_key(k) ==> json_eq(m[k], n[k])) {
        assert(a =~= b);
    }
}

/// A member is there exactly if the value is an object that holds it.
pub proof fn law_members_are_those_of_objects(j: Json, key: Seq<char>, v: Json)
    ensures
        member(j, key) == Some(v) <==> (j matches Json::Object(m) && m.contains_key(key) && m[key]
            == v),
        text_of(j) is Some <==> j is Text,
        j matches Json::Text(t) ==> text_of(j) == Some(t),
{
}

/// What is optional is left out where it is missing, and a list where it is empty;
/// everything else stays as it was.
pub proof fn law_missing_members_are_left_out(
    m: Map<Seq<char>, Json>,
    key: Seq<char>,
    items: Seq<Json>,
    v: Option<Json>,
    other: Seq<char>,
)
    requires
        !m.contains_key(key),
    ensures
        with_list(m, key, items).contains_key(key) <==> items.len() > 0,
        items.len() > 0 ==> with_list(m, key, items)[key] == Json::Array(items),
        with_some(m, key, v).contains_key(key) <==> v is Some,
        v matches Some(j) ==> with_some(m, key, v)[key] == j,
        other != key ==> (with_list(m, key, items).contains_key(other) <==> m.contains_key(other))
            && (with_some(m, key, v).contains_key(other) <==> m.contains_key(other)),
        other != key && m.contains_key(other) ==> with_list(m, key, items)[other] == m[other]
            && with_some(m, key, v)[other] == m[other],
{
}

/// A text that is missing is null, a number keeps its value, and texts keep their
/// order.
pub proof fn law_scalars_are_told_as_they_are(t: Option<Seq<char>>, n: i64, s: Seq<Seq<char>>)
    ensures
        t matches Some(x) ==> opt_text_json(t) == Json::Text(x),
        t is None ==> opt_text_json(t) == Json::Null,
        n >= 0 ==> integer_json(n) == Json::Number(NumberView::PosInt(n as u64)),
        n < 0 ==> integer_json(n) == Json::Number(NumberView::NegInt(n)),
        texts_json(s).len() == s.len(),
        forall|i: int| 0 <= i < s.len() ==> #[trigger] texts_json(s)[i] == Json::Text(s[i]),
{
}

} // verus!
