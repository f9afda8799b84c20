//! Rows under unique text keys, in key order.
use vstd::prelude::*;
use crate::text;

verus! {

/// Rows under unique text keys, in key order.
#[derive(Debug)]
pub struct Sorted<T> {
    rows: Vec<(String, T)>,
}

/// The texts of a set in ascending order.
pub open spec fn in_order(s: Set<Seq<char>>) -> Seq<Seq<char>> {
    choose|ks: Seq<Seq<char>>| text::ascending(ks) && #[trigger] ks.to_set() == s
}

/// What lists a set in ascending order is that order.
pub proof fn lemma_in_order(ks: Seq<Seq<char>>, s: Set<Seq<char>>)
    requires
        text::ascending(ks),
        ks.to_set() == s,
    ensures
        in_order(s) == ks,
{
    let chosen = in_order(s);
    assert(text::ascending(chosen) && chosen.to_set() == s);
    text::lemma_ascending_unique(chosen, ks);
}

spec fn keys_of<T>(s: Seq<(String, T)>) -> Seq<Seq<char>> {
    Seq::new(s.len(), |i: int| s[i].0@)
}

spec fn rows_map<T>(s: Seq<(String, T)>) -> Map<Seq<char>, T> {
    Map::new(
        |k: Seq<char>| keys_of(s).contains(k),
        |k: Seq<char>| s[keys_of(s).index_of(k)].1,
    )
}

proof fn lemma_distinct<T>(s: Seq<(String, T)>, i: int, j: int)
    requires
        text::ascending(keys_of(s)),
        0 <= i < s.len(),
        0 <= j < s.len(),
        keys_of(s)[i] == keys_of(s)[j],
    ensures
        i == j,
{
    text::lemma_lt_irreflexive(keys_of(s)[i]);
    if i < j {
        assert(text::lt(keys_of(s)[i], keys_of(s)[j]));
    } else if j < i {
        assert(text::lt(keys_of(s)[j], keys_of(s)[i]));
    }
}

proof fn lemma_row<T>(s: Seq<(String, T)>, i: int)
    requires
        text::ascending(keys_of(s)),
        0 <= i < s.len(),
    ensures
        rows_map(s).contains_key(s[i].0@),
        rows_map(s)[s[i].0@] == s[i].1,
{
    assert(keys_of(s)[i] == s[i].0@);
    assert(keys_of(s).contains(s[i].0@));
    let j = keys_of(s).index_of(s[i].0@);
    lemma_distinct(s, i, j);
}

proof fn lemma_rows_are<T>(s: Seq<(String, T)>, m: Map<Seq<char>, T>)
    requires
        text::ascending(keys_of(s)),
        forall|k: Seq<char>| #[trigger] m.contains_key(k) ==> keys_of(s).contains(k),
        forall|i: int|
            0 <= i < s.len() ==> m.contains_key(#[trigger] keys_of(s)[i]) && m[keys_of(s)[i]]
                == s[i].1,
    ensures
        rows_map(s) == m,
{
    assert forall|k: Seq<char>| #[trigger] rows_map(s).contains_key(k) implies m.contains_key(k)
        && m[k] == rows_map(s)[k] by {
        let i = keys_of(s).index_of(k);
        assert(keys_of(s)[i] == k);
    }
    assert(rows_map(s) =~= m);
}

proof fn lemma_order<T>(s: Seq<(String, T)>)
    requires
        text::ascending(keys_of(s)),
    ensures
        in_order(rows_map(s).dom()) == keys_of(s),
        rows_map(s).dom() == keys_of(s).to_set(),
        rows_map(s).dom().finite(),
{
    assert(rows_map(s).dom() =~= keys_of(s).to_set());
    lemma_in_order(keys_of(s), rows_map(s).dom());
}

impl<T> Sorted<T> {
    /// The rows by key.
    pub closed spec fn view(&self) -> Map<Seq<char>, T> {
        rows_map(self.rows@)
    }

    /// The keys in order.
    pub open spec fn keys(&self) -> Seq<Seq<char>> {
        in_order(self@.dom())
    }

    #[verifier::type_invariant]
    spec fn inv(self) -> bool {
        text::ascending(keys_of(self.rows@))
    }

    /// The keys are those of the rows, in ascending order.
    pub open spec fn keyed(&self) -> bool {
        &&& text::ascending(self.keys())
        &&& self.keys().to_set() == self@.dom()
        &&& self@.dom().finite()
    }

    /// No rows.
    pub fn new() -> (r: Self)
        ensures
            r@ == Map::<Seq<char>, T>::empty(),
    {
        let r = Sorted { rows: Vec::new() };
        proof {
            assert(r@ =~= Map::<Seq<char>, T>::empty());
        }
        r
    }

    /// The number of rows.
    pub fn len(&self) -> (n: usize)
        ensures
            n == self.keys().len(),
            self.keyed(),
    {
        proof {
            use_type_invariant(self);
            lemma_order(self.rows@);
        }
        self.rows.len()
    }

    /// The row at a position in key order.
    pub fn at(&self, i: usize) -> (r: (&String, &T))
        requires
            i < self.keys().len(),
        ensures
            r.0@ == self.keys()[i as int],
            self@.contains_key(r.0@),
            *r.1 == self@[r.0@],
            self.keyed(),
    {
        proof {
            use_type_invariant(self);
            lemma_order(self.rows@);
            lemma_row(self.rows@, i as int);
        }
        let e = &self.rows[i];
        (&e.0, &e.1)
    }

    fn position(&self, key: &str) -> (p: usize)
        ensures
            p <= self.rows.len(),
            forall|i: int| 0 <= i < p ==> #[trigger] text::lt(keys_of(self.rows@)[i], key@),
            p < self.rows.len() ==> !text::lt(keys_of(self.rows@)[p as int], key@),
    {
        let mut p: usize = 0;
        while p < self.rows.len() && text::less(self.rows[p].0.as_str(), key)
            invariant
                p <= self.rows.len(),
                forall|i: int| 0 <= i < p ==> #[trigger] text::lt(keys_of(self.rows@)[i], key@),
            decreases self.rows.len() - p,
        {
            p = p + 1;
        }
        p
    }

    /// The row under `key`.
    pub fn get(&self, key: &str) -> (r: Option<&T>)
        ensures
            match r {
                Some(v) => self@.contains_key(key@) && *v == self@[key@],
                None => !self@.contains_key(key@),
            },
    {
        proof {
            use_type_invariant(self);
        }
        let p = self.position(key);
        let ghost ks = keys_of(self.rows@);
        if p < self.rows.len() && text::str_eq(self.rows[p].0.as_str(), key) {
            proof {
                lemma_row(self.rows@, p as int);
            }
            Some(&self.rows[p].1)
        } else {
            proof {
                if ks.contains(key@) {
                    let i = ks.index_of(key@);
                    text::lemma_lt_irreflexive(key@);
                    if i < p {
                        assert(text::lt(ks[i], key@));
                    } else {
                        text::lemma_lt_total(ks[p as int], key@);
                        if p < i {
                            assert(text::lt(ks[p as int], ks[i]));
                        }
                    }
                }
            }
            None
        }
    }

    /// Sets the row under `key`.
    pub fn insert(&mut self, key: String, value: T)
        ensures
            final(self)@ == old(self)@.insert(key@, value),
    {
        proof {
            use_type_invariant(&*self);
        }
        let p = self.position(key.as_str());
        let mut rows: Vec<(String, T)> = Vec::new();
        std::mem::swap(&mut rows, &mut self.rows);
        let ghost s = rows@;
        let ghost k = key@;
        let ghost m = rows_map(s).insert(k, value);
        if p < rows.len() && text::str_eq(rows[p].0.as_str(), key.as_str()) {
            rows.remove(p);
            rows.insert(p, (key, value));
            proof {
                let t = rows@;
                assert(keys_of(s)[p as int] == k);
                assert forall|i: int| 0 <= i < t.len() implies #[trigger] keys_of(t)[i] == keys_of(
                    s,
                )[i] by {
                    if i != p {
                        assert(t[i] == s[i]);
                    }
                }
                assert(keys_of(t) =~= keys_of(s));
                assert forall|i: int| 0 <= i < t.len() implies m.contains_key(
                    #[trigger] keys_of(t)[i],
                ) && m[keys_of(t)[i]] == t[i].1 by {
                    lemma_row(s, i);
                    if i != p {
                        assert(t[i] == s[i]);
                        if keys_of(s)[i] == k {
                            lemma_distinct(s, i, p as int);
                        }
                    }
                }
                assert forall|x: Seq<char>| #[trigger] m.contains_key(x) implies keys_of(
                    t,
                ).contains(x) by {
                    if x == k {
                        assert(keys_of(t)[p as int] == k);
                    } else {
                        assert(rows_map(s).contains_key(x));
                    }
                }
                lemma_rows_are(t, m);
            }
        } else {
            rows.insert(p, (key, value));
            proof {
                let t = rows@;
                assert(t == s.insert(p as int, t[p as int]));
                assert forall|i: int| p <= i < s.len() implies #[trigger] text::lt(
                    k,
                    keys_of(s)[i],
                ) by {
                    text::lemma_lt_total(keys_of(s)[p as int], k);
                    if i > p {
                        assert(text::lt(keys_of(s)[p as int], keys_of(s)[i]));
                        text::lemma_lt_transitive(k, keys_of(s)[p as int], keys_of(s)[i]);
                    }
                }
                assert forall|i: int, j: int| 0 <= i < j < t.len() implies #[trigger] text::lt(
                    keys_of(t)[i],
                    keys_of(t)[j],
                ) by {
                    let si = if i < p { i } else { i - 1 };
                    let sj = if j < p { j } else { j - 1 };
                    if i == p {
                        assert(text::lt(k, keys_of(s)[sj]));
                    } else if j == p {
                        assert(text::lt(keys_of(s)[si], k));
                    } else {
                        assert(text::lt(keys_of(s)[si], keys_of(s)[sj]));
                    }
                }
                assert forall|i: int| 0 <= i < t.len() implies m.contains_key(
                    #[trigger] keys_of(t)[i],
                ) && m[keys_of(t)[i]] == t[i].1 by {
                    text::lemma_lt_irreflexive(k);
                    if i < p {
                        assert(text::lt(keys_of(s)[i], k));
                        lemma_row(s, i);
                    } else if i > p {
                        assert(text::lt(k, keys_of(s)[i - 1]));
                        lemma_row(s, i - 1);
                    }
                }
                assert forall|x: Seq<char>| #[trigger] m.contains_key(x) implies keys_of(
                    t,
                ).contains(x) by {
                    if x == k {
                        assert(keys_of(t)[p as int] == k);
                    } else {
                        assert(rows_map(s).contains_key(x));
                        let i = keys_of(s).index_of(x);
                        let ti = if i < p { i } else { i + 1 };
                        assert(keys_of(t)[ti] == x);
                    }
                }
                lemma_rows_are(t, m);
            }
        }
        self.rows = rows;
    }

    /// Takes the row under `key` away.
    pub fn remove(&mut self, key: &str)
        ensures
            final(self)@ == old(self)@.remove(key@),
    {
        proof {
            use_type_invariant(&*self);
        }
        let absent = self.get(key).is_none();
        if absent {
            proof {
                assert(old(self)@.remove(key@) =~= old(self)@);
            }
            return;
        }
        let p = self.position(key);
        let mut rows: Vec<(String, T)> = Vec::new();
        std::mem::swap(&mut rows, &mut self.rows);
        let ghost s = rows@;
        let ghost k = key@;
        let ghost m = rows_map(s).remove(k);
        proof {
            let i = keys_of(s).index_of(k);
            assert(keys_of(s)[i] == k);
            text::lemma_lt_irreflexive(k);
            if i < p {
                assert(text::lt(keys_of(s)[i], k));
            }
            if p < i {
                assert(text::lt(keys_of(s)[p as int], keys_of(s)[i]));
            }
            assert(i == p);
        }
        rows.remove(p);
        proof {
            let t = rows@;
            assert(t == s.remove(p as int));
            assert forall|i: int, j: int| 0 <= i < j < t.len() implies #[trigger] text::lt(
                keys_of(t)[i],
                keys_of(t)[j],
            ) by {
                let si = if i < p { i } else { i + 1 };
                let sj = if j < p { j } else { j + 1 };
                assert(text::lt(keys_of(s)[si], keys_of(s)[sj]));
            }
            assert forall|i: int| 0 <= i < t.len() implies m.contains_key(#[trigger] keys_of(t)[i])
                && m[keys_of(t)[i]] == t[i].1 by {
                let si = if i < p { i } else { i + 1 };
                lemma_row(s, si);
                assert(keys_of(s)[si] == keys_of(t)[i]);
                if keys_of(s)[si] == k {
                    lemma_distinct(s, si, p as int);
                }
            }
            assert forall|x: Seq<char>| #[trigger] m.contains_key(x) implies keys_of(t).contains(
                x,
            ) by {
                assert(rows_map(s).contains_key(x));
                let i = keys_of(s).index_of(x);
                let ti = if i < p { i } else { i - 1 };
                assert(keys_of(s)[i] == x);
                assert(keys_of(t)[ti] == x);
            }
            lemma_rows_are(t, m);
        }
        self.rows = rows;
    }
}

} // verus!
