//! Rows under unique text keys, in the order of their insertion.
use vstd::prelude::*;
use crate::text;

verus! {

/// Rows under unique text keys, in the order of their insertion.
#[derive(Debug)]
pub struct Table<T> {
    rows: Vec<(String, T)>,
}

spec fn keys_of<T>(s: Seq<(String, T)>) -> Seq<Seq<char>> {
    Seq::new(s.len(), |i: int| s[i].0@)
}

spec fn rows_map<T>(s: Seq<(String, T)>) -> Map<Seq<char>, T> {
    Map::new(
        |k: Seq<char>| keys_of(s).contains(k),
        |k: Seq<char>| s[keys_of(s).index_of(k)].1,
    )
}

proof fn lemma_row<T>(s: Seq<(String, T)>, i: int)
    requires
        keys_of(s).no_duplicates(),
        0 <= i < s.len(),
    ensures
        rows_map(s).contains_key(s[i].0@),
        rows_map(s)[s[i].0@] == s[i].1,
{
    assert(keys_of(s)[i] == s[i].0@);
    let j = keys_of(s).index_of(s[i].0@);
    assert(keys_of(s).contains(s[i].0@));
    assert(keys_of(s)[j] == s[i].0@);
    assert(j == i);
}

proof fn lemma_rows_are<T>(s: Seq<(String, T)>, m: Map<Seq<char>, T>)
    requires
        keys_of(s).no_duplicates(),
        forall|k: Seq<char>| #[trigger] m.contains_key(k) ==> keys_of(s).contains(k),
        forall|i: int|
            0 <= i < s.len() ==> m.contains_key(#[trigger] keys_of(s)[i]) && m[keys_of(s)[i]]
                == s[i].1,
    ensures
        rows_map(s) == m,
{
    assert forall|k: Seq<char>| #[trigger] rows_map(s).contains_key(k) implies m.contains_key(k)
        && m[k] == rows_map(s)[k] by {
        let i = keys_of(s).index_of(k);
        assert(keys_of(s)[i] == k);
    }
    assert(rows_map(s) =~= m);
}

impl<T> Table<T> {
    /// The rows by key.
    pub closed spec fn view(&self) -> Map<Seq<char>, T> {
        rows_map(self.rows@)
    }

    /// The keys in the order of their insertion.
    pub closed spec fn keys(&self) -> Seq<Seq<char>> {
        keys_of(self.rows@)
    }

    #[verifier::type_invariant]
    spec fn inv(self) -> bool {
        keys_of(self.rows@).no_duplicates()
    }

    /// The keys are those of the rows, each once.
    pub open spec fn keyed(&self) -> bool {
        &&& self.keys().no_duplicates()
        &&& forall|k: Seq<char>| #[trigger] self@.contains_key(k) <==> self.keys().contains(k)
    }

    /// The table without rows.
    pub fn new() -> (r: Self)
        ensures
            r@ == Map::<Seq<char>, T>::empty(),
            r.keys() == Seq::<Seq<char>>::empty(),
    {
        let r = Table { rows: Vec::new() };
        proof {
            assert(r.keys() =~= Seq::<Seq<char>>::empty());
            assert(r@ =~= Map::<Seq<char>, T>::empty());
        }
        r
    }

    /// The number of rows.
    pub fn len(&self) -> (n: usize)
        ensures
            n == self.keys().len(),
            self.keyed(),
    {
        proof {
            use_type_invariant(self);
        }
        self.rows.len()
    }

    /// The row at a position in insertion order.
    pub fn at(&self, i: usize) -> (r: (&String, &T))
        requires
            i < self.keys().len(),
        ensures
            r.0@ == self.keys()[i as int],
            self@.contains_key(r.0@),
            *r.1 == self@[r.0@],
            self.keyed(),
    {
        proof {
            use_type_invariant(self);
            lemma_row(self.rows@, i as int);
        }
        let e = &self.rows[i];
        (&e.0, &e.1)
    }

    fn position(&self, key: &str) -> (r: Option<usize>)
        ensures
            match r {
                Some(i) => i < self.rows.len() && self.rows@[i as int].0@ == key@,
                None => !keys_of(self.rows@).contains(key@),
            },
    {
        let mut i: usize = 0;
        while i < self.rows.len()
            invariant
                i <= self.rows.len(),
                forall|j: int| 0 <= j < i ==> #[trigger] keys_of(self.rows@)[j] != key@,
            decreases self.rows.len() - i,
        {
            if text::str_eq(self.rows[i].0.as_str(), key) {
                return Some(i);
            }
            i = i + 1;
        }
        None
    }

    /// The row under `key`.
    pub fn get(&self, key: &str) -> (r: Option<&T>)
        ensures
            self.keyed(),
            match r {
                Some(v) => self@.contains_key(key@) && *v == self@[key@],
                None => !self@.contains_key(key@),
            },
    {
        proof {
            use_type_invariant(self);
        }
        match self.position(key) {
            Some(i) => {
                proof {
                    lemma_row(self.rows@, i as int);
                }
                Some(&self.rows[i].1)
            },
            None => None,
        }
    }

    /// Puts a row under `key`: in place of the one that is there, else behind
    /// all others.
    pub fn put(&mut self, key: String, value: T)
        ensures
            final(self)@ == old(self)@.insert(key@, value),
            final(self).keys() == if old(self)@.contains_key(key@) {
                old(self).keys()
            } else {
                old(self).keys().push(key@)
            },
            old(self).keyed(),
            final(self).keyed(),
    {
        proof {
            use_type_invariant(&*self);
        }
        let p = self.position(key.as_str());
        let mut rows: Vec<(String, T)> = Vec::new();
        std::mem::swap(&mut rows, &mut self.rows);
        let ghost s = rows@;
        let ghost k = key@;
        let ghost m = rows_map(s).insert(k, value);
        match p {
            Some(i) => {
                rows.remove(i);
                rows.insert(i, (key, value));
                proof {
                    let t = rows@;
                    assert forall|j: int| 0 <= j < t.len() implies #[trigger] keys_of(t)[j]
                        == keys_of(s)[j] by {
                        if j != i {
                            assert(t[j] == s[j]);
                        }
                    }
                    assert(keys_of(t) =~= keys_of(s));
                    assert forall|j: int| 0 <= j < t.len() implies m.contains_key(
                        #[trigger] keys_of(t)[j],
                    ) && m[keys_of(t)[j]] == t[j].1 by {
                        lemma_row(s, j);
                        if j != i {
                            assert(t[j] == s[j]);
                            assert(keys_of(s)[j] != keys_of(s)[i as int]);
                        }
                    }
                    lemma_row(s, i as int);
                    lemma_rows_are(t, m);
                }
            },
            None => {
                rows.push((key, value));
                proof {
                    let t = rows@;
                    assert(keys_of(t) =~= keys_of(s).push(k));
                    assert forall|a: int, b: int|
                        0 <= a < t.len() && 0 <= b < t.len() && a != b implies keys_of(t)[a]
                        != keys_of(t)[b] by {
                        if a < s.len() {
                            assert(keys_of(s)[a] == keys_of(t)[a]);
                        }
                        if b < s.len() {
                            assert(keys_of(s)[b] == keys_of(t)[b]);
                        }
                    }
                    assert(keys_of(t).no_duplicates());
                    assert forall|j: int| 0 <= j < t.len() implies m.contains_key(
                        #[trigger] keys_of(t)[j],
                    ) && m[keys_of(t)[j]] == t[j].1 by {
                        if j < s.len() {
                            lemma_row(s, j);
                            assert(keys_of(s)[j] == keys_of(t)[j]);
                        }
                    }
                    assert forall|x: Seq<char>| #[trigger] m.contains_key(x) implies keys_of(
                        t,
                    ).contains(x) by {
                        if x == k {
                            assert(keys_of(t)[s.len() as int] == k);
                        } else {
                            assert(rows_map(s).contains_key(x));
                            let j = keys_of(s).index_of(x);
                            assert(keys_of(t)[j] == x);
                        }
                    }
                    lemma_rows_are(t, m);
                }
            },
        }
        self.rows = rows;
    }

    /// Takes the row under `key` away.
    pub fn remove(&mut self, key: &str)
        ensures
            final(self)@ == old(self)@.remove(key@),
            old(self).keyed(),
            final(self).keyed(),
    {
        proof {
            use_type_invariant(&*self);
        }
        let p = self.position(key);
        let mut rows: Vec<(String, T)> = Vec::new();
        std::mem::swap(&mut rows, &mut self.rows);
        let ghost s = rows@;
        let ghost k = key@;
        let ghost m = rows_map(s).remove(k);
        match p {
            Some(i) => {
                rows.remove(i);
                proof {
                    let t = rows@;
                    assert(t == s.remove(i as int));
                    assert forall|a: int, b: int|
                        0 <= a < t.len() && 0 <= b < t.len() && a != b implies keys_of(t)[a]
                        != keys_of(t)[b] by {
                        let sa = if a < i { a } else { a + 1 };
                        let sb = if b < i { b } else { b + 1 };
                        assert(keys_of(s)[sa] == keys_of(t)[a]);
                        assert(keys_of(s)[sb] == keys_of(t)[b]);
                    }
                    assert(keys_of(t).no_duplicates());
                    assert forall|j: int| 0 <= j < t.len() implies m.contains_key(
                        #[trigger] keys_of(t)[j],
                    ) && m[keys_of(t)[j]] == t[j].1 by {
                        let sj = if j < i { j } else { j + 1 };
                        lemma_row(s, sj);
                        assert(keys_of(s)[sj] == keys_of(t)[j]);
                        assert(keys_of(s)[i as int] == k);
                    }
                    assert forall|x: Seq<char>| #[trigger] m.contains_key(x) implies keys_of(
                        t,
                    ).contains(x) by {
                        assert(rows_map(s).contains_key(x));
                        let j = keys_of(s).index_of(x);
                        assert(keys_of(s)[j] == x);
                        let tj = if j < i { j } else { j - 1 };
                        assert(keys_of(t)[tj] == x);
                    }
                    lemma_rows_are(t, m);
                }
            },
            None => {
                proof {
                    assert(!rows_map(s).contains_key(k));
                    assert(m =~= rows_map(s));
                }
            },
        }
        self.rows = rows;
    }
}

} // verus!
