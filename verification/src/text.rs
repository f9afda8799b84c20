//! Text as sequences of characters.
use vstd::prelude::*;

verus! {

/// `String::push` appends one character to the end of the string.
pub assume_specification[ String::push ](s: &mut String, c: char)
    ensures
        final(s)@ == old(s)@.push(c),
;

/// The characters of a string slice.
pub fn chars_of(s: &str) -> (r: Vec<char>)
    ensures
        r@ == s@,
{
    let mut v: Vec<char> = Vec::new();
    for c in it: s.chars()
        invariant
            v@ == it.seq().take(it.index() as int),
            it.seq() == s@,
    {
        proof {
            assert(it.seq().take(it.index() + 1) == it.seq().take(it.index() as int).push(it.seq()[it.index() as int]));
        }
        v.push(c);
    }
    proof {
        assert(s@.take(s@.len() as int) == s@);
    }
    v
}

/// The string made of the given characters.
pub fn string_of(v: &Vec<char>) -> (r: String)
    ensures
        r@ == v@,
{
    let mut s: String = String::new();
    let mut i: usize = 0;
    while i < v.len()
        invariant
            i <= v.len(),
            s@ == v@.take(i as int),
        decreases v.len() - i,
    {
        proof {
            assert(v@.take(i + 1) == v@.take(i as int).push(v@[i as int]));
        }
        s.push(v[i]);
        i = i + 1;
    }
    proof {
        assert(v@.take(v@.len() as int) == v@);
    }
    s
}

/// Equality of two string slices.
pub fn str_eq(a: &str, b: &str) -> (r: bool)
    ensures
        r == (a@ == b@),
{
    a.to_owned() == b.to_owned()
}

/// Concatenation of two texts.
pub fn cat2(a: &str, b: &str) -> (r: String)
    ensures
        r@ == a@ + b@,
{
    let mut s = a.to_owned();
    s.append(b);
    s
}

/// Concatenation of three texts.
pub fn cat3(a: &str, b: &str, c: &str) -> (r: String)
    ensures
        r@ == a@ + b@ + c@,
{
    let mut s = cat2(a, b);
    s.append(c);
    s
}

/// Concatenation of four texts.
pub fn cat4(a: &str, b: &str, c: &str, d: &str) -> (r: String)
    ensures
        r@ == a@ + b@ + c@ + d@,
{
    let mut s = cat3(a, b, c);
    s.append(d);
    s
}

/// Concatenation of five texts.
pub fn cat5(a: &str, b: &str, c: &str, d: &str, e: &str) -> (r: String)
    ensures
        r@ == a@ + b@ + c@ + d@ + e@,
{
    let mut s = cat4(a, b, c, d);
    s.append(e);
    s
}

/// Concatenation of seven texts.
pub fn cat7(a: &str, b: &str, c: &str, d: &str, e: &str, f: &str, g: &str) -> (r: String)
    ensures
        r@ == a@ + b@ + c@ + d@ + e@ + f@ + g@,
{
    let mut s = cat5(a, b, c, d, e);
    s.append(f);
    s.append(g);
    s
}

/// The texts in `parts`, with `sep` between neighbours.
pub open spec fn joined(parts: Seq<Seq<char>>, sep: Seq<char>) -> Seq<char>
    decreases parts.len(),
{
    if parts.len() == 0 {
        Seq::empty()
    } else if parts.len() == 1 {
        parts[0]
    } else {
        joined(parts.drop_last(), sep) + sep + parts.last()
    }
}

/// Joins texts with a separator between neighbours.
pub fn join(parts: &Vec<String>, sep: &str) -> (r: String)
    ensures
        r@ == joined(parts.deep_view(), sep@),
{
    let mut out: String = String::new();
    let mut i: usize = 0;
    while i < parts.len()
        invariant
            i <= parts.len(),
            out@ == joined(parts.deep_view().take(i as int), sep@),
        decreases parts.len() - i,
    {
        let ghost next = parts.deep_view().take(i + 1);
        proof {
            assert(next.drop_last() == parts.deep_view().take(i as int));
            assert(next.last() == parts[i as int]@);
        }
        if i > 0 {
            out.append(sep);
        }
        out.append(parts[i].as_str());
        proof {
            assert(out@ == joined(next, sep@));
        }
        i = i + 1;
    }
    proof {
        assert(parts.deep_view().take(parts.len() as int) == parts.deep_view());
    }
    out
}

/// `p` stands in `s` at position `i`.
pub open spec fn occurs_at(s: Seq<char>, p: Seq<char>, i: int) -> bool {
    0 <= i && i + p.len() <= s.len() && s.subrange(i, i + p.len()) == p
}

/// `p` stands somewhere in `s`.
pub open spec fn occurs_in(s: Seq<char>, p: Seq<char>) -> bool {
    exists|i: int| occurs_at(s, p, i)
}

/// Whether `p` stands in `s` at position `i`.
pub fn match_at(s: &Vec<char>, p: &Vec<char>, i: usize) -> (r: bool)
    ensures
        r == occurs_at(s@, p@, i as int),
{
    if p.len() > s.len() || i > s.len() - p.len() {
        return false;
    }
    let mut j: usize = 0;
    while j < p.len()
        invariant
            j <= p.len(),
            i + p.len() <= s.len(),
            forall|m: int| 0 <= m < j ==> s@[i + m] == p@[m],
        decreases p.len() - j,
    {
        if s[i + j] != p[j] {
            proof {
                assert(s@.subrange(i as int, i + p.len())[j as int] == s@[i + j]);
            }
            return false;
        }
        j = j + 1;
    }
    proof {
        assert(s@.subrange(i as int, i + p.len()) == p@);
    }
    true
}

/// The leftmost position at or after `from` at which `p` stands in `s`.
pub fn find_from(s: &Vec<char>, p: &Vec<char>, from: usize) -> (r: Option<usize>)
    requires
        from <= s.len(),
    ensures
        match r {
            Some(i) => {
                &&& from <= i
                &&& occurs_at(s@, p@, i as int)
                &&& forall|j: int| from <= j < i ==> !occurs_at(s@, p@, j)
            },
            None => forall|j: int| from <= j ==> !occurs_at(s@, p@, j),
        },
{
    let mut i: usize = from;
    loop
        invariant
            from <= i <= s.len(),
            forall|j: int| from <= j < i ==> !occurs_at(s@, p@, j),
        decreases s.len() - i,
    {
        if match_at(s, p, i) {
            return Some(i);
        }
        if i == s.len() {
            return None;
        }
        i = i + 1;
    }
}

/// The leftmost position at or after `i` at which `p` stands in `s`.
pub open spec fn index_from(s: Seq<char>, p: Seq<char>, i: int) -> Option<int>
    decreases s.len() + 1 - i,
{
    if i < 0 || i + p.len() > s.len() {
        None
    } else if occurs_at(s, p, i) {
        Some(i)
    } else {
        index_from(s, p, i + 1)
    }
}

/// The leftmost position at or after `from` at which `p` stands in `s`.
pub fn index_of(s: &Vec<char>, p: &Vec<char>, from: usize) -> (r: Option<usize>)
    requires
        from <= s.len(),
    ensures
        match (r, index_from(s@, p@, from as int)) {
            (Some(i), Some(k)) => i == k && i + p.len() <= s.len(),
            (None, None) => true,
            _ => false,
        },
{
    let mut i: usize = from;
    loop
        invariant
            from <= i <= s.len(),
            index_from(s@, p@, from as int) == index_from(s@, p@, i as int),
        decreases s.len() - i,
    {
        if match_at(s, p, i) {
            return Some(i);
        }
        if i == s.len() {
            proof {
                assert(index_from(s@, p@, i + 1) is None);
            }
            return None;
        }
        i = i + 1;
    }
}

/// Whether the text `s` holds `p`.
pub fn contains(s: &Vec<char>, p: &Vec<char>) -> (r: bool)
    ensures
        r == occurs_in(s@, p@),
{
    find_from(s, p, 0).is_some()
}

/// Whether the text `s` starts with `p`.
pub fn starts_with(s: &str, p: &str) -> (r: bool)
    ensures
        r == p@.is_prefix_of(s@),
{
    let sv = chars_of(s);
    let pv = chars_of(p);
    match_at(&sv, &pv, 0)
}

/// The position of the first `c` in `s`, or the length of `s`.
pub open spec fn pos(s: Seq<char>, c: char) -> int
    decreases s.len(),
{
    if s.len() == 0 {
        0
    } else if s[0] == c {
        0
    } else {
        1 + pos(s.skip(1), c)
    }
}

/// `pos` is the one position that no `c` precedes and at which either a `c`
/// stands or the text ends.
pub proof fn lemma_pos(s: Seq<char>, c: char, k: int)
    requires
        0 <= k <= s.len(),
        forall|j: int| 0 <= j < k ==> s[j] != c,
        k == s.len() || s[k] == c,
    ensures
        pos(s, c) == k,
    decreases s.len(),
{
    if s.len() > 0 && s[0] != c {
        let t = s.skip(1);
        assert forall|j: int| 0 <= j < k - 1 implies t[j] != c by {
            assert(t[j] == s[j + 1]);
        }
        lemma_pos(t, c, k - 1);
    }
}

/// What `pos` says.
pub proof fn lemma_pos_is_first(s: Seq<char>, c: char)
    ensures
        0 <= pos(s, c) <= s.len(),
        forall|j: int| 0 <= j < pos(s, c) ==> s[j] != c,
        pos(s, c) < s.len() ==> s[pos(s, c)] == c,
    decreases s.len(),
{
    if s.len() > 0 && s[0] != c {
        let t = s.skip(1);
        lemma_pos_is_first(t, c);
        assert forall|j: int| 0 <= j < pos(s, c) implies s[j] != c by {
            if j > 0 {
                assert(t[j - 1] == s[j]);
            }
        }
    }
}

/// The position of the first `c` at or after `from`, or the length of `s`.
pub fn pos_from(s: &Vec<char>, c: char, from: usize) -> (k: usize)
    requires
        from <= s.len(),
    ensures
        from <= k <= s.len(),
        k == from + pos(s@.skip(from as int), c),
        forall|j: int| from <= j < k ==> s@[j] != c,
        k < s.len() ==> s@[k as int] == c,
{
    let mut k: usize = from;
    while k < s.len() && s[k] != c
        invariant
            from <= k <= s.len(),
            forall|j: int| from <= j < k ==> s@[j] != c,
        decreases s.len() - k,
    {
        k = k + 1;
    }
    proof {
        lemma_pos(s@.skip(from as int), c, k - from);
    }
    k
}

/// The pieces of `s` between the occurrences of `c`; one more than there are
/// occurrences.
pub open spec fn split(s: Seq<char>, c: char) -> Seq<Seq<char>>
    decreases s.len(),
{
    let k = pos(s, c);
    if 0 <= k < s.len() {
        seq![s.take(k)] + split(s.skip(k + 1), c)
    } else {
        seq![s]
    }
}

/// The characters from `from` up to `to`.
pub fn slice(s: &Vec<char>, from: usize, to: usize) -> (r: Vec<char>)
    requires
        from <= to <= s.len(),
    ensures
        r@ == s@.subrange(from as int, to as int),
{
    let mut out: Vec<char> = Vec::new();
    let mut i: usize = from;
    while i < to
        invariant
            from <= i <= to <= s.len(),
            out@ == s@.subrange(from as int, i as int),
        decreases to - i,
    {
        out.push(s[i]);
        proof {
            assert(s@.subrange(from as int, i + 1) == s@.subrange(from as int, i as int).push(s@[i as int]));
        }
        i = i + 1;
    }
    out
}

/// The pieces of a text between the occurrences of `c`.
pub fn split_on(s: &Vec<char>, c: char) -> (r: Vec<Vec<char>>)
    ensures
        r.deep_view() == split(s@, c),
{
    let mut out: Vec<Vec<char>> = Vec::new();
    let mut start: usize = 0;
    proof {
        assert(s@.skip(0) == s@);
        assert(out.deep_view() + split(s@, c) == split(s@, c));
    }
    loop
        invariant
            start <= s.len(),
            out.deep_view() + split(s@.skip(start as int), c) == split(s@, c),
        decreases s.len() - start,
    {
        let k = pos_from(s, c, start);
        let piece = slice(s, start, k);
        let ghost rest = s@.skip(start as int);
        let ghost before = out.deep_view();
        proof {
            assert(piece@ == rest.take(k - start));
        }
        out.push(piece);
        proof {
            assert(piece.deep_view() == piece@);
            assert(out.deep_view() == before.push(piece@));
        }
        if k == s.len() {
            proof {
                assert(rest.take(k - start) == rest);
                assert(split(rest, c) == seq![rest]);
                assert(before.push(rest) == before + seq![rest]);
            }
            return out;
        }
        proof {
            assert(rest.skip(k - start + 1) == s@.skip(k + 1));
            assert(split(rest, c) == seq![piece@] + split(s@.skip(k + 1), c));
            assert(before.push(piece@) + split(s@.skip(k + 1), c) == before + (seq![piece@] + split(
                s@.skip(k + 1),
                c,
            )));
        }
        start = k + 1;
    }
}

/// Lexicographic order by code point, which is also the byte order of the
/// UTF-8 encodings.
pub open spec fn lt(a: Seq<char>, b: Seq<char>) -> bool
    decreases a.len(),
{
    if b.len() == 0 {
        false
    } else if a.len() == 0 {
        true
    } else if a[0] == b[0] {
        lt(a.skip(1), b.skip(1))
    } else {
        (a[0] as u32) < (b[0] as u32)
    }
}

/// The order is decided at the first position where the texts differ.
pub proof fn lemma_lt_at(a: Seq<char>, b: Seq<char>, k: int)
    requires
        0 <= k <= a.len(),
        k <= b.len(),
        a.take(k) == b.take(k),
        k < a.len() && k < b.len() ==> a[k] != b[k],
    ensures
        lt(a, b) == if k == b.len() {
            false
        } else if k == a.len() {
            true
        } else {
            (a[k] as u32) < (b[k] as u32)
        },
    decreases k,
{
    if k > 0 {
        assert(a.take(k)[0] == a[0]);
        assert(b.take(k)[0] == b[0]);
        assert(a.skip(1).take(k - 1) == a.take(k).skip(1));
        assert(b.skip(1).take(k - 1) == b.take(k).skip(1));
        lemma_lt_at(a.skip(1), b.skip(1), k - 1);
    }
}

pub proof fn lemma_lt_irreflexive(a: Seq<char>)
    ensures
        !lt(a, a),
    decreases a.len(),
{
    if a.len() > 0 {
        lemma_lt_irreflexive(a.skip(1));
    }
}

pub proof fn lemma_lt_transitive(a: Seq<char>, b: Seq<char>, c: Seq<char>)
    requires
        lt(a, b),
        lt(b, c),
    ensures
        lt(a, c),
    decreases a.len(),
{
    if a.len() > 0 && a[0] == b[0] && b[0] == c[0] {
        lemma_lt_transitive(a.skip(1), b.skip(1), c.skip(1));
    }
}

pub proof fn lemma_lt_total(a: Seq<char>, b: Seq<char>)
    ensures
        lt(a, b) || a == b || lt(b, a),
    decreases a.len(),
{
    if a.len() > 0 && b.len() > 0 && a[0] == b[0] {
        lemma_lt_total(a.skip(1), b.skip(1));
        if a.skip(1) == b.skip(1) {
            assert(a == seq![a[0]] + a.skip(1));
            assert(b == seq![b[0]] + b.skip(1));
        }
    } else if a.len() == 0 && b.len() == 0 {
        assert(a == b);
    } else if a.len() > 0 && b.len() > 0 {
        vstd::utf8::char_u32_cast(a[0], a[0] as u32);
        vstd::utf8::char_u32_cast(b[0], b[0] as u32);
    }
}

/// Whether `a` comes before `b`.
pub fn less(a: &str, b: &str) -> (r: bool)
    ensures
        r == lt(a@, b@),
{
    let av = chars_of(a);
    let bv = chars_of(b);
    let mut k: usize = 0;
    while k < av.len() && k < bv.len() && av[k] == bv[k]
        invariant
            k <= av.len(),
            k <= bv.len(),
            av@.take(k as int) == bv@.take(k as int),
        decreases av.len() - k,
    {
        proof {
            assert(av@.take(k + 1) == av@.take(k as int).push(av@[k as int]));
            assert(bv@.take(k + 1) == bv@.take(k as int).push(bv@[k as int]));
        }
        k = k + 1;
    }
    proof {
        lemma_lt_at(a@, b@, k as int);
    }
    if k == bv.len() {
        false
    } else if k == av.len() {
        true
    } else {
        (av[k] as u32) < (bv[k] as u32)
    }
}

/// Each text comes before every later one.
pub open spec fn ascending(ks: Seq<Seq<char>>) -> bool {
    forall|i: int, j: int| 0 <= i < j < ks.len() ==> #[trigger] lt(ks[i], ks[j])
}

/// Every finite set of texts can be listed in ascending order.
pub proof fn lemma_ascending_exists(s: Set<Seq<char>>) -> (ks: Seq<Seq<char>>)
    requires
        s.finite(),
    ensures
        ascending(ks),
        ks.to_set() == s,
    decreases s.len(),
{
    if s.len() == 0 {
        let ks = Seq::<Seq<char>>::empty();
        assert(ks.to_set() =~= s);
        ks
    } else {
        let a = s.choose();
        let rest = lemma_ascending_exists(s.remove(a));
        assert(!rest.to_set().contains(a));
        let ks = lemma_ascending_insert(rest, a);
        assert(ks.to_set() =~= s);
        ks
    }
}

proof fn lemma_ascending_insert(ks: Seq<Seq<char>>, a: Seq<char>) -> (r: Seq<Seq<char>>)
    requires
        ascending(ks),
        !ks.contains(a),
    ensures
        ascending(r),
        r.to_set() == ks.to_set().insert(a),
    decreases ks.len(),
{
    if ks.len() == 0 || lt(ks.last(), a) {
        let r = ks.push(a);
        assert forall|i: int, j: int| 0 <= i < j < r.len() implies #[trigger] lt(r[i], r[j]) by {
            if j == ks.len() && i < ks.len() - 1 {
                assert(lt(ks[i], ks.last()));
                lemma_lt_transitive(ks[i], ks.last(), a);
            }
        }
        lemma_pushed_set(ks, a);
        r
    } else {
        let front = ks.drop_last();
        assert(ks == front.push(ks.last()));
        assert forall|x: Seq<char>| front.contains(x) implies ks.contains(x) by {
            let i = front.index_of(x);
            assert(ks[i] == x);
        }
        let r0 = lemma_ascending_insert(front, a);
        let r = r0.push(ks.last());
        lemma_lt_total(a, ks.last());
        assert(ks.contains(ks.last()));
        assert forall|i: int, j: int| 0 <= i < j < r.len() implies #[trigger] lt(r[i], r[j]) by {
            if j == r0.len() {
                assert(r0.to_set().contains(r0[i]));
                if r0[i] != a {
                    assert(front.contains(r0[i]));
                    let k = front.index_of(r0[i]);
                    assert(lt(ks[k], ks.last()));
                }
            }
        }
        lemma_pushed_set(r0, ks.last());
        lemma_pushed_set(front, ks.last());
        assert(r.to_set() =~= ks.to_set().insert(a));
        r
    }
}

proof fn lemma_pushed_set(s: Seq<Seq<char>>, a: Seq<char>)
    ensures
        s.push(a).to_set() == s.to_set().insert(a),
{
    let t = s.push(a);
    assert forall|x: Seq<char>| t.to_set().contains(x) <==> s.to_set().insert(a).contains(x) by {
        if s.contains(x) {
            let i = s.index_of(x);
            assert(t[i] == x);
        }
        assert(t[s.len() as int] == a);
        if t.contains(x) && x != a {
            let i = t.index_of(x);
            assert(s[i] == x);
        }
    }
    assert(t.to_set() =~= s.to_set().insert(a));
}

/// An ascending sequence is determined by the set of its elements.
pub proof fn lemma_ascending_unique(a: Seq<Seq<char>>, b: Seq<Seq<char>>)
    requires
        ascending(a),
        ascending(b),
        a.to_set() == b.to_set(),
    ensures
        a == b,
    decreases a.len(),
{
    if a.len() == 0 {
        if b.len() > 0 {
            assert(b.to_set().contains(b[0]));
            assert(a.to_set().contains(b[0]));
        }
        assert(a == b);
    } else if b.len() == 0 {
        assert(a.to_set().contains(a[0]));
        assert(b.to_set().contains(a[0]));
    } else {
        let x = a.last();
        let y = b.last();
        assert(a.to_set().contains(x));
        assert(b.to_set().contains(y));
        let ib = choose|i: int| 0 <= i < b.len() && b[i] == x;
        let ia = choose|i: int| 0 <= i < a.len() && a[i] == y;
        assert(b.contains(x));
        assert(a.contains(y));
        if x != y {
            assert(lt(b[ib], b[b.len() - 1]));
            assert(lt(a[ia], a[a.len() - 1]));
            lemma_lt_transitive(x, y, x);
            lemma_lt_irreflexive(x);
        }
        let a1 = a.drop_last();
        let b1 = b.drop_last();
        assert forall|k: Seq<char>| a1.to_set().contains(k) <==> b1.to_set().contains(k) by {
            if a1.contains(k) {
                let i = choose|i: int| 0 <= i < a1.len() && a1[i] == k;
                assert(lt(a[i], a[a.len() - 1]));
                lemma_lt_irreflexive(k);
                assert(a.to_set().contains(a[i]));
                assert(b.contains(k));
                let j = choose|j: int| 0 <= j < b.len() && b[j] == k;
                assert(b1[j] == k);
            }
            if b1.contains(k) {
                let i = choose|i: int| 0 <= i < b1.len() && b1[i] == k;
                assert(lt(b[i], b[b.len() - 1]));
                lemma_lt_irreflexive(k);
                assert(b.to_set().contains(b[i]));
                assert(a.contains(k));
                let j = choose|j: int| 0 <= j < a.len() && a[j] == k;
                assert(a1[j] == k);
            }
        }
        assert forall|i: int, j: int| 0 <= i < j < a1.len() implies #[trigger] lt(a1[i], a1[j]) by {
            assert(lt(a[i], a[j]));
        }
        assert forall|i: int, j: int| 0 <= i < j < b1.len() implies #[trigger] lt(b1[i], b1[j]) by {
            assert(lt(b[i], b[j]));
        }
        assert(a1.to_set() == b1.to_set());
        lemma_ascending_unique(a1, b1);
        assert(a == a1.push(x));
        assert(b == b1.push(y));
    }
}

/// The decimal digit of value `d`.
pub open spec fn digit(d: int) -> char {
    if d == 0 {
        '0'
    } else if d == 1 {
        '1'
    } else if d == 2 {
        '2'
    } else if d == 3 {
        '3'
    } else if d == 4 {
        '4'
    } else if d == 5 {
        '5'
    } else if d == 6 {
        '6'
    } else if d == 7 {
        '7'
    } else if d == 8 {
        '8'
    } else {
        '9'
    }
}

/// A natural number in decimal, without leading zeros.
pub open spec fn decimal(n: nat) -> Seq<char>
    decreases n,
{
    if n < 10 {
        seq![digit(n as int)]
    } else {
        decimal(n / 10).push(digit((n % 10) as int))
    }
}

/// An integer in decimal, with a `-` in front when it is negative.
pub open spec fn signed_decimal(n: int) -> Seq<char> {
    if n < 0 {
        seq!['-'] + decimal((-n) as nat)
    } else {
        decimal(n as nat)
    }
}

fn digit_char(d: u64) -> (c: char)
    requires
        d < 10,
    ensures
        c == digit(d as int),
{
    if d == 0 {
        '0'
    } else if d == 1 {
        '1'
    } else if d == 2 {
        '2'
    } else if d == 3 {
        '3'
    } else if d == 4 {
        '4'
    } else if d == 5 {
        '5'
    } else if d == 6 {
        '6'
    } else if d == 7 {
        '7'
    } else if d == 8 {
        '8'
    } else {
        '9'
    }
}

/// A natural number in decimal.
pub fn to_decimal(n: u64) -> (r: String)
    ensures
        r@ == decimal(n as nat),
    decreases n,
{
    if n < 10 {
        let mut s: String = String::new();
        s.push(digit_char(n));
        proof {
            assert(s@ == seq![digit(n as int)]);
        }
        s
    } else {
        let mut s = to_decimal(n / 10);
        s.push(digit_char(n % 10));
        s
    }
}

/// An integer in decimal.
pub fn to_signed_decimal(n: i64) -> (r: String)
    ensures
        r@ == signed_decimal(n as int),
{
    if n >= 0 {
        to_decimal(n as u64)
    } else {
        let m: u64 = if n == i64::MIN {
            9_223_372_036_854_775_808
        } else {
            (-n) as u64
        };
        let mut s: String = String::new();
        s.push('-');
        proof {
            assert(s@ == seq!['-']);
        }
        let digits = to_decimal(m);
        s.append(digits.as_str());
        s
    }
}

/// The value of a decimal digit.
pub open spec fn digit_value(c: char) -> Option<nat> {
    if '0' <= c && c <= '9' {
        Some((c as u32 - '0' as u32) as nat)
    } else {
        None
    }
}

/// The number that a text of digits stands for.
pub open spec fn digits_value(s: Seq<char>) -> Option<nat>
    decreases s.len(),
{
    if s.len() == 0 {
        Some(0)
    } else {
        match (digits_value(s.drop_last()), digit_value(s.last())) {
            (Some(n), Some(d)) => Some(n * 10 + d),
            _ => None,
        }
    }
}

/// The number that a text stands for: digits, at least one, with an optional
/// `+` in front.
pub open spec fn natural(s: Seq<char>) -> Option<nat> {
    let t = if s.len() > 0 && s[0] == '+' {
        s.skip(1)
    } else {
        s
    };
    if t.len() == 0 {
        None
    } else {
        digits_value(t)
    }
}

proof fn lemma_digits_grow(s: Seq<char>, k: int)
    requires
        0 <= k <= s.len(),
        digits_value(s) is Some,
    ensures
        digits_value(s.take(k)) is Some,
        digits_value(s.take(k))->0 <= digits_value(s)->0,
    decreases s.len() - k,
{
    if k < s.len() {
        lemma_digits_grow(s, k + 1);
        assert(s.take(k + 1).drop_last() =~= s.take(k));
        assert(s.take(k + 1).last() == s[k]);
    } else {
        assert(s.take(k) =~= s);
    }
}

/// The number that a text stands for, if 64 bits hold it.
pub fn parse_natural(s: &Vec<char>) -> (r: Option<u64>)
    ensures
        match natural(s@) {
            Some(n) => if n <= u64::MAX {
                r == Some(n as u64)
            } else {
                r is None
            },
            None => r is None,
        },
{
    let from: usize = if s.len() > 0 && s[0] == '+' {
        1
    } else {
        0
    };
    if s.len() == from {
        return None;
    }
    let ghost t = s@.skip(from as int);
    proof {
        assert(s@.skip(0) =~= s@);
        assert(t.take(0) =~= Seq::<char>::empty());
        assert(natural(s@) == digits_value(t));
    }
    let mut value: u64 = 0;
    let mut i: usize = from;
    while i < s.len()
        invariant
            from <= i <= s.len(),
            from <= 1,
            t == s@.skip(from as int),
            natural(s@) == digits_value(t),
            digits_value(t.take(i - from)) == Some(value as nat),
        decreases s.len() - i,
    {
        let c = s[i];
        proof {
            assert(t.take(i - from + 1).drop_last() =~= t.take(i - from));
            assert(t.take(i - from + 1).last() == c);
        }
        if c < '0' || '9' < c {
            proof {
                assert(digits_value(t.take(i - from + 1)) is None);
                if digits_value(t) is Some {
                    lemma_digits_grow(t, i - from + 1);
                }
            }
            return None;
        }
        let d: u64 = (c as u32 - '0' as u32) as u64;
        proof {
            assert(digits_value(t.take(i - from + 1)) == Some((value * 10 + d) as nat));
        }
        if value > (u64::MAX - d) / 10 {
            proof {
                assert(value * 10 + d > u64::MAX);
                if digits_value(t) is Some {
                    lemma_digits_grow(t, i - from + 1);
                }
            }
            return None;
        }
        value = value * 10 + d;
        i = i + 1;
    }
    proof {
        assert(t.take(t.len() as int) =~= t);
    }
    Some(value)
}

/// A copy of a list of texts.
pub fn clone_texts(v: &Vec<String>) -> (r: Vec<String>)
    ensures
        r@ == v@,
{
    let mut out: Vec<String> = Vec::new();
    let mut i: usize = 0;
    while i < v.len()
        invariant
            i <= v.len(),
            out@ == v@.take(i as int),
        decreases v.len() - i,
    {
        out.push(v[i].clone());
        proof {
            assert(v@.take(i + 1) == v@.take(i as int).push(v@[i as int]));
        }
        i = i + 1;
    }
    proof {
        assert(v@.take(v@.len() as int) == v@);
    }
    out
}

/// The lowercase form of an ASCII capital; any other character is itself.
pub open spec fn lower_char(c: char) -> char {
    if 'A' <= c && c <= 'Z' {
        ((c as u32) + 32) as char
    } else {
        c
    }
}

/// A text with its ASCII capitals in lowercase.
pub open spec fn ascii_lower(s: Seq<char>) -> Seq<char> {
    Seq::new(s.len(), |i: int| lower_char(s[i]))
}

fn to_lower_char(c: char) -> (r: char)
    ensures
        r == lower_char(c),
{
    if 'A' <= c && c <= 'Z' {
        let b: u8 = c as u8;
        (b + 32) as char
    } else {
        c
    }
}

/// A text with its ASCII capitals in lowercase.
pub fn to_ascii_lower(s: &str) -> (r: String)
    ensures
        r@ == ascii_lower(s@),
{
    let chars = chars_of(s);
    let mut out: String = String::new();
    let mut i: usize = 0;
    while i < chars.len()
        invariant
            i <= chars.len(),
            chars@ == s@,
            out@ == ascii_lower(s@).take(i as int),
        decreases chars.len() - i,
    {
        out.push(to_lower_char(chars[i]));
        proof {
            assert(ascii_lower(s@).take(i + 1) == ascii_lower(s@).take(i as int).push(
                ascii_lower(s@)[i as int],
            ));
        }
        i = i + 1;
    }
    proof {
        assert(ascii_lower(s@).take(s@.len() as int) == ascii_lower(s@));
    }
    out
}

/// A search gives the leftmost place, and gives none only where there is none.
pub proof fn law_leftmost_place_is_found(s: Seq<char>, p: Seq<char>, i: int)
    requires
        0 <= i,
    ensures
        index_from(s, p, i) matches Some(k) ==> {
            &&& i <= k && k + p.len() <= s.len()
            &&& s.subrange(k, k + p.len()) == p
            &&& forall|j: int| i <= j < k ==> !occurs_at(s, p, j)
        },
        index_from(s, p, i) is None ==> forall|j: int| i <= j ==> !occurs_at(s, p, j),
    decreases s.len() + 1 - i,
{
    if i + p.len() <= s.len() && !occurs_at(s, p, i) {
        law_leftmost_place_is_found(s, p, i + 1);
    }
}

/// A text stands in another exactly if the other is something before it, the text,
/// and something behind it.
pub proof fn law_texts_stand_between_texts(a: Seq<char>, p: Seq<char>, b: Seq<char>)
    ensures
        occurs_in(a + p + b, p),
        forall|s: Seq<char>| #[trigger]
            occurs_in(s, p) ==> exists|x: Seq<char>, y: Seq<char>| s == #[trigger] (x + p + y),
{
    let s = a + p + b;
    assert(s.subrange(a.len() as int, (a.len() + p.len()) as int) =~= p);
    assert(occurs_at(s, p, a.len() as int));
    assert forall|s: Seq<char>| #[trigger] occurs_in(s, p) implies exists|
        x: Seq<char>,
        y: Seq<char>,
    | s == #[trigger] (x + p + y) by {
        let i = choose|i: int| occurs_at(s, p, i);
        assert(s =~= s.take(i) + p + s.skip(i + p.len())) by {
            assert forall|j: int| i <= j < i + p.len() implies s[j] == p[j - i] by {
                assert(s.subrange(i, i + p.len())[j - i] == s[j]);
            }
        }
    }
}

/// Joined texts stand one behind the other, with the separator between them.
pub proof fn law_joined_texts_follow_each_other(
    parts: Seq<Seq<char>>,
    last: Seq<char>,
    sep: Seq<char>,
)
    ensures
        joined(Seq::empty(), sep).len() == 0,
        joined(seq![last], sep) == last,
        parts.len() > 0 ==> joined(parts.push(last), sep) == joined(parts, sep) + sep + last,
{
    assert(parts.push(last).drop_last() =~= parts);
}

proof fn lemma_joined_first(first: Seq<char>, rest: Seq<Seq<char>>, sep: Seq<char>)
    requires
        rest.len() > 0,
    ensures
        joined(seq![first] + rest, sep) == first + sep + joined(rest, sep),
    decreases rest.len(),
{
    let all = seq![first] + rest;
    assert(all.last() == rest.last());
    if rest.len() == 1 {
        assert(all.drop_last() =~= seq![first]);
        assert(joined(seq![first], sep) == first);
        assert(joined(rest, sep) == rest.last());
    } else {
        lemma_joined_first(first, rest.drop_last(), sep);
        assert(all.drop_last() =~= seq![first] + rest.drop_last());
        assert(joined(all, sep) =~= first + sep + joined(rest.drop_last(), sep) + sep
            + rest.last());
        assert(joined(rest, sep) =~= joined(rest.drop_last(), sep) + sep + rest.last());
    }
}

/// Splitting loses nothing: no piece holds the separator, and joined with it the
/// pieces are the text again.
pub proof fn law_joining_undoes_splitting(s: Seq<char>, c: char)
    ensures
        split(s, c).len() > 0,
        joined(split(s, c), seq![c]) == s,
        forall|i: int| 0 <= i < split(s, c).len() ==> !(#[trigger] split(s, c)[i]).contains(c),
    decreases s.len(),
{
    lemma_pos_is_first(s, c);
    let k = pos(s, c);
    if 0 <= k < s.len() {
        law_joining_undoes_splitting(s.skip(k + 1), c);
        lemma_joined_first(s.take(k), split(s.skip(k + 1), c), seq![c]);
        assert(s =~= s.take(k) + seq![c] + s.skip(k + 1));
    } else {
        assert(split(s, c) =~= seq![s]);
    }
}

/// A digit is the character that many places behind the zero, and is worth that much;
/// no other character is worth anything.
pub proof fn law_digits_are_worth_their_place(d: int, c: char)
    ensures
        0 <= d <= 9 ==> digit(d) as u32 == '0' as u32 + d,
        0 <= d <= 9 ==> digit_value(digit(d)) == Some(d as nat),
        digit_value(c) is Some <==> '0' <= c && c <= '9',
        digit_value(c) matches Some(v) ==> c as u32 == '0' as u32 + v && v <= 9,
{
}

/// Reading a number gives back what was written, and what is written has no leading
/// zeros.
pub proof fn law_numbers_read_back(n: nat)
    ensures
        digits_value(decimal(n)) == Some(n),
        natural(decimal(n)) == Some(n),
        natural(seq!['+'] + decimal(n)) == Some(n),
        decimal(n).len() > 0,
        n > 0 ==> decimal(n)[0] != '0',
        n == 0 ==> decimal(n) == seq!['0'],
        '1' <= decimal(n)[0] <= '9' || n == 0,
    decreases n,
{
    law_digits_are_worth_their_place((n % 10) as int, '0');
    if n < 10 {
        assert(decimal(n).drop_last() =~= Seq::<char>::empty());
        assert(digits_value(Seq::<char>::empty()) == Some(0nat));
    } else {
        law_numbers_read_back(n / 10);
        assert(decimal(n).drop_last() =~= decimal(n / 10));
        assert(n == (n / 10) * 10 + n % 10);
    }
    assert((seq!['+'] + decimal(n)).skip(1) =~= decimal(n));
}

/// A text stands for a number only if it is digits throughout, at least one, behind
/// an optional plus; one more digit makes ten times as much and the digit.
pub proof fn law_numbers_are_digits_throughout(s: Seq<char>, c: char)
    ensures
        natural(Seq::empty()) is None,
        natural(seq!['+']) is None,
        !('0' <= c && c <= '9') ==> digits_value(s.push(c)) is None,
        '0' <= c && c <= '9' ==> (digits_value(s.push(c)) is Some <==> digits_value(s) is Some),
        '0' <= c && c <= '9' ==> (digits_value(s) matches Some(n) ==> digits_value(s.push(c))
            == Some((n * 10 + (c as u32 - '0' as u32)) as nat)),
        s.len() > 0 && s[0] != '+' ==> natural(s) == digits_value(s),
        s.len() > 0 ==> natural(seq!['+'] + s) == digits_value(s),
        digits_value(s) matches Some(n) ==> forall|i: int|
            0 <= i < s.len() ==> '0' <= #[trigger] s[i] && s[i] <= '9',
    decreases s.len(),
{
    assert(s.push(c).drop_last() =~= s);
    assert((seq!['+'] + s).skip(1) =~= s);
    assert(seq!['+'].skip(1) =~= Seq::<char>::empty());
    if s.len() > 0 && digits_value(s) is Some {
        law_numbers_are_digits_throughout(s.drop_last(), c);
        assert forall|i: int| 0 <= i < s.len() implies '0' <= #[trigger] s[i] && s[i] <= '9' by {
            if i < s.len() - 1 {
                assert(s.drop_last()[i] == s[i]);
            }
        }
    }
}

/// A negative number is its magnitude behind a minus, any other has no sign.
pub proof fn law_signs_stand_in_front(n: nat)
    ensures
        signed_decimal(n as int) == decimal(n),
        n > 0 ==> signed_decimal(-(n as int)) == seq!['-'] + decimal(n),
{
}

/// Only the capitals A to Z change when a text is put in lowercase, each into the
/// letter 32 places behind it.
pub proof fn law_only_capitals_are_lowered(s: Seq<char>, i: int)
    requires
        0 <= i < s.len(),
    ensures
        ascii_lower(s).len() == s.len(),
        'A' <= s[i] && s[i] <= 'Z' ==> ascii_lower(s)[i] as u32 == s[i] as u32 + 32,
        !('A' <= s[i] && s[i] <= 'Z') ==> ascii_lower(s)[i] == s[i],
{
}

} // verus!
