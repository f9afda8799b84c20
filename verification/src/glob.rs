//! Matching of texts against patterns whose only wildcard is `*`.
use vstd::prelude::*;
use crate::text;

verus! {

/// `input` matches `pattern`: every `*` stands for some text, possibly empty,
/// and every other character for itself.
pub open spec fn globs(pattern: Seq<char>, input: Seq<char>) -> bool
    decreases pattern.len(),
{
    if pattern.len() == 0 {
        input.len() == 0
    } else if pattern[0] == '*' {
        exists|k: int| 0 <= k <= input.len() && globs(pattern.skip(1), #[trigger] input.skip(k))
    } else {
        input.len() > 0 && input[0] == pattern[0] && globs(pattern.skip(1), input.skip(1))
    }
}

/// The text holds no `*`.
pub open spec fn literal(q: Seq<char>) -> bool {
    forall|i: int| 0 <= i < q.len() ==> q[i] != '*'
}

/// The parts, each with a `*` in front of it.
spec fn starred(parts: Seq<Seq<char>>) -> Seq<char>
    decreases parts.len(),
{
    if parts.len() == 0 {
        Seq::empty()
    } else {
        seq!['*'] + parts[0] + starred(parts.skip(1))
    }
}

/// A literal in front of a pattern must stand in front of the input.
proof fn lemma_literal_prefix(q: Seq<char>, r: Seq<char>, s: Seq<char>)
    requires
        literal(q),
    ensures
        globs(q + r, s) == (q.is_prefix_of(s) && globs(r, s.skip(q.len() as int))),
    decreases q.len(),
{
    if q.len() == 0 {
        assert(q + r == r);
        assert(s.skip(0) == s);
    } else {
        let p = q + r;
        assert(p[0] == q[0]);
        assert(p.skip(1) == q.skip(1) + r);
        if s.len() > 0 && s[0] == q[0] {
            lemma_literal_prefix(q.skip(1), r, s.skip(1));
            if q.len() <= s.len() {
                assert(s.skip(1).skip(q.len() - 1) == s.skip(q.len() as int));
            }
            if q.skip(1).is_prefix_of(s.skip(1)) {
                assert forall|i: int| 0 <= i < q.len() implies q[i] == s[i] by {
                    if i > 0 {
                        assert(q.skip(1)[i - 1] == s.skip(1)[i - 1]);
                    }
                }
                assert(q.is_prefix_of(s));
            }
            if q.is_prefix_of(s) {
                assert forall|i: int| 0 <= i < q.len() - 1 implies q.skip(1)[i] == s.skip(
                    1,
                )[i] by {
                    assert(q[i + 1] == s[i + 1]);
                }
                assert(q.skip(1).is_prefix_of(s.skip(1)));
            }
        } else {
            if q.is_prefix_of(s) {
                assert(q[0] == s[0]);
            }
        }
    }
}

/// A pattern that starts with `*` matches every text of which it matches a
/// tail.
proof fn lemma_star_absorbs(r: Seq<char>, s: Seq<char>, k: int)
    requires
        r.len() > 0,
        r[0] == '*',
        0 <= k <= s.len(),
        globs(r, s.skip(k)),
    ensures
        globs(r, s),
{
    let j = choose|j: int|
        0 <= j <= s.skip(k).len() && globs(r.skip(1), #[trigger] s.skip(k).skip(j));
    assert(s.skip(k).skip(j) == s.skip(k + j));
    assert(globs(r.skip(1), s.skip(k + j)));
}

/// Between two stars a literal may be taken at its leftmost occurrence.
proof fn lemma_star_literal(q: Seq<char>, r: Seq<char>, s: Seq<char>, k0: int)
    requires
        literal(q),
        r.len() > 0,
        r[0] == '*',
        text::occurs_at(s, q, k0),
        forall|j: int| 0 <= j < k0 ==> !text::occurs_at(s, q, j),
    ensures
        globs(seq!['*'] + q + r, s) == globs(r, s.skip(k0 + q.len())),
{
    let p = seq!['*'] + q + r;
    assert(p.skip(1) == q + r);
    if globs(r, s.skip(k0 + q.len())) {
        lemma_literal_prefix(q, r, s.skip(k0));
        assert(s.skip(k0).skip(q.len() as int) == s.skip(k0 + q.len()));
        assert(s.skip(k0).subrange(0, q.len() as int) == s.subrange(k0, k0 + q.len()));
        assert(globs(p.skip(1), s.skip(k0)));
    }
    if globs(p, s) {
        let k = choose|k: int| 0 <= k <= s.len() && globs(p.skip(1), #[trigger] s.skip(k));
        lemma_literal_prefix(q, r, s.skip(k));
        assert(s.skip(k).subrange(0, q.len() as int) == s.subrange(k, k + q.len()));
        assert(text::occurs_at(s, q, k));
        assert(k0 <= k);
        let t = s.skip(k0 + q.len());
        assert(s.skip(k).skip(q.len() as int) == t.skip(k - k0));
        lemma_star_absorbs(r, t, k - k0);
    }
}

/// A literal that does not occur keeps every pattern that needs it from
/// matching.
proof fn lemma_star_literal_absent(q: Seq<char>, r: Seq<char>, s: Seq<char>)
    requires
        literal(q),
        forall|j: int| 0 <= j ==> !text::occurs_at(s, q, j),
    ensures
        !globs(seq!['*'] + q + r, s),
{
    let p = seq!['*'] + q + r;
    assert(p.skip(1) == q + r);
    if globs(p, s) {
        let k = choose|k: int| 0 <= k <= s.len() && globs(p.skip(1), #[trigger] s.skip(k));
        lemma_literal_prefix(q, r, s.skip(k));
        assert(s.skip(k).subrange(0, q.len() as int) == s.subrange(k, k + q.len()));
        assert(text::occurs_at(s, q, k));
    }
}

/// A literal behind the last star must stand at the end of the input.
proof fn lemma_star_literal_last(q: Seq<char>, s: Seq<char>)
    requires
        literal(q),
    ensures
        globs(seq!['*'] + q, s) == q.is_suffix_of(s),
{
    let p = seq!['*'] + q;
    assert(p.skip(1) == q);
    assert(q + Seq::<char>::empty() == q);
    if q.is_suffix_of(s) {
        let k = s.len() - q.len();
        lemma_literal_prefix(q, Seq::empty(), s.skip(k));
        assert(s.skip(k) == q);
        assert(globs(p.skip(1), s.skip(k)));
    }
    if globs(p, s) {
        let k = choose|k: int| 0 <= k <= s.len() && globs(p.skip(1), #[trigger] s.skip(k));
        lemma_literal_prefix(q, Seq::empty(), s.skip(k));
        assert(s.skip(k) == q);
        assert(s.subrange(s.len() - q.len(), s.len() as int) == s.skip(k));
    }
}

/// A pattern is its parts between the stars.
proof fn lemma_parts(pattern: Seq<char>)
    ensures
        text::split(pattern, '*').len() >= 1,
        forall|i: int|
            0 <= i < text::split(pattern, '*').len() ==> literal(
                #[trigger] text::split(pattern, '*')[i],
            ),
        pattern == text::split(pattern, '*')[0] + starred(text::split(pattern, '*').skip(1)),
    decreases pattern.len(),
{
    let k = text::pos(pattern, '*');
    text::lemma_pos_is_first(pattern, '*');
    let parts = text::split(pattern, '*');
    if k < pattern.len() {
        let rest = pattern.skip(k + 1);
        lemma_parts(rest);
        let tail = text::split(rest, '*');
        assert(parts == seq![pattern.take(k)] + tail);
        assert(parts.skip(1) == tail);
        assert forall|i: int| 0 <= i < parts.len() implies literal(#[trigger] parts[i]) by {
            if i > 0 {
                assert(parts[i] == tail[i - 1]);
            }
        }
        assert(starred(tail) == seq!['*'] + tail[0] + starred(tail.skip(1)));
        assert(pattern == pattern.take(k) + (seq!['*'] + rest));
        assert(seq!['*'] + rest == seq!['*'] + tail[0] + starred(tail.skip(1)));
    } else {
        assert(parts == seq![pattern]);
        assert(starred(parts.skip(1)) == Seq::<char>::empty());
        assert(pattern + Seq::<char>::empty() == pattern);
    }
}

/// Simple `*`-only glob matcher (deterministic, no regex engine).
pub fn glob_match(pattern: &str, input: &str) -> (r: bool)
    ensures
        r == globs(pattern@, input@),
{
    let pv = text::chars_of(pattern);
    let s = text::chars_of(input);
    let parts = text::split_on(&pv, '*');
    let ghost ps = text::split(pattern@, '*');
    proof {
        lemma_parts(pattern@);
        assert forall|i: int| 0 <= i < ps.len() implies #[trigger] ps[i] == parts@[i]@ by {
            assert(parts.deep_view()[i] == parts@[i].deep_view());
            assert(parts@[i].deep_view() == parts@[i]@);
        }
        lemma_literal_prefix(ps[0], starred(ps.skip(1)), s@);
    }
    let first = &parts[0];
    if !text::match_at(&s, first, 0) {
        proof {
            assert(!ps[0].is_prefix_of(s@));
        }
        return false;
    }
    let mut at: usize = first.len();
    if parts.len() == 1 {
        proof {
            assert(ps.skip(1) == Seq::<Seq<char>>::empty());
        }
        return at == s.len();
    }
    let mut i: usize = 1;
    while i < parts.len() - 1
        invariant
            1 <= i < parts.len(),
            ps.len() == parts.len(),
            at <= s.len(),
            s@ == input@,
            forall|j: int| 0 <= j < ps.len() ==> literal(#[trigger] ps[j]),
            forall|j: int| 0 <= j < ps.len() ==> #[trigger] ps[j] == parts@[j]@,
            globs(pattern@, s@) == globs(starred(ps.skip(i as int)), s@.skip(at as int)),
        decreases parts.len() - i,
    {
        let ghost t = s@.skip(at as int);
        let ghost q = ps[i as int];
        let ghost r = starred(ps.skip(i + 1));
        proof {
            assert(ps.skip(i as int)[0] == q);
            assert(ps.skip(i as int).skip(1) == ps.skip(i + 1));
            assert(starred(ps.skip(i as int)) == seq!['*'] + q + r);
            assert(ps.skip(i + 1).len() > 0);
            assert(r[0] == '*');
        }
        match text::find_from(&s, &parts[i], at) {
            Some(k) => {
                proof {
                    assert(t.subrange(k - at, k - at + q.len()) == s@.subrange(
                        k as int,
                        k + q.len(),
                    ));
                    assert forall|j: int| 0 <= j < k - at implies !text::occurs_at(t, q, j) by {
                        if text::occurs_at(t, q, j) {
                            assert(t.subrange(j, j + q.len()) == s@.subrange(
                                at + j,
                                at + j + q.len(),
                            ));
                            assert(text::occurs_at(s@, q, at + j));
                        }
                    }
                    lemma_star_literal(q, r, t, k - at);
                    assert(t.skip(k - at + q.len()) == s@.skip(k + q.len()));
                }
                at = k + parts[i].len();
            },
            None => {
                proof {
                    assert forall|j: int| 0 <= j implies !text::occurs_at(t, q, j) by {
                        if text::occurs_at(t, q, j) {
                            assert(t.subrange(j, j + q.len()) == s@.subrange(
                                at + j,
                                at + j + q.len(),
                            ));
                            assert(text::occurs_at(s@, q, at + j));
                        }
                    }
                    lemma_star_literal_absent(q, r, t);
                }
                return false;
            },
        }
        i = i + 1;
    }
    let last = &parts[i];
    let ghost q = ps[i as int];
    let ghost t = s@.skip(at as int);
    proof {
        assert(ps.skip(i as int)[0] == q);
        assert(ps.skip(i as int).skip(1) == Seq::<Seq<char>>::empty());
        assert(starred(Seq::<Seq<char>>::empty()) == Seq::<char>::empty());
        assert(starred(ps.skip(i as int)) == seq!['*'] + q + Seq::<char>::empty());
        assert(seq!['*'] + q + Seq::<char>::empty() == seq!['*'] + q);
        lemma_star_literal_last(q, t);
    }
    if last.len() > s.len() - at {
        return false;
    }
    let from: usize = s.len() - last.len();
    proof {
        assert(t.subrange(t.len() - q.len(), t.len() as int) == s@.subrange(
            from as int,
            from + q.len(),
        ));
    }
    text::match_at(&s, last, from)
}

/// The pattern `*` matches every text.
pub proof fn law_star_matches_everything(input: Seq<char>)
    ensures
        globs(seq!['*'], input),
{
    let p = seq!['*'];
    assert(p.skip(1) == Seq::<char>::empty());
    assert(globs(p.skip(1), input.skip(input.len() as int)));
}

/// A pattern without `*` matches only itself.
pub proof fn law_literal_matches_itself_only(pattern: Seq<char>, input: Seq<char>)
    requires
        literal(pattern),
    ensures
        globs(pattern, input) == (pattern == input),
{
    lemma_literal_prefix(pattern, Seq::empty(), input);
    assert(pattern + Seq::<char>::empty() == pattern);
    if pattern.is_prefix_of(input) && input.skip(pattern.len() as int).len() == 0 {
        assert(pattern == input);
    }
    if pattern == input {
        assert(input.skip(pattern.len() as int) == Seq::<char>::empty());
    }
}

/// A pattern in two parts matches exactly the texts whose one part matches the first
/// and whose other part matches the second. With what `*` and plain characters
/// match, this settles every pattern.
pub proof fn law_patterns_match_part_by_part(p: Seq<char>, q: Seq<char>, s: Seq<char>)
    ensures
        globs(p + q, s) <==> exists|k: int|
            0 <= k <= s.len() && globs(p, #[trigger] s.take(k)) && globs(q, s.skip(k)),
    decreases p.len(),
{
    if p.len() == 0 {
        assert(p + q =~= q);
        assert(s.skip(0) =~= s);
        assert(s.take(0).len() == 0);
        if globs(q, s) {
            assert(globs(p, s.take(0)) && globs(q, s.skip(0)));
        }
        assert forall|k: int|
            0 <= k <= s.len() && globs(p, #[trigger] s.take(k)) && globs(q, s.skip(k)) implies globs(
            p + q,
            s,
        ) by {
            assert(k == 0);
        }
    } else {
        let w = p + q;
        let rest = p.skip(1);
        assert(w[0] == p[0]);
        assert(w.skip(1) =~= rest + q);
        if p[0] == '*' {
            if globs(w, s) {
                let j = choose|j: int|
                    0 <= j <= s.len() && globs(w.skip(1), #[trigger] s.skip(j));
                law_patterns_match_part_by_part(rest, q, s.skip(j));
                let k = choose|k: int|
                    0 <= k <= s.skip(j).len() && globs(rest, #[trigger] s.skip(j).take(k))
                        && globs(q, s.skip(j).skip(k));
                assert(s.take(j + k).skip(j) =~= s.skip(j).take(k));
                assert(s.skip(j).skip(k) =~= s.skip(j + k));
                assert(globs(p, s.take(j + k)));
            }
            assert forall|k: int|
                0 <= k <= s.len() && globs(p, #[trigger] s.take(k)) && globs(
                    q,
                    s.skip(k),
                ) implies globs(w, s) by {
                let j = choose|j: int|
                    0 <= j <= s.take(k).len() && globs(rest, #[trigger] s.take(k).skip(j));
                law_patterns_match_part_by_part(rest, q, s.skip(j));
                assert(s.skip(j).take(k - j) =~= s.take(k).skip(j));
                assert(s.skip(j).skip(k - j) =~= s.skip(k));
                assert(globs(w.skip(1), s.skip(j)));
            }
        } else if s.len() > 0 && s[0] == p[0] {
            law_patterns_match_part_by_part(rest, q, s.skip(1));
            if globs(w, s) {
                let k = choose|k: int|
                    0 <= k <= s.skip(1).len() && globs(rest, #[trigger] s.skip(1).take(k))
                        && globs(q, s.skip(1).skip(k));
                assert(s.take(k + 1).skip(1) =~= s.skip(1).take(k));
                assert(s.skip(1).skip(k) =~= s.skip(k + 1));
                assert(s.take(k + 1)[0] == p[0]);
                assert(globs(p, s.take(k + 1)));
            }
            assert forall|k: int|
                0 <= k <= s.len() && globs(p, #[trigger] s.take(k)) && globs(
                    q,
                    s.skip(k),
                ) implies globs(w, s) by {
                assert(k > 0);
                assert(s.skip(1).take(k - 1) =~= s.take(k).skip(1));
                assert(s.skip(1).skip(k - 1) =~= s.skip(k));
                assert(globs(rest, s.skip(1).take(k - 1)) && globs(q, s.skip(1).skip(k - 1)));
            }
        } else {
            assert forall|k: int|
                0 <= k <= s.len() && globs(p, #[trigger] s.take(k)) implies false by {
                assert(s.take(k).len() > 0);
                assert(s.take(k)[0] == s[0]);
            }
        }
    }
}

} // verus!
