//! Lines, blanks and encoded lengths of text.
use vstd::prelude::*;
use vstd::utf8::{decode_utf8, encode_scalar, encode_utf8, valid_utf8};
use crate::text;

verus! {

/// The characters that Unicode gives the property `White_Space`.
pub open spec fn white_space(c: char) -> bool {
    let u = c as u32;
    ||| 0x9 <= u <= 0xd
    ||| u == 0x20
    ||| u == 0x85
    ||| u == 0xa0
    ||| u == 0x1680
    ||| 0x2000 <= u <= 0x200a
    ||| u == 0x2028
    ||| u == 0x2029
    ||| u == 0x202f
    ||| u == 0x205f
    ||| u == 0x3000
}

/// Whether Unicode counts the character as white space.
pub fn is_white_space(c: char) -> (r: bool)
    ensures
        r == white_space(c),
{
    let u: u32 = c as u32;
    (0x9 <= u && u <= 0xd) || u == 0x20 || u == 0x85 || u == 0xa0 || u == 0x1680 || (0x2000 <= u
        && u <= 0x200a) || u == 0x2028 || u == 0x2029 || u == 0x202f || u == 0x205f || u == 0x3000
}

/// The text without the white space it starts with.
pub open spec fn trim_left(s: Seq<char>) -> Seq<char>
    decreases s.len(),
{
    if s.len() > 0 && white_space(s[0]) {
        trim_left(s.skip(1))
    } else {
        s
    }
}

/// The text without the white space it ends with.
pub open spec fn trim_right(s: Seq<char>) -> Seq<char>
    decreases s.len(),
{
    if s.len() > 0 && white_space(s.last()) {
        trim_right(s.drop_last())
    } else {
        s
    }
}

/// The text without the white space it starts and ends with.
pub open spec fn trimmed(s: Seq<char>) -> Seq<char> {
    trim_right(trim_left(s))
}

/// The text without the white space it starts and ends with.
pub fn trim(s: &Vec<char>) -> (r: Vec<char>)
    ensures
        r@ == trimmed(s@),
{
    let n = s.len();
    let mut i: usize = 0;
    proof {
        assert(s@.skip(0) == s@);
    }
    while i < n && is_white_space(s[i])
        invariant
            i <= n,
            n == s.len(),
            trim_left(s@.skip(i as int)) == trim_left(s@),
        decreases n - i,
    {
        proof {
            assert(s@.skip(i as int).skip(1) == s@.skip(i + 1));
        }
        i = i + 1;
    }
    let ghost left = s@.skip(i as int);
    let mut j: usize = n;
    proof {
        assert(left == trim_left(s@));
        assert(left.take(n - i) == left);
    }
    while i < j && is_white_space(s[j - 1])
        invariant
            i <= j <= n,
            n == s.len(),
            left == s@.skip(i as int),
            trim_right(left.take(j - i)) == trim_right(left),
        decreases j,
    {
        proof {
            assert(left.take(j - i).last() == s@[j - 1]);
            assert(left.take(j - i).drop_last() == left.take(j - i - 1));
        }
        j = j - 1;
    }
    proof {
        if i < j {
            assert(left.take(j - i).last() == s@[j - 1]);
        }
        assert(left.take(j - i) == s@.subrange(i as int, j as int));
    }
    text::slice(s, i, j)
}

/// A line without the carriage return that precedes its line feed.
pub open spec fn without_cr(line: Seq<char>) -> Seq<char> {
    if line.len() > 0 && line.last() == '\r' {
        line.drop_last()
    } else {
        line
    }
}

/// The lines of a text. A line ends with a line feed, which a carriage return
/// may precede; the end of the last line is optional.
pub open spec fn lines_of(s: Seq<char>) -> Seq<Seq<char>>
    decreases s.len(),
{
    let k = text::pos(s, '\n');
    if s.len() == 0 {
        Seq::empty()
    } else if 0 <= k < s.len() {
        seq![without_cr(s.take(k))] + lines_of(s.skip(k + 1))
    } else {
        seq![s]
    }
}

/// The lines of a text.
pub fn lines(s: &Vec<char>) -> (r: Vec<Vec<char>>)
    ensures
        r.deep_view() == lines_of(s@),
{
    let mut out: Vec<Vec<char>> = Vec::new();
    let mut start: usize = 0;
    proof {
        assert(s@.skip(0) == s@);
        assert(out.deep_view() + lines_of(s@) == lines_of(s@));
    }
    while start < s.len()
        invariant
            start <= s.len(),
            out.deep_view() + lines_of(s@.skip(start as int)) == lines_of(s@),
        decreases s.len() - start,
    {
        let ghost rest = s@.skip(start as int);
        let ghost before = out.deep_view();
        let k = text::pos_from(s, '\n', start);
        if k == s.len() {
            let piece = text::slice(s, start, k);
            proof {
                assert(piece@ == rest);
                assert(piece.deep_view() == piece@);
            }
            out.push(piece);
            proof {
                assert(out.deep_view() =~= before.push(rest));
                assert(before.push(rest) =~= before + seq![rest]);
                assert(lines_of(rest) == seq![rest]);
            }
            return out;
        }
        let end: usize = if k > start && s[k - 1] == '\r' {
            k - 1
        } else {
            k
        };
        let piece = text::slice(s, start, end);
        let ghost line = without_cr(rest.take(k - start));
        proof {
            assert(rest.take(k - start) == s@.subrange(start as int, k as int));
            if k > start {
                assert(rest.take(k - start).last() == s@[k - 1]);
            }
            assert(piece@ == line);
            assert(piece.deep_view() == piece@);
        }
        out.push(piece);
        proof {
            assert(out.deep_view() =~= before.push(line));
            assert(rest.skip(k - start + 1) == s@.skip(k + 1));
            assert(before.push(line) + lines_of(s@.skip(k + 1)) =~= before + (seq![line]
                + lines_of(s@.skip(k + 1))));
        }
        start = k + 1;
    }
    proof {
        assert(s@.skip(start as int) =~= Seq::<char>::empty());
        assert(out.deep_view() + Seq::<Seq<char>>::empty() =~= out.deep_view());
    }
    out
}

/// How many bytes a character takes in UTF-8.
pub open spec fn width(c: char) -> nat {
    let u = c as u32;
    if u <= 0x7f {
        1
    } else if u <= 0x7ff {
        2
    } else if u <= 0xffff {
        3
    } else {
        4
    }
}

/// The longest start of a text that takes at most `limit` bytes in UTF-8.
pub open spec fn capped(s: Seq<char>, limit: nat) -> Seq<char>
    decreases s.len(),
{
    if s.len() == 0 || width(s[0]) > limit {
        Seq::empty()
    } else {
        seq![s[0]] + capped(s.skip(1), (limit - width(s[0])) as nat)
    }
}

/// How many bytes a character takes in UTF-8.
pub fn char_width(c: char) -> (r: usize)
    ensures
        r == width(c),
{
    let u: u32 = c as u32;
    if u <= 0x7f {
        1
    } else if u <= 0x7ff {
        2
    } else if u <= 0xffff {
        3
    } else {
        4
    }
}

/// The longest start of a text that takes at most `limit` bytes in UTF-8.
pub fn cap(s: &Vec<char>, limit: usize) -> (r: Vec<char>)
    ensures
        r@ == capped(s@, limit as nat),
{
    let mut out: Vec<char> = Vec::new();
    let mut left: usize = limit;
    let mut i: usize = 0;
    proof {
        assert(s@.skip(0) == s@);
        assert(out@ + capped(s@, limit as nat) == capped(s@, limit as nat));
    }
    while i < s.len()
        invariant
            i <= s.len(),
            out@ + capped(s@.skip(i as int), left as nat) == capped(s@, limit as nat),
        decreases s.len() - i,
    {
        let w = char_width(s[i]);
        if w > left {
            proof {
                assert(out@ + Seq::<char>::empty() == out@);
            }
            return out;
        }
        let ghost before = out@;
        let ghost rest = capped(s@.skip(i + 1), (left - w) as nat);
        out.push(s[i]);
        proof {
            assert(s@.skip(i as int).skip(1) == s@.skip(i + 1));
            assert(before.push(s@[i as int]) + rest =~= before + (seq![s@[i as int]] + rest));
        }
        left = left - w;
        i = i + 1;
    }
    proof {
        assert(s@.skip(i as int) =~= Seq::<char>::empty());
        assert(out@ + Seq::<char>::empty() == out@);
    }
    out
}

proof fn lemma_width(c: char)
    ensures
        encode_scalar(c as u32).len() == width(c),
{
    vstd::utf8::char_is_scalar(c);
}

/// What is capped fits: its UTF-8 encoding takes at most `limit` bytes, and it
/// is a start of the text.
pub proof fn law_capped_text_fits(s: Seq<char>, limit: nat)
    ensures
        encode_utf8(capped(s, limit)).len() <= limit,
        capped(s, limit).is_prefix_of(s),
        encode_utf8(s).len() <= limit ==> capped(s, limit) == s,
    decreases s.len(),
{
    if s.len() > 0 {
        let w = width(s[0]);
        lemma_width(s[0]);
        assert(s.drop_first() == s.skip(1));
        if w <= limit {
            let rest = capped(s.skip(1), (limit - w) as nat);
            law_capped_text_fits(s.skip(1), (limit - w) as nat);
            let c = seq![s[0]] + rest;
            assert(c.drop_first() =~= rest);
            assert(encode_utf8(c).len() == w + encode_utf8(rest).len());
            assert(seq![s[0]] + s.skip(1) =~= s);
        }
    }
}

/// Where the word ends that starts at `i`.
pub open spec fn word_end(s: Seq<char>, i: int) -> int
    decreases s.len() - i,
{
    if i >= s.len() || white_space(s[i]) {
        i
    } else {
        word_end(s, i + 1)
    }
}

/// A word ends within its text.
pub proof fn lemma_word_end(s: Seq<char>, i: int)
    requires
        0 <= i <= s.len(),
    ensures
        i <= word_end(s, i) <= s.len(),
    decreases s.len() - i,
{
    if i < s.len() && !white_space(s[i]) {
        lemma_word_end(s, i + 1);
    }
}

/// The words of a text from position `i` on: what stands between white space.
pub open spec fn words_from(s: Seq<char>, i: int) -> Seq<Seq<char>>
    decreases s.len() - i,
{
    if i < 0 || i >= s.len() {
        Seq::empty()
    } else if white_space(s[i]) {
        words_from(s, i + 1)
    } else {
        proof {
            lemma_word_end(s, i + 1);
        }
        seq![s.subrange(i, word_end(s, i))] + words_from(s, word_end(s, i))
    }
}

/// The words of a text.
pub fn words(s: &Vec<char>) -> (r: Vec<Vec<char>>)
    ensures
        r.deep_view() == words_from(s@, 0),
{
    let mut out: Vec<Vec<char>> = Vec::new();
    let mut i: usize = 0;
    proof {
        assert(out.deep_view() + words_from(s@, 0) =~= words_from(s@, 0));
    }
    while i < s.len()
        invariant
            i <= s.len(),
            out.deep_view() + words_from(s@, i as int) == words_from(s@, 0),
        decreases s.len() - i,
    {
        if is_white_space(s[i]) {
            i = i + 1;
        } else {
            let mut e: usize = i + 1;
            while e < s.len() && !is_white_space(s[e])
                invariant
                    i < e <= s.len(),
                    word_end(s@, i as int) == word_end(s@, e as int),
                decreases s.len() - e,
            {
                e = e + 1;
            }
            let word = text::slice(s, i, e);
            let ghost before = out.deep_view();
            out.push(word);
            proof {
                assert(word.deep_view() == word@);
                assert(out.deep_view() =~= before.push(s@.subrange(i as int, e as int)));
                assert(before.push(s@.subrange(i as int, e as int)) + words_from(s@, e as int)
                    =~= before + (seq![s@.subrange(i as int, e as int)] + words_from(
                    s@,
                    e as int,
                )));
            }
            i = e;
        }
    }
    proof {
        assert(out.deep_view() + words_from(s@, i as int) =~= out.deep_view());
    }
    out
}

/// What a byte string reads as: its text if it is UTF-8, else with replacement
/// characters in place of what is not.
pub uninterp spec fn lossy_text(bytes: Seq<u8>) -> Seq<char>;

/// `String::from_utf8_lossy`: the bytes as text, invalid sequences replaced.
/// Bytes that are UTF-8 read as the text that they encode.
#[verifier::external_body]
pub(crate) fn read_lossy(bytes: &[u8]) -> (r: String)
    ensures
        r@ == lossy_text(bytes@),
        valid_utf8(bytes@) ==> r@ == decode_utf8(bytes@),
{
    String::from_utf8_lossy(bytes).into_owned()
}

/// Trimming takes white space from the ends and nothing else: what is left is a part
/// of the text that starts and ends with something to be seen, if anything is left.
pub proof fn law_trimming_takes_only_white_space(s: Seq<char>)
    ensures
        trim_left(s).len() <= s.len(),
        trim_left(s) == s.skip(s.len() - trim_left(s).len()),
        forall|i: int|
            0 <= i < s.len() - trim_left(s).len() ==> white_space(#[trigger] s[i]),
        trim_left(s).len() > 0 ==> !white_space(trim_left(s)[0]),
        trim_right(s).len() <= s.len(),
        trim_right(s) == s.take(trim_right(s).len() as int),
        forall|i: int| trim_right(s).len() <= i < s.len() ==> white_space(#[trigger] s[i]),
        trim_right(s).len() > 0 ==> !white_space(trim_right(s).last()),
        trimmed(s) == trim_right(trim_left(s)),
    decreases s.len(),
{
    if s.len() > 0 {
        if white_space(s[0]) {
            let t = s.skip(1);
            law_trimming_takes_only_white_space(t);
            assert(trim_left(s) =~= s.skip(s.len() - trim_left(s).len()));
            assert forall|i: int| 0 <= i < s.len() - trim_left(s).len() implies white_space(
                #[trigger] s[i],
            ) by {
                if i > 0 {
                    assert(t[i - 1] == s[i]);
                }
            }
        }
        if white_space(s.last()) {
            let t = s.drop_last();
            law_trimming_takes_only_white_space(t);
            assert(trim_right(s) =~= s.take(trim_right(s).len() as int));
            assert forall|i: int| trim_right(s).len() <= i < s.len() implies white_space(
                #[trigger] s[i],
            ) by {
                if i < t.len() {
                    assert(t[i] == s[i]);
                }
            }
        } else {
            assert(s.take(s.len() as int) =~= s);
        }
    }
    assert(s.skip(0) =~= s);
    assert(s.take(s.len() as int) =~= s);
}

/// Among the ASCII characters the tab, the line feed, the vertical tab, the form feed,
/// the carriage return and the blank are white space; no letter, digit or mark is.
pub proof fn law_ascii_white_space(c: char)
    requires
        c as u32 <= 0x7f,
    ensures
        white_space(c) <==> c == '\t' || c == '\n' || c == '\u{b}' || c == '\u{c}' || c == '\r' || c
            == ' ',
{
}

/// Lines end at line feeds: a line feed ends the line before it, without a carriage
/// return in front of it; what follows the last line feed is a line of its own, if
/// there is anything.
pub proof fn law_lines_end_at_line_feeds(a: Seq<char>, b: Seq<char>)
    requires
        !a.contains('\n'),
    ensures
        lines_of(Seq::empty()).len() == 0,
        a.len() > 0 ==> lines_of(a) == seq![a],
        a.len() == 0 || a.last() != '\r' ==> lines_of(a + seq!['\n'] + b) == seq![a] + lines_of(b),
        lines_of(a + seq!['\r', '\n'] + b) == seq![a] + lines_of(b),
{
    assert forall|j: int| 0 <= j < a.len() implies a[j] != '\n' by {
        assert(a.contains(a[j]));
    }
    text::lemma_pos(a, '\n', a.len() as int);
    let s = a + seq!['\n'] + b;
    assert(s[a.len() as int] == '\n');
    assert forall|j: int| 0 <= j < a.len() implies s[j] != '\n' by {
        assert(s[j] == a[j]);
    }
    text::lemma_pos(s, '\n', a.len() as int);
    assert(s.take(a.len() as int) =~= a);
    assert(s.skip(a.len() as int + 1) =~= b);
    let t = a + seq!['\r', '\n'] + b;
    assert(t[a.len() as int + 1] == '\n');
    assert(t[a.len() as int] == '\r');
    assert forall|j: int| 0 <= j < a.len() + 1 implies t[j] != '\n' by {
        if j < a.len() {
            assert(t[j] == a[j]);
        }
    }
    text::lemma_pos(t, '\n', a.len() as int + 1);
    assert(t.take(a.len() as int + 1) =~= a.push('\r'));
    assert(a.push('\r').drop_last() =~= a);
    assert(t.skip(a.len() as int + 2) =~= b);
}

/// A capped text is as long as can be: one character more would not fit.
pub proof fn law_capped_text_is_longest(s: Seq<char>, limit: nat)
    ensures
        capped(s, limit).len() <= s.len(),
        capped(s, limit).len() < s.len() ==> encode_utf8(s.take(capped(s, limit).len() as int + 1)).len()
            > limit,
    decreases s.len(),
{
    if s.len() > 0 {
        let w = width(s[0]);
        lemma_width(s[0]);
        if w <= limit {
            law_capped_text_is_longest(s.skip(1), (limit - w) as nat);
            let rest = capped(s.skip(1), (limit - w) as nat);
            if rest.len() < s.len() - 1 {
                let t = s.take(rest.len() as int + 2);
                assert(t.drop_first() =~= s.skip(1).take(rest.len() as int + 1));
                assert(t[0] == s[0]);
                assert(encode_utf8(t) == encode_scalar(t[0] as u32) + encode_utf8(t.drop_first()));
            }
        } else {
            let t = s.take(1);
            assert(t[0] == s[0]);
            assert(t.drop_first() =~= Seq::<char>::empty());
            assert(encode_utf8(t) == encode_scalar(t[0] as u32) + encode_utf8(t.drop_first()));
        }
    }
}

/// The words of a text stand between white space: leading white space does not count,
/// and a word reaches as far as no white space stands in it.
pub proof fn law_words_stand_between_white_space(s: Seq<char>, i: int)
    requires
        0 <= i < s.len(),
    ensures
        white_space(s[i]) ==> words_from(s, i) == words_from(s, i + 1),
        !white_space(s[i]) ==> {
            let e = word_end(s, i);
            &&& i < e <= s.len()
            &&& e == s.len() || white_space(s[e])
            &&& forall|j: int| i <= j < e ==> !white_space(#[trigger] s[j])
            &&& words_from(s, i) == seq![s.subrange(i, e)] + words_from(s, e)
        },
        words_from(s, s.len() as int).len() == 0,
    decreases s.len() - i,
{
    reveal_with_fuel(word_end, 2);
    if !white_space(s[i]) && i + 1 < s.len() {
        law_words_stand_between_white_space(s, i + 1);
    }
}

} // verus!
