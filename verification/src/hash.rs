//! Canonical hashing utilities.
//!
//! Every artifact that participates in authorization (effect contracts,
//! receipts, ledger events) is hashed over a canonical JSON encoding: object
//! keys sorted lexicographically, no insignificant whitespace, UTF-8.
//! Commit-time revalidation compares these hashes, so canonicalization must be
//! stable.
use vstd::prelude::*;
use vstd::utf8::encode_utf8;
use crate::capability::{number_text, write_number};
use crate::json::{Json, Value, values_seq};
use crate::text;

verus! {

/// A lowercase hex-encoded SHA-256 digest, prefixed with the algorithm.
#[derive(Debug, Hash)]
pub struct ContentHash(pub String);

impl ContentHash {
    pub open spec fn view(&self) -> Seq<char> {
        self.0@
    }

    /// The hash as text.
    pub fn as_str(&self) -> (r: &str)
        ensures
            r@ == self@,
    {
        self.0.as_str()
    }
}

impl Clone for ContentHash {
    fn clone(&self) -> (r: Self)
        ensures
            r == *self,
    {
        ContentHash(self.0.clone())
    }
}

impl PartialEq for ContentHash {
    fn eq(&self, other: &Self) -> (r: bool) {
        self.0 == other.0
    }
}

impl Eq for ContentHash {

}

impl vstd::std_specs::cmp::PartialEqSpecImpl for ContentHash {
    open spec fn obeys_eq_spec() -> bool {
        true
    }

    open spec fn eq_spec(&self, other: &Self) -> bool {
        self@ == other@
    }
}

impl DeepView for ContentHash {
    type V = Seq<char>;

    open spec fn deep_view(&self) -> Seq<char> {
        self@
    }
}

/// The SHA-256 digest of a byte string.
pub uninterp spec fn sha256(bytes: Seq<u8>) -> Seq<u8>;

/// `sha2::Sha256::digest`: the digest of the bytes, thirty-two bytes long.
#[verifier::external_body]
pub(crate) fn digest(bytes: &[u8]) -> (r: Vec<u8>)
    ensures
        r@ == sha256(bytes@),
        r@.len() == 32,
{
    <sha2::Sha256 as sha2::Digest>::digest(bytes).to_vec()
}

/// The lowercase hexadecimal digit of value `d`.
pub open spec fn nibble(d: int) -> char {
    if d < 10 {
        text::digit(d)
    } else if d == 10 {
        'a'
    } else if d == 11 {
        'b'
    } else if d == 12 {
        'c'
    } else if d == 13 {
        'd'
    } else if d == 14 {
        'e'
    } else {
        'f'
    }
}

/// Bytes in lowercase hexadecimal, two digits for each.
pub open spec fn hex_text(bytes: Seq<u8>) -> Seq<char> {
    Seq::new(
        2 * bytes.len(),
        |i: int|
            if i % 2 == 0 {
                nibble(bytes[i / 2] as int / 16)
            } else {
                nibble(bytes[i / 2] as int % 16)
            },
    )
}

/// `hex::encode`: the bytes in lowercase hexadecimal.
#[verifier::external_body]
pub(crate) fn encode_hex(bytes: &Vec<u8>) -> (r: String)
    ensures
        r@ == hex_text(bytes@),
{
    hex::encode(bytes)
}

/// The value of a hexadecimal digit, of either case.
pub open spec fn hex_digit(c: char) -> Option<int> {
    if '0' <= c && c <= '9' {
        Some((c as int) - ('0' as int))
    } else if 'a' <= c && c <= 'f' {
        Some((c as int) - ('a' as int) + 10)
    } else if 'A' <= c && c <= 'F' {
        Some((c as int) - ('A' as int) + 10)
    } else {
        None
    }
}

/// The bytes that a hexadecimal text stands for; `None` for an odd number of
/// digits, or if anything but digits stands in it.
pub open spec fn hex_value(t: Seq<char>) -> Option<Seq<u8>> {
    if t.len() % 2 == 0 && forall|i: int| 0 <= i < t.len() ==> hex_digit(#[trigger] t[i]) is Some {
        Some(
            Seq::new(
                t.len() / 2,
                |i: int| (hex_digit(t[2 * i])->0 * 16 + hex_digit(t[2 * i + 1])->0) as u8,
            ),
        )
    } else {
        None
    }
}

/// Why a text is not hexadecimal.
pub uninterp spec fn hex_error(t: Seq<char>) -> Seq<char>;

/// `hex::decode`, with its error as text: the bytes that the digits stand for,
/// in either case.
#[verifier::external_body]
pub(crate) fn decode_hex(t: &str) -> (r: Result<Vec<u8>, String>)
    ensures
        match r {
            Ok(v) => hex_value(t@) == Some(v@),
            Err(e) => hex_value(t@) is None && e@ == hex_error(t@),
        },
{
    match hex::decode(t) {
        Ok(v) => Ok(v),
        Err(e) => Err(e.to_string()),
    }
}

proof fn lemma_nibble(d: int)
    requires
        0 <= d < 16,
    ensures
        hex_digit(nibble(d)) == Some(d),
{
}

/// Reading hexadecimal undoes writing it.
pub proof fn law_hex_round_trip(bytes: Seq<u8>)
    ensures
        hex_value(hex_text(bytes)) == Some(bytes),
{
    let t = hex_text(bytes);
    assert forall|i: int| 0 <= i < t.len() implies hex_digit(#[trigger] t[i]) == Some(
        if i % 2 == 0 {
            bytes[i / 2] as int / 16
        } else {
            bytes[i / 2] as int % 16
        },
    ) by {
        lemma_nibble(bytes[i / 2] as int / 16);
        lemma_nibble(bytes[i / 2] as int % 16);
    }
    let v = hex_value(t)->0;
    assert forall|i: int| 0 <= i < bytes.len() implies #[trigger] v[i] == bytes[i] by {
        assert(hex_digit(t[2 * i]) == Some(bytes[i] as int / 16));
        assert(hex_digit(t[2 * i + 1]) == Some(bytes[i] as int % 16));
    }
    assert(v =~= bytes);
}

/// The content hash of a byte string, as text.
pub open spec fn hash_text(bytes: Seq<u8>) -> Seq<char> {
    "sha256:"@ + hex_text(sha256(bytes))
}

/// Hash raw bytes.
pub fn hash_bytes(bytes: &[u8]) -> (r: ContentHash)
    ensures
        r@ == hash_text(bytes@),
{
    let d = digest(bytes);
    let h = encode_hex(&d);
    ContentHash(text::cat2("sha256:", h.as_str()))
}

/// How a character reads inside a JSON string.
pub open spec fn escaped(c: char) -> Seq<char> {
    if c == '"' {
        seq!['\\', '"']
    } else if c == '\\' {
        seq!['\\', '\\']
    } else if c == '\u{8}' {
        seq!['\\', 'b']
    } else if c == '\t' {
        seq!['\\', 't']
    } else if c == '\n' {
        seq!['\\', 'n']
    } else if c == '\u{c}' {
        seq!['\\', 'f']
    } else if c == '\r' {
        seq!['\\', 'r']
    } else if (c as u32) < 0x20 {
        seq!['\\', 'u', '0', '0', nibble((c as u32) as int / 16), nibble((c as u32) as int % 16)]
    } else {
        seq![c]
    }
}

/// How characters read inside a JSON string.
pub open spec fn escaped_all(s: Seq<char>) -> Seq<char>
    decreases s.len(),
{
    if s.len() == 0 {
        Seq::empty()
    } else {
        escaped_all(s.drop_last()) + escaped(s.last())
    }
}

/// A text as a JSON string.
pub open spec fn quoted(s: Seq<char>) -> Seq<char> {
    seq!['"'] + escaped_all(s) + seq!['"']
}

/// `serde_json::to_string` on a string: the text in double quotes, with quotes,
/// backslashes and control characters escaped.
#[verifier::external_body]
pub(crate) fn json_string(s: &str) -> (r: String)
    ensures
        r@ == quoted(s@),
{
    serde_json::to_string(s).unwrap()
}

/// The keys of an object in ascending order.
pub open spec fn sorted_keys(m: Map<Seq<char>, Json>) -> Seq<Seq<char>> {
    choose|ks: Seq<Seq<char>>| text::ascending(ks) && #[trigger] ks.to_set() == m.dom()
}

/// Canonical JSON: keys sorted, no whitespace.
pub open spec fn canonical(j: Json) -> Seq<char>
    decreases j,
{
    match j {
        Json::Null => "null"@,
        Json::Bool(b) => if b { "true"@ } else { "false"@ },
        Json::Number(n) => number_text(n),
        Json::Text(s) => quoted(s),
        Json::Array(items) => "["@ + text::joined(item_texts(items), ","@) + "]"@,
        Json::Object(m) => "{"@ + text::joined(member_texts(m), ","@) + "}"@,
    }
}

/// The members of an object, each in canonical JSON, in key order.
pub open spec fn member_texts(m: Map<Seq<char>, Json>) -> Seq<Seq<char>>
    decreases m,
{
    Seq::new(
        sorted_keys(m).len(),
        |i: int|
            quoted(sorted_keys(m)[i]) + ":"@ + if m.dom().finite() && m.contains_key(
                sorted_keys(m)[i],
            ) {
                canonical(m[sorted_keys(m)[i]])
            } else {
                Seq::empty()
            },
    )
}

/// The elements of an array, each in canonical JSON.
pub open spec fn item_texts(items: Seq<Json>) -> Seq<Seq<char>>
    decreases items,
{
    Seq::new(
        items.len(),
        |i: int|
            if 0 <= i < items.len() {
                canonical(items[i])
            } else {
                Seq::empty()
            },
    )
}

/// Produce canonical JSON: keys sorted, compact separators.
pub fn canonical_json(value: &Value) -> (r: String)
    ensures
        r@ == canonical(value@),
{
    let mut out: String = String::new();
    write_canonical(value, &mut out);
    out
}

fn write_canonical(v: &Value, out: &mut String)
    ensures
        final(out)@ == old(out)@ + canonical(v@),
    decreases v,
{
    match v {
        Value::Null => {
            out.append("null");
        },
        Value::Bool(b) => {
            if *b {
                out.append("true");
            } else {
                out.append("false");
            }
        },
        Value::Number(n) => {
            let t = write_number(n);
            out.append(t.as_str());
        },
        Value::Text(s) => {
            let t = json_string(s.as_str());
            out.append(t.as_str());
        },
        Value::Array(items) => {
            let ghost start = out@;
            let ghost js = values_seq(items@);
            let ghost texts = item_texts(js);
            proof {
                crate::json::lemma_values_deep_view(*items);
                assert(js == items.deep_view());
            }
            out.append("[");
            let mut i: usize = 0;
            proof {
                assert(texts.take(0) == Seq::<Seq<char>>::empty());
                assert(out@ == start + "["@ + text::joined(texts.take(0), ","@));
            }
            while i < items.len()
                invariant
                    i <= items.len(),
                    js == items.deep_view(),
                    texts == item_texts(js),
                    decreases_to!(v => items),
                    out@ == start + "["@ + text::joined(texts.take(i as int), ","@),
                decreases items.len() - i,
            {
                proof {
                    assert(texts.take(i + 1).drop_last() == texts.take(i as int));
                    assert(js[i as int] == items@[i as int]@);
                    assert(texts.take(i + 1).last() == canonical(items@[i as int]@));
                }
                if i > 0 {
                    out.append(",");
                }
                write_canonical(&items[i], out);
                proof {
                    assert(out@ =~= start + "["@ + text::joined(texts.take(i + 1), ","@));
                }
                i = i + 1;
            }
            proof {
                assert(texts.take(items.len() as int) == texts);
            }
            out.append("]");
            proof {
                assert(canonical(v@) == "["@ + text::joined(texts, ","@) + "]"@);
                assert(out@ =~= start + canonical(v@));
            }
        },
        Value::Object(map) => {
            let ghost start = out@;
            let ghost m = map@;
            let n = map.len();
            let ghost ks = map.keys();
            let ghost texts = member_texts(m);
            proof {
                map.lemma_keys();
                assert(text::ascending(ks) && ks.to_set() == m.dom());
                let sk = sorted_keys(m);
                assert(text::ascending(sk) && sk.to_set() == m.dom());
                text::lemma_ascending_unique(ks, sk);
            }
            out.append("{");
            let mut i: usize = 0;
            proof {
                assert(texts.take(0) == Seq::<Seq<char>>::empty());
                assert(out@ == start + "{"@ + text::joined(texts.take(0), ","@));
            }
            while i < n
                invariant
                    i <= n,
                    n == ks.len(),
                    m == map@,
                    m.dom().finite(),
                    ks == map.keys(),
                    ks == sorted_keys(m),
                    texts == member_texts(m),
                    decreases_to!(v => map),
                    out@ == start + "{"@ + text::joined(texts.take(i as int), ","@),
                decreases n - i,
            {
                let e = map.entry_at(i);
                proof {
                    assert(texts.take(i + 1).drop_last() == texts.take(i as int));
                    assert(texts.take(i + 1).last() == quoted(e.0@) + ":"@ + canonical(e.1@));
                }
                if i > 0 {
                    out.append(",");
                }
                let key = json_string(e.0.as_str());
                out.append(key.as_str());
                out.append(":");
                write_canonical(e.1, out);
                proof {
                    assert(out@ =~= start + "{"@ + text::joined(texts.take(i + 1), ","@));
                }
                i = i + 1;
            }
            proof {
                assert(texts.take(n as int) == texts);
            }
            out.append("}");
            proof {
                assert(canonical(v@) == "{"@ + text::joined(texts, ","@) + "}"@);
                assert(out@ =~= start + canonical(v@));
            }
        },
    }
}

/// The content hash of a JSON value, as text.
pub open spec fn canonical_hash(j: Json) -> Seq<char> {
    hash_text(encode_utf8(canonical(j)))
}

/// Hash a value over its canonical JSON encoding.
pub fn hash_canonical(value: &Value) -> (r: ContentHash)
    ensures
        r@ == canonical_hash(value@),
{
    let t = canonical_json(value);
    hash_bytes(t.as_str().as_bytes())
}

/// The order in which members are put into an object changes neither its
/// canonical JSON nor its hash.
pub proof fn law_key_order_does_not_change_the_hash(
    m: Map<Seq<char>, Json>,
    k1: Seq<char>,
    v1: Json,
    k2: Seq<char>,
    v2: Json,
)
    requires
        k1 != k2,
    ensures
        canonical(Json::Object(m.insert(k1, v1).insert(k2, v2))) == canonical(
            Json::Object(m.insert(k2, v2).insert(k1, v1)),
        ),
        canonical_hash(Json::Object(m.insert(k1, v1).insert(k2, v2))) == canonical_hash(
            Json::Object(m.insert(k2, v2).insert(k1, v1)),
        ),
{
    assert(m.insert(k1, v1).insert(k2, v2) =~= m.insert(k2, v2).insert(k1, v1));
}

/// Inside a JSON string the quote, the backslash and the control characters are
/// escaped, each in its own way, and every other character stands for itself.
pub proof fn law_only_special_characters_are_escaped(c: char, d: char)
    ensures
        c != '"' && c != '\\' && c as u32 >= 0x20 ==> escaped(c) == seq![c],
        c == '"' || c == '\\' || (c as u32) < 0x20 ==> escaped(c).len() >= 2 && escaped(c)[0] == '\\',
        escaped(c) == escaped(d) ==> c == d,
{
    if (c as u32) < 0x20 {
        lemma_nibble((c as u32) as int / 16);
        lemma_nibble((c as u32) as int % 16);
    }
    if (d as u32) < 0x20 {
        lemma_nibble((d as u32) as int / 16);
        lemma_nibble((d as u32) as int % 16);
    }
    if escaped(c) == escaped(d) && escaped(c).len() == 6 {
        assert(escaped(c)[4] == escaped(d)[4]);
        assert(escaped(c)[5] == escaped(d)[5]);
    }
    if escaped(c) == escaped(d) && escaped(c).len() == 2 {
        assert(escaped(c)[1] == escaped(d)[1]);
    }
    if escaped(c) == escaped(d) && escaped(c).len() == 1 {
        assert(escaped(c)[0] == escaped(d)[0]);
    }
}

/// A string in JSON is its characters, escaped one by one, between quotes.
pub proof fn law_strings_are_escaped_one_by_one(s: Seq<char>, c: char)
    ensures
        canonical(Json::Text(Seq::empty())) == seq!['"', '"'],
        escaped_all(s.push(c)) == escaped_all(s) + escaped(c),
        canonical(Json::Text(s)) == seq!['"'] + escaped_all(s) + seq!['"'],
{
    assert(s.push(c).drop_last() =~= s);
    assert(seq!['"'] + Seq::<char>::empty() + seq!['"'] =~= seq!['"', '"']);
}

/// An array in JSON is its elements between brackets, with commas between them; an
/// object is its members between braces, each under its quoted key, in key order.
pub proof fn law_elements_and_members_are_all_written(
    items: Seq<Json>,
    m: Map<Seq<char>, Json>,
    i: int,
)
    requires
        m.dom().finite(),
    ensures
        item_texts(items).len() == items.len(),
        0 <= i < items.len() ==> item_texts(items)[i] == canonical(items[i]),
        canonical(Json::Array(items)) == "["@ + text::joined(item_texts(items), ","@) + "]"@,
        sorted_keys(m).to_set() == m.dom(),
        text::ascending(sorted_keys(m)),
        member_texts(m).len() == sorted_keys(m).len(),
        0 <= i < sorted_keys(m).len() ==> member_texts(m)[i] == quoted(sorted_keys(m)[i]) + ":"@
            + canonical(m[sorted_keys(m)[i]]),
        canonical(Json::Object(m)) == "{"@ + text::joined(member_texts(m), ","@) + "}"@,
{
    let ks = text::lemma_ascending_exists(m.dom());
    assert(text::ascending(ks) && ks.to_set() == m.dom());
    if 0 <= i < sorted_keys(m).len() {
        assert(sorted_keys(m).contains(sorted_keys(m)[i]));
        assert(sorted_keys(m).to_set().contains(sorted_keys(m)[i]));
    }
}

/// A content hash is the digest in hexadecimal behind its name; what has the same
/// digest has the same hash, and nothing else has.
pub proof fn law_hashes_are_digests(a: Seq<u8>, b: Seq<u8>)
    ensures
        hash_text(a) == "sha256:"@ + hex_text(sha256(a)),
        hash_text(a) == hash_text(b) ==> sha256(a) == sha256(b),
{
    if hash_text(a) == hash_text(b) {
        let p = "sha256:"@;
        assert((p + hex_text(sha256(a))).skip(p.len() as int) =~= hex_text(sha256(a)));
        assert((p + hex_text(sha256(b))).skip(p.len() as int) =~= hex_text(sha256(b)));
        law_hex_round_trip(sha256(a));
        law_hex_round_trip(sha256(b));
    }
}

} // verus!
