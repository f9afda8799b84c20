//! JSON laid out over several lines, two spaces to a level.
use vstd::prelude::*;
use crate::hash::{canonical, canonical_json, json_string, quoted, sorted_keys};
use crate::json::{Json, Value, values_seq};
use crate::text;

verus! {

/// JSON laid out over several lines. `line` is what a line at this level begins
/// with, the line feed included; each element and each member has a line of its
/// own, one level further in. What is empty stays on its line.
pub open spec fn laid_out(j: Json, line: Seq<char>) -> Seq<char>
    decreases j,
{
    match j {
        Json::Array(items) => if items.len() == 0 {
            canonical(j)
        } else {
            "["@ + text::joined(item_lines(items, line + "  "@), ","@) + line + "]"@
        },
        Json::Object(m) => if sorted_keys(m).len() == 0 {
            canonical(j)
        } else {
            "{"@ + text::joined(member_lines(m, line + "  "@), ","@) + line + "}"@
        },
        _ => canonical(j),
    }
}

/// The elements of an array, each on its line.
pub open spec fn item_lines(items: Seq<Json>, line: Seq<char>) -> Seq<Seq<char>>
    decreases items,
{
    Seq::new(
        items.len(),
        |i: int|
            line + if 0 <= i < items.len() {
                laid_out(items[i], line)
            } else {
                Seq::empty()
            },
    )
}

/// The members of an object, each on its line, in key order.
pub open spec fn member_lines(m: Map<Seq<char>, Json>, line: Seq<char>) -> Seq<Seq<char>>
    decreases m,
{
    Seq::new(
        sorted_keys(m).len(),
        |i: int|
            line + quoted(sorted_keys(m)[i]) + ": "@ + if m.dom().finite() && m.contains_key(
                sorted_keys(m)[i],
            ) {
                laid_out(m[sorted_keys(m)[i]], line)
            } else {
                Seq::empty()
            },
    )
}

/// Produce JSON over several lines: keys sorted, two spaces to a level.
pub fn pretty_json(value: &Value) -> (r: String)
    ensures
        r@ == laid_out(value@, "\n"@),
{
    let mut out: String = String::new();
    write_laid_out(value, "\n", &mut out);
    out
}

fn write_laid_out(v: &Value, line: &str, out: &mut String)
    ensures
        final(out)@ == old(out)@ + laid_out(v@, line@),
    decreases v,
{
    match v {
        Value::Array(items) => {
            let ghost start = out@;
            let ghost js = values_seq(items@);
            let inner = text::cat2(line, "  ");
            let ghost texts = item_lines(js, inner@);
            proof {
                crate::json::lemma_values_deep_view(*items);
                assert(js == items.deep_view());
            }
            if items.len() == 0 {
                let t = canonical_json(v);
                out.append(t.as_str());
                return;
            }
            out.append("[");
            let mut i: usize = 0;
            proof {
                assert(texts.take(0) == Seq::<Seq<char>>::empty());
                assert(out@ == start + "["@ + text::joined(texts.take(0), ","@));
            }
            while i < items.len()
                invariant
                    i <= items.len(),
                    js == items.deep_view(),
                    texts == item_lines(js, inner@),
                    decreases_to!(v => items),
                    out@ == start + "["@ + text::joined(texts.take(i as int), ","@),
                decreases items.len() - i,
            {
                proof {
                    assert(texts.take(i + 1).drop_last() == texts.take(i as int));
                    assert(js[i as int] == items@[i as int]@);
                    assert(texts.take(i + 1).last() == inner@ + laid_out(
                        items@[i as int]@,
                        inner@,
                    ));
                }
                if i > 0 {
                    out.append(",");
                }
                out.append(inner.as_str());
                write_laid_out(&items[i], inner.as_str(), out);
                proof {
                    assert(out@ =~= start + "["@ + text::joined(texts.take(i + 1), ","@));
                }
                i = i + 1;
            }
            proof {
                assert(texts.take(items.len() as int) == texts);
            }
            out.append(line);
            out.append("]");
            proof {
                assert(laid_out(v@, line@) == "["@ + text::joined(texts, ","@) + line@ + "]"@);
                assert(out@ =~= start + laid_out(v@, line@));
            }
        },
        Value::Object(map) => {
            let ghost start = out@;
            let ghost m = map@;
            let n = map.len();
            let inner = text::cat2(line, "  ");
            let ghost ks = map.keys();
            let ghost texts = member_lines(m, inner@);
            proof {
                map.lemma_keys();
                assert(text::ascending(ks) && ks.to_set() == m.dom());
                let sk = sorted_keys(m);
                assert(text::ascending(sk) && sk.to_set() == m.dom());
                text::lemma_ascending_unique(ks, sk);
            }
            if n == 0 {
                let t = canonical_json(v);
                out.append(t.as_str());
                return;
            }
            out.append("{");
            let mut i: usize = 0;
            proof {
                assert(texts.take(0) == Seq::<Seq<char>>::empty());
                assert(out@ == start + "{"@ + text::joined(texts.take(0), ","@));
            }
            while i < n
                invariant
                    i <= n,
                    n == ks.len(),
                    m == map@,
                    m.dom().finite(),
                    ks == map.keys(),
                    ks == sorted_keys(m),
                    texts == member_lines(m, inner@),
                    decreases_to!(v => map),
                    out@ == start + "{"@ + text::joined(texts.take(i as int), ","@),
                decreases n - i,
            {
                let e = map.entry_at(i);
                proof {
                    assert(texts.take(i + 1).drop_last() == texts.take(i as int));
                    assert(texts.take(i + 1).last() == inner@ + quoted(e.0@) + ": "@ + laid_out(
                        e.1@,
                        inner@,
                    ));
                }
                if i > 0 {
                    out.append(",");
                }
                let key = json_string(e.0.as_str());
                out.append(inner.as_str());
                out.append(key.as_str());
                out.append(": ");
                write_laid_out(e.1, inner.as_str(), out);
                proof {
                    assert(out@ =~= start + "{"@ + text::joined(texts.take(i + 1), ","@));
                }
                i = i + 1;
            }
            proof {
                assert(texts.take(n as int) == texts);
            }
            out.append(line);
            out.append("}");
            proof {
                assert(laid_out(v@, line@) == "{"@ + text::joined(texts, ","@) + line@ + "}"@);
                assert(out@ =~= start + laid_out(v@, line@));
            }
        },
        _ => {
            let t = canonical_json(v);
            out.append(t.as_str());
        },
    }
}

/// Laid out, an array has each element on a line of its own, one level further in, and
/// an object each member, under its quoted key, in key order. What is empty, and every
/// scalar, reads as in canonical JSON.
pub proof fn law_every_element_has_its_line(
    items: Seq<Json>,
    m: Map<Seq<char>, Json>,
    line: Seq<char>,
    i: int,
)
    requires
        m.dom().finite(),
    ensures
        items.len() == 0 ==> laid_out(Json::Array(items), line) == canonical(Json::Array(items)),
        items.len() > 0 ==> laid_out(Json::Array(items), line) == "["@ + text::joined(
            item_lines(items, line + "  "@),
            ","@,
        ) + line + "]"@,
        item_lines(items, line).len() == items.len(),
        0 <= i < items.len() ==> item_lines(items, line)[i] == line + laid_out(items[i], line),
        sorted_keys(m).len() == 0 ==> laid_out(Json::Object(m), line) == canonical(Json::Object(m)),
        sorted_keys(m).len() > 0 ==> laid_out(Json::Object(m), line) == "{"@ + text::joined(
            member_lines(m, line + "  "@),
            ","@,
        ) + line + "}"@,
        member_lines(m, line).len() == sorted_keys(m).len(),
        0 <= i < sorted_keys(m).len() ==> member_lines(m, line)[i] == line + quoted(
            sorted_keys(m)[i],
        ) + ": "@ + laid_out(m[sorted_keys(m)[i]], line),
{
    crate::hash::law_elements_and_members_are_all_written(items, m, i);
    if 0 <= i < sorted_keys(m).len() {
        assert(sorted_keys(m).contains(sorted_keys(m)[i]));
        assert(sorted_keys(m).to_set().contains(sorted_keys(m)[i]));
    }
}

/// Scalars read alike in both layouts.
pub proof fn law_scalars_stay_on_their_line(j: Json, line: Seq<char>)
    ensures
        !(j is Array) && !(j is Object) ==> laid_out(j, line) == canonical(j),
{
}

} // verus!
