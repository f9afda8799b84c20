//! Workspace-relative path semantics, shared by every component that confines
//! paths: the local sandbox, remote state sync, and the kernel's validation of
//! remote-returned deltas. One definition, one behavior.
use vstd::prelude::*;
use crate::text;

verus! {

/// The named components among the pieces of a path: neither empty nor `.`.
pub open spec fn named(parts: Seq<Seq<char>>) -> Seq<Seq<char>>
    decreases parts.len(),
{
    if parts.len() == 0 {
        Seq::empty()
    } else {
        let rest = named(parts.drop_last());
        if parts.last().len() == 0 || parts.last() == "."@ {
            rest
        } else {
            rest.push(parts.last())
        }
    }
}

/// The components of a path: a leading `/` for an absolute one, a leading `.`
/// where the path starts with that, and the named components.
pub open spec fn components(path: Seq<char>) -> Seq<Seq<char>> {
    let parts = text::split(path, '/');
    if path.len() > 0 && path[0] == '/' {
        seq!["/"@] + named(parts)
    } else if parts[0] == "."@ {
        seq!["."@] + named(parts)
    } else {
        named(parts)
    }
}

/// A path as the workspace sees it: its named components, if it is neither
/// empty nor absolute and does not go up.
pub open spec fn normalized(raw: Seq<char>) -> Result<Seq<char>, Seq<char>> {
    let parts = named(text::split(raw, '/'));
    if raw.len() == 0 {
        Err("empty path"@)
    } else if raw[0] == '/' {
        Err("path `"@ + raw + "` is absolute; only workspace-relative paths are allowed"@)
    } else if parts.contains(".."@) {
        Err("path `"@ + raw + "` contains `..`"@)
    } else {
        Ok(text::joined(parts, "/"@))
    }
}

/// A pair of results says the same.
pub open spec fn says(r: Result<String, String>, v: Result<Seq<char>, Seq<char>>) -> bool {
    match (r, v) {
        (Ok(a), Ok(b)) => a@ == b,
        (Err(a), Err(b)) => a@ == b,
        _ => false,
    }
}

/// The named components of a path.
pub fn named_components(raw: &str) -> (r: Vec<String>)
    ensures
        r.deep_view() == named(text::split(raw@, '/')),
{
    let chars = text::chars_of(raw);
    let parts = text::split_on(&chars, '/');
    let ghost ps = parts.deep_view();
    let mut out: Vec<String> = Vec::new();
    let mut i: usize = 0;
    proof {
        assert(ps.take(0) == Seq::<Seq<char>>::empty());
        assert(out.deep_view() =~= Seq::<Seq<char>>::empty());
    }
    while i < parts.len()
        invariant
            i <= parts.len(),
            ps == parts.deep_view(),
            out.deep_view() == named(ps.take(i as int)),
        decreases parts.len() - i,
    {
        let piece = text::string_of(&parts[i]);
        let ghost next = ps.take(i + 1);
        proof {
            assert(next.drop_last() == ps.take(i as int));
            assert(parts@[i as int].deep_view() == parts@[i as int]@);
            assert(next.last() == piece@);
        }
        let dot = text::str_eq(piece.as_str(), ".");
        if parts[i].len() > 0 && !dot {
            let ghost before = out.deep_view();
            out.push(piece);
            proof {
                assert(out.deep_view() =~= before.push(next.last()));
            }
        }
        i = i + 1;
    }
    proof {
        assert(ps.take(parts.len() as int) == ps);
    }
    out
}

/// Whether one of the texts is `t`.
fn has(v: &Vec<String>, t: &str) -> (r: bool)
    ensures
        r == v.deep_view().contains(t@),
{
    let mut i: usize = 0;
    while i < v.len()
        invariant
            i <= v.len(),
            forall|j: int| 0 <= j < i ==> #[trigger] v.deep_view()[j] != t@,
        decreases v.len() - i,
    {
        proof {
            assert(v.deep_view()[i as int] == v@[i as int]@);
        }
        if text::str_eq(v[i].as_str(), t) {
            return true;
        }
        i = i + 1;
    }
    false
}

/// Whether the path starts with a `/`.
fn is_absolute(raw: &str) -> (r: bool)
    ensures
        r == (raw@.len() > 0 && raw@[0] == '/'),
{
    let chars = text::chars_of(raw);
    chars.len() > 0 && chars[0] == '/'
}

/// Normalize a workspace-relative path: reject absolute paths, `..` components,
/// and empty paths. `.` components are dropped, so `"."` normalizes to the empty
/// path (the workspace root): callers that need a file path must reject an empty
/// result themselves. Returns the normalized relative path or a human-readable
/// refusal reason.
pub fn normalize_relative(raw: &str) -> (r: Result<String, String>)
    ensures
        says(r, normalized(raw@)),
{
    if text::str_eq(raw, "") {
        proof {
            reveal_strlit("");
        }
        return Err("empty path".to_owned());
    }
    proof {
        reveal_strlit("");
        if raw@.len() == 0 {
            assert(raw@ =~= ""@);
        }
    }
    if is_absolute(raw) {
        return Err(
            text::cat3(
                "path `",
                raw,
                "` is absolute; only workspace-relative paths are allowed",
            ),
        );
    }
    let parts = named_components(raw);
    if has(&parts, "..") {
        return Err(text::cat3("path `", raw, "` contains `..`"));
    }
    Ok(text::join(&parts, "/"))
}

/// The components of a path, in order.
pub fn components_of(path: &str) -> (r: Vec<String>)
    ensures
        r.deep_view() == components(path@),
{
    let chars = text::chars_of(path);
    let parts = text::split_on(&chars, '/');
    let mut out: Vec<String> = Vec::new();
    proof {
        let s = text::split(path@, '/');
        assert(s.len() > 0);
        assert(parts.deep_view()[0] == parts@[0].deep_view());
        assert(parts@[0].deep_view() == parts@[0]@);
        assert(out.deep_view() =~= Seq::<Seq<char>>::empty());
    }
    let first = text::string_of(&parts[0]);
    if is_absolute(path) {
        out.push("/".to_owned());
        proof {
            assert(out.deep_view() =~= seq!["/"@]);
        }
    } else if text::str_eq(first.as_str(), ".") {
        out.push(".".to_owned());
        proof {
            assert(out.deep_view() =~= seq!["."@]);
        }
    }
    let ghost head = out.deep_view();
    let names = named_components(path);
    let ghost ns = names.deep_view();
    let mut i: usize = 0;
    proof {
        assert(head + ns.take(0) =~= head);
    }
    while i < names.len()
        invariant
            i <= names.len(),
            ns == names.deep_view(),
            out.deep_view() == head + ns.take(i as int),
        decreases names.len() - i,
    {
        let ghost before = out.deep_view();
        out.push(names[i].clone());
        proof {
            assert(out.deep_view() =~= before.push(ns[i as int]));
            assert(before.push(ns[i as int]) =~= head + ns.take(i + 1));
        }
        i = i + 1;
    }
    proof {
        assert(ns.take(names.len() as int) == ns);
        assert(Seq::<Seq<char>>::empty() + ns =~= ns);
    }
    out
}

/// A prefix without the `./` that it starts with, any number of times.
pub open spec fn without_dots(p: Seq<char>) -> Seq<char>
    decreases p.len(),
{
    if p.len() >= 2 && p[0] == '.' && p[1] == '/' {
        without_dots(p.skip(2))
    } else {
        p
    }
}

/// A prefix without the `/` that it ends with, any number of times.
pub open spec fn without_slashes(p: Seq<char>) -> Seq<char>
    decreases p.len(),
{
    if p.len() > 0 && p.last() == '/' {
        without_slashes(p.drop_last())
    } else {
        p
    }
}

/// A path lies under a prefix: the prefix, without what does not matter in it,
/// is empty or names the path's first components.
pub open spec fn under(rel: Seq<char>, prefix: Seq<char>) -> bool {
    let p = without_slashes(without_dots(prefix));
    p.len() == 0 || components(p).is_prefix_of(components(rel))
}

/// A path lies under one of the prefixes, or there are none.
pub open spec fn under_any(rel: Seq<char>, prefixes: Seq<Seq<char>>) -> bool {
    prefixes.len() == 0 || exists|i: int|
        0 <= i < prefixes.len() && under(rel, #[trigger] prefixes[i])
}

fn bare_prefix(prefix: &str) -> (r: String)
    ensures
        r@ == without_slashes(without_dots(prefix@)),
{
    let chars = text::chars_of(prefix);
    let n = chars.len();
    let mut i: usize = 0;
    proof {
        assert(chars@.skip(0) == chars@);
    }
    while n - i >= 2 && chars[i] == '.' && chars[i + 1] == '/'
        invariant
            i <= n,
            n == chars.len(),
            without_dots(chars@.skip(i as int)) == without_dots(chars@),
        decreases n - i,
    {
        proof {
            assert(chars@.skip(i as int).skip(2) == chars@.skip(i + 2));
        }
        i = i + 2;
    }
    let ghost left = chars@.skip(i as int);
    let mut j: usize = n;
    proof {
        assert(left == without_dots(chars@));
        assert(left.take(n - i) == left);
    }
    while i < j && chars[j - 1] == '/'
        invariant
            i <= j <= n,
            n == chars.len(),
            left == chars@.skip(i as int),
            without_slashes(left.take(j - i)) == without_slashes(left),
        decreases j,
    {
        proof {
            assert(left.take(j - i).last() == chars@[j - 1]);
            assert(left.take(j - i).drop_last() == left.take(j - i - 1));
        }
        j = j - 1;
    }
    proof {
        if i < j {
            assert(left.take(j - i).last() == chars@[j - 1]);
        }
        assert(left.take(j - i) == chars@.subrange(i as int, j as int));
    }
    let kept = text::slice(&chars, i, j);
    text::string_of(&kept)
}

/// Whether the texts of `p` are the first of `s`.
fn leads(p: &Vec<String>, s: &Vec<String>) -> (r: bool)
    ensures
        r == p.deep_view().is_prefix_of(s.deep_view()),
{
    let ghost pd = p.deep_view();
    let ghost sd = s.deep_view();
    if p.len() > s.len() {
        return false;
    }
    let mut i: usize = 0;
    while i < p.len()
        invariant
            i <= p.len() <= s.len(),
            pd == p.deep_view(),
            sd == s.deep_view(),
            forall|j: int| 0 <= j < i ==> #[trigger] pd[j] == sd[j],
        decreases p.len() - i,
    {
        proof {
            assert(pd[i as int] == p@[i as int]@);
            assert(sd[i as int] == s@[i as int]@);
        }
        if !text::str_eq(p[i].as_str(), s[i].as_str()) {
            proof {
                assert(sd.subrange(0, pd.len() as int)[i as int] == sd[i as int]);
            }
            return false;
        }
        i = i + 1;
    }
    proof {
        assert(pd =~= sd.subrange(0, pd.len() as int));
    }
    true
}

/// Check a normalized relative path against allowed prefixes. An empty prefix
/// list means the whole workspace is allowed; an empty-string prefix likewise.
pub fn matches_prefixes(rel: &str, prefixes: &Vec<String>) -> (r: bool)
    ensures
        r == under_any(rel@, prefixes.deep_view()),
{
    let ghost ps = prefixes.deep_view();
    if prefixes.len() == 0 {
        return true;
    }
    let own = components_of(rel);
    let mut i: usize = 0;
    while i < prefixes.len()
        invariant
            i <= prefixes.len(),
            ps == prefixes.deep_view(),
            own.deep_view() == components(rel@),
            forall|j: int| 0 <= j < i ==> !under(rel@, #[trigger] ps[j]),
        decreases prefixes.len() - i,
    {
        proof {
            assert(ps[i as int] == prefixes@[i as int]@);
        }
        let p = bare_prefix(prefixes[i].as_str());
        let cs = components_of(p.as_str());
        let whole = text::str_eq(p.as_str(), "");
        proof {
            reveal_strlit("");
            if p@.len() == 0 {
                assert(p@ =~= ""@);
            }
        }
        if whole || leads(&cs, &own) {
            return true;
        }
        i = i + 1;
    }
    false
}

/// A name that a normalized path can have as a component.
pub open spec fn proper(name: Seq<char>) -> bool {
    name.len() > 0 && name != "."@ && !name.contains('/')
}

proof fn lemma_split_pieces(s: Seq<char>, c: char)
    ensures
        text::split(s, c).len() > 0,
        forall|i: int|
            0 <= i < text::split(s, c).len() ==> !(#[trigger] text::split(s, c)[i]).contains(c),
    decreases s.len(),
{
    text::lemma_pos_is_first(s, c);
    let k = text::pos(s, c);
    if k < s.len() {
        lemma_split_pieces(s.skip(k + 1), c);
    }
}

proof fn lemma_named(parts: Seq<Seq<char>>)
    requires
        forall|i: int| 0 <= i < parts.len() ==> !(#[trigger] parts[i]).contains('/'),
    ensures
        forall|i: int| 0 <= i < named(parts).len() ==> proper(#[trigger] named(parts)[i]),
    decreases parts.len(),
{
    if parts.len() > 0 {
        let front = parts.drop_last();
        assert forall|i: int| 0 <= i < front.len() implies !(#[trigger] front[i]).contains('/') by {
            assert(!parts[i].contains('/'));
        }
        lemma_named(front);
        assert(!parts[parts.len() - 1].contains('/'));
        assert forall|i: int| 0 <= i < named(parts).len() implies proper(
            #[trigger] named(parts)[i],
        ) by {
            if i < named(front).len() {
                assert(proper(named(front)[i]));
            }
        }
    }
}

proof fn lemma_named_is_same(parts: Seq<Seq<char>>)
    requires
        forall|i: int| 0 <= i < parts.len() ==> proper(#[trigger] parts[i]),
    ensures
        named(parts) == parts,
    decreases parts.len(),
{
    if parts.len() > 0 {
        assert(proper(parts[parts.len() - 1]));
        lemma_named_is_same(parts.drop_last());
        assert(parts.drop_last().push(parts.last()) =~= parts);
    }
}

proof fn lemma_split_last(a: Seq<char>, b: Seq<char>)
    requires
        !b.contains('/'),
    ensures
        text::split(a + "/"@ + b, '/') == text::split(a, '/').push(b),
    decreases a.len(),
{
    reveal_strlit("/");
    let s = a + "/"@ + b;
    text::lemma_pos_is_first(a, '/');
    let k = text::pos(a, '/');
    assert(s.len() == a.len() + 1 + b.len());
    assert(forall|j: int| 0 <= j < a.len() ==> s[j] == a[j]);
    assert(s[a.len() as int] == '/');
    text::lemma_pos(s, '/', k);
    if k < a.len() {
        lemma_split_last(a.skip(k + 1), b);
        assert(s.take(k) =~= a.take(k));
        assert(s.skip(k + 1) =~= a.skip(k + 1) + "/"@ + b);
        assert(text::split(s, '/') =~= text::split(a, '/').push(b));
    } else {
        assert(s.take(k) =~= a);
        assert(s.skip(k + 1) =~= b);
        text::lemma_pos_is_first(b, '/');
        assert(text::pos(b, '/') == b.len());
        assert(text::split(b, '/') =~= seq![b]);
        assert(text::split(a, '/') =~= seq![a]);
    }
}

proof fn lemma_split_joined(parts: Seq<Seq<char>>)
    requires
        parts.len() > 0,
        forall|i: int| 0 <= i < parts.len() ==> proper(#[trigger] parts[i]),
    ensures
        text::split(text::joined(parts, "/"@), '/') == parts,
        text::joined(parts, "/"@).len() > 0,
        text::joined(parts, "/"@)[0] == parts[0][0],
    decreases parts.len(),
{
    assert(proper(parts[parts.len() - 1]));
    if parts.len() == 1 {
        let s = parts[0];
        text::lemma_pos_is_first(s, '/');
        assert(text::split(s, '/') =~= parts);
    } else {
        lemma_split_joined(parts.drop_last());
        lemma_split_last(text::joined(parts.drop_last(), "/"@), parts.last());
        assert(parts.drop_last().push(parts.last()) =~= parts);
    }
}

/// Normalizing is done once: a normalized path normalizes to itself, and none
/// of its components goes up. (The workspace root normalizes to the empty path,
/// which is no path to normalize.)
pub proof fn law_normalized_paths_stay(raw: Seq<char>)
    requires
        normalized(raw) is Ok,
        normalized(raw)->Ok_0.len() > 0,
    ensures
        normalized(normalized(raw)->Ok_0) == normalized(raw),
        named(text::split(normalized(raw)->Ok_0, '/')) == named(text::split(raw, '/')),
        !named(text::split(normalized(raw)->Ok_0, '/')).contains(".."@),
{
    let parts = named(text::split(raw, '/'));
    lemma_split_pieces(raw, '/');
    lemma_named(text::split(raw, '/'));
    assert(parts.len() > 0);
    lemma_split_joined(parts);
    lemma_named_is_same(parts);
    assert(proper(parts[0]));
    let p = text::joined(parts, "/"@);
    assert(p[0] == parts[0][0]);
    assert(parts[0].contains(parts[0][0]));
}

/// Of the pieces of a path those count that are neither empty nor a single dot, in
/// their order.
pub proof fn law_empty_pieces_and_dots_do_not_count(parts: Seq<Seq<char>>, part: Seq<char>)
    ensures
        named(Seq::empty()).len() == 0,
        part.len() == 0 || part == "."@ ==> named(parts.push(part)) == named(parts),
        part.len() > 0 && part != "."@ ==> named(parts.push(part)) == named(parts).push(part),
{
    assert(parts.push(part).drop_last() =~= parts);
}

proof fn lemma_named_holds(parts: Seq<Seq<char>>, x: Seq<char>)
    requires
        x.len() > 0,
        x != "."@,
    ensures
        named(parts).contains(x) <==> parts.contains(x),
    decreases parts.len(),
{
    if parts.len() > 0 {
        let front = parts.drop_last();
        lemma_named_holds(front, x);
        assert(parts =~= front.push(parts.last()));
        if parts.contains(x) {
            let i = parts.index_of(x);
            if i < front.len() {
                assert(front[i] == x);
                let k = named(front).index_of(x);
                assert(named(parts)[k] == x);
            } else {
                assert(named(parts).last() == x);
            }
        }
        if named(parts).contains(x) {
            let k = named(parts).index_of(x);
            if k < named(front).len() {
                assert(named(front)[k] == x);
                let i = front.index_of(x);
                assert(parts[i] == x);
            } else {
                assert(parts[parts.len() - 1] == x);
            }
        }
    }
}

/// A path is refused exactly if it is empty, starts with a slash, or has `..` between
/// slashes.
pub proof fn law_paths_are_refused_that_leave_the_workspace(raw: Seq<char>)
    ensures
        normalized(raw) is Err <==> raw.len() == 0 || raw[0] == '/' || text::split(
            raw,
            '/',
        ).contains(".."@),
{
    reveal_strlit(".");
    reveal_strlit("..");
    assert("."@.len() == 1 && ".."@.len() == 2);
    lemma_named_holds(text::split(raw, '/'), ".."@);
}

proof fn lemma_components(parts: Seq<Seq<char>>)
    requires
        parts.len() > 0,
        forall|i: int| 0 <= i < parts.len() ==> proper(#[trigger] parts[i]),
    ensures
        components(text::joined(parts, "/"@)) == parts,
        without_slashes(without_dots(text::joined(parts, "/"@))) == text::joined(parts, "/"@),
        text::joined(parts, "/"@).len() > 0,
{
    reveal_strlit("/");
    reveal_strlit(".");
    lemma_split_joined(parts);
    lemma_named_is_same(parts);
    let p = text::joined(parts, "/"@);
    assert(proper(parts[0]));
    assert(parts[0].contains(parts[0][0]));
    assert(p[0] != '/');
    if p.len() >= 2 && p[0] == '.' && p[1] == '/' {
        text::lemma_pos(p, '/', 1);
        assert(text::split(p, '/')[0] =~= p.take(1));
        assert(p.take(1) =~= "."@);
        assert(false);
    }
    let last = parts.last();
    assert(proper(parts[parts.len() - 1]));
    assert(last.contains(last[last.len() - 1]));
    assert(p.last() == last.last());
}

/// A path lies under a directory exactly if it starts with the directory's components:
/// whole components count, not letters.
pub proof fn law_paths_lie_under_their_directories(rel: Seq<Seq<char>>, dir: Seq<Seq<char>>)
    requires
        rel.len() > 0,
        dir.len() > 0,
        forall|i: int| 0 <= i < rel.len() ==> proper(#[trigger] rel[i]),
        forall|i: int| 0 <= i < dir.len() ==> proper(#[trigger] dir[i]),
    ensures
        under(text::joined(rel, "/"@), text::joined(dir, "/"@)) <==> dir.len() <= rel.len() && forall|
            i: int,
        |
            0 <= i < dir.len() ==> #[trigger] dir[i] == rel[i],
        under(text::joined(rel, "/"@), "./"@ + text::joined(dir, "/"@)) == under(
            text::joined(rel, "/"@),
            text::joined(dir, "/"@),
        ),
        under(text::joined(rel, "/"@), Seq::empty()),
{
    reveal_strlit("./");
    lemma_components(rel);
    lemma_components(dir);
    let p = text::joined(dir, "/"@);
    assert(dir.is_prefix_of(rel) <==> dir.len() <= rel.len() && forall|i: int|
        0 <= i < dir.len() ==> #[trigger] dir[i] == rel[i]) by {
        if dir.len() <= rel.len() && forall|i: int|
            0 <= i < dir.len() ==> #[trigger] dir[i] == rel[i] {
            assert(dir =~= rel.subrange(0, dir.len() as int));
        }
        if dir.is_prefix_of(rel) {
            assert forall|i: int| 0 <= i < dir.len() implies #[trigger] dir[i] == rel[i] by {
                assert(rel.subrange(0, dir.len() as int)[i] == rel[i]);
            }
        }
    }
    assert(("./"@ + p).skip(2) =~= p);
}

/// A list of prefixes admits what any of them admits, and an empty list everything.
pub proof fn law_prefixes_admit_what_one_of_them_admits(
    rel: Seq<char>,
    prefixes: Seq<Seq<char>>,
    prefix: Seq<char>,
)
    ensures
        under_any(rel, Seq::empty()),
        prefixes.len() > 0 ==> (under_any(rel, prefixes.push(prefix)) <==> under_any(rel, prefixes)
            || under(rel, prefix)),
        under_any(rel, seq![prefix]) <==> under(rel, prefix),
{
    let more = prefixes.push(prefix);
    if under(rel, prefix) {
        assert(more[prefixes.len() as int] == prefix);
        assert(seq![prefix][0] == prefix);
    }
    if prefixes.len() > 0 && under_any(rel, prefixes) {
        let i = choose|i: int| 0 <= i < prefixes.len() && under(rel, #[trigger] prefixes[i]);
        assert(more[i] == prefixes[i]);
    }
    if prefixes.len() > 0 && under_any(rel, more) {
        let i = choose|i: int| 0 <= i < more.len() && under(rel, #[trigger] more[i]);
        if i < prefixes.len() {
            assert(more[i] == prefixes[i]);
        }
    }
}

proof fn lemma_named_behind_empty(parts: Seq<Seq<char>>)
    ensures
        named(seq![Seq::<char>::empty()] + parts) == named(parts),
    decreases parts.len(),
{
    let all = seq![Seq::<char>::empty()] + parts;
    if parts.len() == 0 {
        assert(all.drop_last() =~= parts);
        assert(all.last() == Seq::<char>::empty());
        assert(named(all) == named(parts));
    } else {
        lemma_named_behind_empty(parts.drop_last());
        assert(all.drop_last() =~= seq![Seq::<char>::empty()] + parts.drop_last());
        assert(all.last() == parts.last());
    }
}

/// The components of a clean path are its names, and those of an absolute path the
/// root and its names.
pub proof fn law_components_are_the_names(parts: Seq<Seq<char>>)
    requires
        parts.len() > 0,
        forall|i: int| 0 <= i < parts.len() ==> proper(#[trigger] parts[i]),
    ensures
        components(text::joined(parts, "/"@)) == parts,
        components(seq!['/'] + text::joined(parts, "/"@)) == seq!["/"@] + parts,
{
    lemma_components(parts);
    lemma_split_joined(parts);
    lemma_named_is_same(parts);
    let p = text::joined(parts, "/"@);
    let s = seq!['/'] + p;
    text::lemma_pos(s, '/', 0);
    assert(s.take(0) =~= Seq::<char>::empty());
    assert(s.skip(1) =~= p);
    assert(text::split(s, '/') =~= seq![Seq::<char>::empty()] + parts);
    lemma_named_behind_empty(parts);
}

} // verus!
