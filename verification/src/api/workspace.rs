//! What a remote sandbox may say of the workspace: the checks on a returned
//! delta, and the order in which it is applied.
use vstd::prelude::*;
use crate::denial::{Denial, DenialCode, DenialView, bare_denial};
use crate::error::{debug_list, format_debug_list};
use crate::path::{components, components_of, matches_prefixes, under_any};
use crate::sorted::{Sorted, in_order};
use crate::sync::{syncable, syncable_path};
use crate::text;
use crate::traits::{SyncedFile, WorkspaceDelta};

verus! {

/// What is wrong with a delta: it does to a path what it may not.
pub struct DeltaFault {
    pub verb: Seq<char>,
    pub path: Seq<char>,
    pub why: Seq<char>,
}

/// Why a delta may not touch a path: it has to be a clean workspace-relative
/// path outside the cache/scratch tier, written canonically, and inside the
/// writable prefixes.
pub open spec fn unfit(path: Seq<char>, prefixes: Seq<Seq<char>>) -> Option<Seq<char>> {
    match syncable(path) {
        Err(why) => Some(why),
        Ok(clean) => if clean != path {
            Some("is not canonical (the canonical path is `"@ + clean + "`)"@)
        } else if !under_any(clean, prefixes) {
            Some("is outside the step's writable prefixes "@ + debug_list(prefixes))
        } else {
            None
        },
    }
}

/// The first fault among the writes from position `i` on.
pub open spec fn write_fault(
    writes: Seq<Seq<char>>,
    prefixes: Seq<Seq<char>>,
    i: int,
) -> Option<DeltaFault>
    decreases writes.len() - i,
{
    if i >= writes.len() {
        None
    } else {
        match unfit(writes[i], prefixes) {
            Some(why) => Some(DeltaFault { verb: "writes"@, path: writes[i], why }),
            None => if writes.take(i).contains(writes[i]) {
                Some(
                    DeltaFault {
                        verb: "mentions more than once"@,
                        path: writes[i],
                        why: "makes the delta order-dependent"@,
                    },
                )
            } else {
                write_fault(writes, prefixes, i + 1)
            },
        }
    }
}

/// The first fault among the deletes from position `i` on.
pub open spec fn delete_fault(
    writes: Seq<Seq<char>>,
    deletes: Seq<Seq<char>>,
    prefixes: Seq<Seq<char>>,
    i: int,
) -> Option<DeltaFault>
    decreases deletes.len() - i,
{
    if i >= deletes.len() {
        None
    } else {
        match unfit(deletes[i], prefixes) {
            Some(why) => Some(DeltaFault { verb: "deletes"@, path: deletes[i], why }),
            None => if writes.contains(deletes[i]) || deletes.take(i).contains(deletes[i]) {
                Some(
                    DeltaFault {
                        verb: "both writes and/or deletes"@,
                        path: deletes[i],
                        why: "makes the delta order-dependent"@,
                    },
                )
            } else {
                delete_fault(writes, deletes, prefixes, i + 1)
            },
        }
    }
}

/// The nearest path above `path`, of those that end at a separator before
/// position `k`, that is in the set.
pub open spec fn nearest_above(s: Set<Seq<char>>, path: Seq<char>, k: int) -> Option<Seq<char>>
    decreases k,
{
    if k <= 0 {
        None
    } else if path[k - 1] == '/' && s.contains(path.take(k - 1)) {
        Some(path.take(k - 1))
    } else {
        nearest_above(s, path, k - 1)
    }
}

/// The first fault in the shape of the tree: a file below a file, among the
/// paths from position `i` on.
pub open spec fn shape_fault(s: Set<Seq<char>>, paths: Seq<Seq<char>>, i: int) -> Option<DeltaFault>
    decreases paths.len() - i,
{
    if i >= paths.len() {
        None
    } else {
        match nearest_above(s, paths[i], paths[i].len() as int) {
            Some(above) => Some(
                DeltaFault {
                    verb: "writes"@,
                    path: paths[i],
                    why: "also writes its file ancestor `"@ + above + "`"@,
                },
            ),
            None => shape_fault(s, paths, i + 1),
        }
    }
}

/// What is wrong with a delta: writes come before deletes, and both before the
/// shape of the tree.
pub open spec fn delta_fault(
    writes: Seq<Seq<char>>,
    deletes: Seq<Seq<char>>,
    prefixes: Seq<Seq<char>>,
) -> Option<DeltaFault> {
    match write_fault(writes, prefixes, 0) {
        Some(f) => Some(f),
        None => match delete_fault(writes, deletes, prefixes, 0) {
            Some(f) => Some(f),
            None => shape_fault(writes.to_set(), in_order(writes.to_set()), 0),
        },
    }
}

/// The denial of a delta.
pub open spec fn delta_denial(backend: Seq<char>, f: DeltaFault) -> DenialView {
    bare_denial(
        DenialCode::ConstraintViolated,
        "backend.state_sync"@,
        "backend `"@ + backend + "` returned a workspace delta that "@ + f.verb + " `"@ + f.path
            + "`, which "@ + f.why
            + "; the delta was rejected and the remote sandbox discarded — the branch head is unchanged"@,
        false,
    )
}

/// The paths of files.
pub open spec fn paths_of(files: Seq<SyncedFile>) -> Seq<Seq<char>> {
    Seq::new(files.len(), |i: int| files[i].path@)
}

fn refuse(backend: &str, verb: &str, path: &str, why: &str) -> (d: Denial)
    ensures
        d@ == delta_denial(backend@, DeltaFault { verb: verb@, path: path@, why: why@ }),
{
    let head = text::cat5(
        "backend `",
        backend,
        "` returned a workspace delta that ",
        verb,
        " `",
    );
    let reason = text::cat5(
        head.as_str(),
        path,
        "`, which ",
        why,
        "; the delta was rejected and the remote sandbox discarded — the branch head is unchanged",
    );
    Denial::bare(DenialCode::ConstraintViolated, "backend.state_sync", reason, false)
}

fn check_path(path: &str, prefixes: &Vec<String>) -> (r: Option<String>)
    ensures
        r.deep_view() == unfit(path@, prefixes.deep_view()),
{
    match syncable_path(path) {
        Err(why) => Some(why),
        Ok(clean) => if !text::str_eq(clean.as_str(), path) {
            Some(
                text::cat3(
                    "is not canonical (the canonical path is `",
                    clean.as_str(),
                    "`)",
                ),
            )
        } else if !matches_prefixes(clean.as_str(), prefixes) {
            let list = format_debug_list(prefixes);
            Some(text::cat2("is outside the step's writable prefixes ", list.as_str()))
        } else {
            None
        },
    }
}

fn find_above(s: &Sorted<bool>, path: &str) -> (r: Option<String>)
    ensures
        r.deep_view() == nearest_above(s@.dom(), path@, path@.len() as int),
{
    let chars = text::chars_of(path);
    let mut k: usize = chars.len();
    while k > 0
        invariant
            k <= chars.len(),
            chars@ == path@,
            nearest_above(s@.dom(), path@, path@.len() as int) == nearest_above(
                s@.dom(),
                path@,
                k as int,
            ),
        decreases k,
    {
        if chars[k - 1] == '/' {
            let above = path.substring_char(0, k - 1);
            proof {
                assert(above@ == path@.take(k - 1));
            }
            if s.get(above).is_some() {
                return Some(above.to_owned());
            }
        }
        k = k - 1;
    }
    None
}

/// Validate a state-synced excursion's returned delta before it may touch the
/// branch workspace mirror. The remote sandbox is outside the kernel's trust
/// boundary: every path must be a clean workspace-relative path outside the
/// cache/scratch tier and inside this step's writable prefixes. A delta is a
/// canonical set, not an instruction stream: no path may occur twice, and no
/// file may lie below another. A violation means the remote failed to enforce
/// the confinement it was handed; the delta is rejected wholesale.
pub fn validate_workspace_delta(
    delta: &WorkspaceDelta,
    writable_prefixes: &Vec<String>,
    backend: &str,
) -> (r: Result<(), Denial>)
    ensures
        match (
            r,
            delta_fault(
                paths_of(delta.upserts@),
                delta.deletes.deep_view(),
                writable_prefixes.deep_view(),
            ),
        ) {
            (Ok(_), None) => true,
            (Err(d), Some(f)) => d@ == delta_denial(backend@, f),
            _ => false,
        },
{
    let ghost writes = paths_of(delta.upserts@);
    let ghost deletes = delta.deletes.deep_view();
    let ghost prefixes = writable_prefixes.deep_view();
    let mut upserts: Sorted<bool> = Sorted::new();
    let mut touched: Sorted<bool> = Sorted::new();
    let mut i: usize = 0;
    proof {
        assert(upserts@.dom() =~= writes.take(0).to_set());
        assert(touched@.dom() =~= writes.take(0).to_set());
    }
    while i < delta.upserts.len()
        invariant
            i <= delta.upserts.len(),
            writes == paths_of(delta.upserts@),
            deletes == delta.deletes.deep_view(),
            prefixes == writable_prefixes.deep_view(),
            upserts@.dom() == writes.take(i as int).to_set(),
            touched@.dom() == writes.take(i as int).to_set(),
            write_fault(writes, prefixes, 0) == write_fault(writes, prefixes, i as int),
        decreases delta.upserts.len() - i,
    {
        let path = &delta.upserts[i].path;
        proof {
            assert(path@ == writes[i as int]);
        }
        if let Some(why) = check_path(path.as_str(), writable_prefixes) {
            return Err(refuse(backend, "writes", path.as_str(), why.as_str()));
        }
        if touched.get(path.as_str()).is_some() {
            return Err(
                refuse(
                    backend,
                    "mentions more than once",
                    path.as_str(),
                    "makes the delta order-dependent",
                ),
            );
        }
        touched.insert(path.clone(), true);
        upserts.insert(path.clone(), true);
        proof {
            let a = writes.take(i as int);
            let b = writes.take(i + 1);
            assert(b =~= a.push(writes[i as int]));
            lemma_push_set(a, writes[i as int]);
            assert(touched@.dom() =~= a.to_set().insert(writes[i as int]));
            assert(upserts@.dom() =~= a.to_set().insert(writes[i as int]));
        }
        i = i + 1;
    }
    proof {
        assert(writes.take(writes.len() as int) =~= writes);
        assert(deletes.take(0).to_set() =~= Set::<Seq<char>>::empty());
        assert(touched@.dom() =~= writes.to_set().union(deletes.take(0).to_set()));
    }
    let mut i: usize = 0;
    while i < delta.deletes.len()
        invariant
            i <= delta.deletes.len(),
            writes == paths_of(delta.upserts@),
            deletes == delta.deletes.deep_view(),
            prefixes == writable_prefixes.deep_view(),
            upserts@.dom() == writes.to_set(),
            touched@.dom() == writes.to_set().union(deletes.take(i as int).to_set()),
            write_fault(writes, prefixes, 0) is None,
            delete_fault(writes, deletes, prefixes, 0) == delete_fault(
                writes,
                deletes,
                prefixes,
                i as int,
            ),
        decreases delta.deletes.len() - i,
    {
        let path = &delta.deletes[i];
        proof {
            assert(path@ == deletes[i as int]);
        }
        if let Some(why) = check_path(path.as_str(), writable_prefixes) {
            return Err(refuse(backend, "deletes", path.as_str(), why.as_str()));
        }
        if touched.get(path.as_str()).is_some() {
            return Err(
                refuse(
                    backend,
                    "both writes and/or deletes",
                    path.as_str(),
                    "makes the delta order-dependent",
                ),
            );
        }
        touched.insert(path.clone(), true);
        proof {
            let a = deletes.take(i as int);
            let b = deletes.take(i + 1);
            assert(b =~= a.push(deletes[i as int]));
            lemma_push_set(a, deletes[i as int]);
            assert(touched@.dom() =~= writes.to_set().union(b.to_set()));
        }
        i = i + 1;
    }
    let ghost ks = in_order(writes.to_set());
    let n = upserts.len();
    let mut i: usize = 0;
    while i < n
        invariant
            i <= n,
            n == ks.len(),
            ks == upserts.keys(),
            ks == in_order(writes.to_set()),
            writes == paths_of(delta.upserts@),
            deletes == delta.deletes.deep_view(),
            prefixes == writable_prefixes.deep_view(),
            write_fault(writes, prefixes, 0) is None,
            delete_fault(writes, deletes, prefixes, 0) is None,
            upserts@.dom() == writes.to_set(),
            shape_fault(writes.to_set(), ks, 0) == shape_fault(writes.to_set(), ks, i as int),
        decreases n - i,
    {
        let (path, _) = upserts.at(i);
        if let Some(above) = find_above(&upserts, path.as_str()) {
            let why = text::cat3("also writes its file ancestor `", above.as_str(), "`");
            return Err(refuse(backend, "writes", path.as_str(), why.as_str()));
        }
        i = i + 1;
    }
    Ok(())
}

proof fn lemma_push_set(a: Seq<Seq<char>>, x: Seq<char>)
    ensures
        a.push(x).to_set() == a.to_set().insert(x),
{
    let b = a.push(x);
    assert forall|y: Seq<char>| b.to_set().contains(y) <==> a.to_set().insert(x).contains(y) by {
        if b.contains(y) {
            let j = choose|j: int| 0 <= j < b.len() && b[j] == y;
            if j < a.len() {
                assert(a[j] == y);
            }
        }
        if a.contains(y) {
            let j = choose|j: int| 0 <= j < a.len() && a[j] == y;
            assert(b[j] == y);
        }
        if y == x {
            assert(b[a.len() as int] == y);
        }
    }
    assert(b.to_set() =~= a.to_set().insert(x));
}

/// How deep a path lies.
pub open spec fn depth(path: Seq<char>) -> nat {
    components(path).len()
}

/// The paths with one more, behind all that lie at least as deep.
pub open spec fn by_depth(paths: Seq<Seq<char>>, path: Seq<char>) -> Seq<Seq<char>>
    decreases paths.len(),
{
    if paths.len() == 0 || depth(paths.last()) >= depth(path) {
        paths.push(path)
    } else {
        by_depth(paths.drop_last(), path).push(paths.last())
    }
}

/// The paths, the deepest first; those that lie equally deep keep their order.
pub open spec fn deepest_first(paths: Seq<Seq<char>>) -> Seq<Seq<char>>
    decreases paths.len(),
{
    if paths.len() == 0 {
        Seq::empty()
    } else {
        by_depth(deepest_first(paths.drop_last()), paths.last())
    }
}

/// The order in which deletes are applied: the deepest first, so that
/// directories are empty when their turn comes.
pub fn delete_order(deletes: &Vec<String>) -> (out: Vec<String>)
    ensures
        out.deep_view() == deepest_first(deletes.deep_view()),
{
    let ghost ds = deletes.deep_view();
    let mut out: Vec<String> = Vec::new();
    let mut depths: Vec<usize> = Vec::new();
    let mut i: usize = 0;
    proof {
        assert(out.deep_view() =~= deepest_first(ds.take(0)));
    }
    while i < deletes.len()
        invariant
            i <= deletes.len(),
            ds == deletes.deep_view(),
            out.len() == i,
            depths.len() == i,
            forall|j: int| 0 <= j < i ==> #[trigger] depths@[j] == depth(out@[j]@),
            out.deep_view() == deepest_first(ds.take(i as int)),
        decreases deletes.len() - i,
    {
        let ghost before = out.deep_view();
        let ghost path = ds[i as int];
        let d: usize = components_of(deletes[i].as_str()).len();
        let mut k: usize = i;
        proof {
            assert(deletes@[i as int]@ == path);
            assert(before.take(i as int) =~= before);
            assert(before.skip(i as int) =~= Seq::<Seq<char>>::empty());
            assert(by_depth(before, path) =~= by_depth(before.take(i as int), path)
                + before.skip(i as int));
        }
        while k > 0 && depths[k - 1] < d
            invariant
                k <= i,
                out.len() == i,
                depths.len() == i,
                before == out.deep_view(),
                d == depth(path),
                forall|j: int| 0 <= j < i ==> #[trigger] depths@[j] == depth(out@[j]@),
                by_depth(before, path) == by_depth(before.take(k as int), path) + before.skip(
                    k as int,
                ),
            decreases k,
        {
            proof {
                let t = before.take(k as int);
                assert(t.drop_last() =~= before.take(k - 1));
                assert(t.last() == before[k - 1]);
                assert(before[k - 1] == out@[k - 1]@);
                assert(by_depth(t, path) == by_depth(before.take(k - 1), path).push(before[k - 1]));
                assert(seq![before[k - 1]] + before.skip(k as int) =~= before.skip(k - 1));
                assert(by_depth(before.take(k - 1), path).push(before[k - 1]) + before.skip(
                    k as int,
                ) =~= by_depth(before.take(k - 1), path) + before.skip(k - 1));
            }
            k = k - 1;
        }
        proof {
            let t = before.take(k as int);
            if k > 0 {
                assert(t.last() == before[k - 1]);
                assert(before[k - 1] == out@[k - 1]@);
            }
            assert(by_depth(t, path) == t.push(path));
        }
        let ghost o = out@;
        let ghost ods = depths@;
        out.insert(k, deletes[i].clone());
        depths.insert(k, d);
        proof {
            assert(out.deep_view() =~= before.take(k as int).push(path) + before.skip(k as int));
            assert forall|j: int| 0 <= j < i + 1 implies #[trigger] depths@[j] == depth(
                out@[j]@,
            ) by {
                if j < k {
                    assert(depths@[j] == ods[j] && out@[j] == o[j]);
                } else if j > k {
                    assert(depths@[j] == ods[j - 1] && out@[j] == o[j - 1]);
                }
            }
            assert(ds.take(i + 1).drop_last() =~= ds.take(i as int));
            assert(ds.take(i + 1).last() == path);
        }
        i = i + 1;
    }
    proof {
        assert(ds.take(ds.len() as int) =~= ds);
    }
    out
}

/// The permission bits of a file that came from a remote tree: setuid, setgid
/// and sticky bits never survive the way.
pub fn masked_mode(mode: u32) -> (r: u32)
    ensures
        r == mode & 0o777,
        r <= 0o777,
{
    proof {
        assert(mode & 0o777 <= 0o777) by (bit_vector);
    }
    mode & 0o777
}

/// `above` is a path above `path`.
pub open spec fn is_above(above: Seq<char>, path: Seq<char>) -> bool {
    above.len() < path.len() && path[above.len() as int] == '/' && path.take(above.len() as int)
        == above
}

proof fn lemma_write_fault(writes: Seq<Seq<char>>, prefixes: Seq<Seq<char>>, i: int)
    requires
        0 <= i,
    ensures
        write_fault(writes, prefixes, i) is None <==> forall|j: int|
            i <= j < writes.len() ==> unfit(#[trigger] writes[j], prefixes) is None
                && !writes.take(j).contains(writes[j]),
    decreases writes.len() - i,
{
    if i < writes.len() {
        lemma_write_fault(writes, prefixes, i + 1);
        if unfit(writes[i], prefixes) is None && !writes.take(i).contains(writes[i]) {
            assert(write_fault(writes, prefixes, i) == write_fault(writes, prefixes, i + 1));
        } else {
            assert(write_fault(writes, prefixes, i) is Some);
        }
    }
}

proof fn lemma_delete_fault(
    writes: Seq<Seq<char>>,
    deletes: Seq<Seq<char>>,
    prefixes: Seq<Seq<char>>,
    i: int,
)
    requires
        0 <= i,
    ensures
        delete_fault(writes, deletes, prefixes, i) is None <==> forall|j: int|
            i <= j < deletes.len() ==> unfit(#[trigger] deletes[j], prefixes) is None
                && !writes.contains(deletes[j]) && !deletes.take(j).contains(deletes[j]),
    decreases deletes.len() - i,
{
    if i < deletes.len() {
        lemma_delete_fault(writes, deletes, prefixes, i + 1);
        if unfit(deletes[i], prefixes) is None && !writes.contains(deletes[i]) && !deletes.take(
            i,
        ).contains(deletes[i]) {
            assert(delete_fault(writes, deletes, prefixes, i) == delete_fault(
                writes,
                deletes,
                prefixes,
                i + 1,
            ));
        } else {
            assert(delete_fault(writes, deletes, prefixes, i) is Some);
        }
    }
}

proof fn lemma_nearest_above(s: Set<Seq<char>>, path: Seq<char>, k: int)
    requires
        0 <= k <= path.len(),
    ensures
        nearest_above(s, path, k) is None <==> forall|a: Seq<char>|
            #[trigger] s.contains(a) && a.len() < k ==> !is_above(a, path),
        nearest_above(s, path, k) matches Some(a) ==> s.contains(a) && is_above(a, path),
    decreases k,
{
    if k > 0 {
        lemma_nearest_above(s, path, k - 1);
        if path[k - 1] == '/' && s.contains(path.take(k - 1)) {
            assert(is_above(path.take(k - 1), path));
        } else {
            assert forall|a: Seq<char>|
                #[trigger] s.contains(a) && a.len() < k && nearest_above(s, path, k - 1)
                    is None implies !is_above(a, path) by {
                if a.len() == k - 1 && is_above(a, path) {
                    assert(path.take(k - 1) == a);
                }
            }
        }
    }
}

proof fn lemma_shape_fault(s: Set<Seq<char>>, paths: Seq<Seq<char>>, i: int)
    requires
        0 <= i,
    ensures
        shape_fault(s, paths, i) is None <==> forall|j: int, a: Seq<char>|
            #![trigger paths[j], s.contains(a)]
            i <= j < paths.len() && s.contains(a) ==> !is_above(a, paths[j]),
    decreases paths.len() - i,
{
    if i < paths.len() {
        lemma_shape_fault(s, paths, i + 1);
        lemma_nearest_above(s, paths[i], paths[i].len() as int);
        if nearest_above(s, paths[i], paths[i].len() as int) is None {
            assert(shape_fault(s, paths, i) == shape_fault(s, paths, i + 1));
            assert forall|j: int, a: Seq<char>|
                #![trigger paths[j], s.contains(a)]
                i <= j < paths.len() && s.contains(a) && shape_fault(s, paths, i + 1)
                    is None implies !is_above(a, paths[j]) by {}
        } else {
            let a = nearest_above(s, paths[i], paths[i].len() as int)->0;
            assert(s.contains(a) && is_above(a, paths[i]));
        }
    }
}

/// A delta passes exactly if every path it touches is fit, no path occurs twice,
/// and no written path lies above another: then the order in which it is applied
/// does not matter.
pub proof fn law_delta_passes_iff_canonical(
    writes: Seq<Seq<char>>,
    deletes: Seq<Seq<char>>,
    prefixes: Seq<Seq<char>>,
)
    ensures
        delta_fault(writes, deletes, prefixes) is None <==> {
            &&& forall|i: int| 0 <= i < writes.len() ==> unfit(#[trigger] writes[i], prefixes) is None
            &&& forall|i: int|
                0 <= i < deletes.len() ==> unfit(#[trigger] deletes[i], prefixes) is None
            &&& (writes + deletes).no_duplicates()
            &&& forall|a: Seq<char>, b: Seq<char>|
                #![trigger writes.contains(a), writes.contains(b)]
                writes.contains(a) && writes.contains(b) ==> !is_above(a, b)
        },
{
    let all = writes + deletes;
    let s = writes.to_set();
    let ks = in_order(s);
    lemma_write_fault(writes, prefixes, 0);
    lemma_delete_fault(writes, deletes, prefixes, 0);
    lemma_shape_fault(s, ks, 0);
    vstd::seq_lib::seq_to_set_is_finite(writes);
    let ordered = text::lemma_ascending_exists(s);
    crate::sorted::lemma_in_order(ordered, s);
    assert(ks.to_set() == s);
    if delta_fault(writes, deletes, prefixes) is None {
        assert forall|i: int, j: int| 0 <= i < j < all.len() implies all[i] != all[j] by {
            if j < writes.len() {
                assert(!writes.take(j).contains(writes[j]));
                assert(writes.take(j)[i] == writes[i]);
            } else if i < writes.len() {
                assert(!writes.contains(deletes[j - writes.len()]));
                assert(writes[i] == all[i]);
            } else {
                let p = i - writes.len();
                let q = j - writes.len();
                assert(!deletes.take(q).contains(deletes[q]));
                assert(deletes.take(q)[p] == deletes[p]);
            }
        }
        assert forall|a: Seq<char>, b: Seq<char>|
            #![trigger writes.contains(a), writes.contains(b)]
            writes.contains(a) && writes.contains(b) implies !is_above(a, b) by {
            assert(s.contains(a) && s.contains(b));
            assert(ks.contains(b));
            let j = choose|j: int| 0 <= j < ks.len() && ks[j] == b;
            assert(!is_above(a, ks[j]));
        }
    }
    if {
        &&& forall|i: int| 0 <= i < writes.len() ==> unfit(#[trigger] writes[i], prefixes) is None
        &&& forall|i: int| 0 <= i < deletes.len() ==> unfit(#[trigger] deletes[i], prefixes) is None
        &&& (writes + deletes).no_duplicates()
        &&& forall|a: Seq<char>, b: Seq<char>|
            #![trigger writes.contains(a), writes.contains(b)]
            writes.contains(a) && writes.contains(b) ==> !is_above(a, b)
    } {
        assert forall|j: int| 0 <= j < writes.len() implies unfit(#[trigger] writes[j], prefixes)
            is None && !writes.take(j).contains(writes[j]) by {
            if writes.take(j).contains(writes[j]) {
                let i = choose|i: int| 0 <= i < j && writes.take(j)[i] == writes[j];
                assert(all[i] == writes[i] && all[j] == writes[j]);
            }
        }
        assert forall|j: int| 0 <= j < deletes.len() implies unfit(#[trigger] deletes[j], prefixes)
            is None && !writes.contains(deletes[j]) && !deletes.take(j).contains(deletes[j]) by {
            let q = writes.len() + j;
            assert(all[q] == deletes[j]);
            if writes.contains(deletes[j]) {
                let i = choose|i: int| 0 <= i < writes.len() && writes[i] == deletes[j];
                assert(all[i] == writes[i]);
            }
            if deletes.take(j).contains(deletes[j]) {
                let i = choose|i: int| 0 <= i < j && deletes.take(j)[i] == deletes[j];
                assert(all[writes.len() + i] == deletes[i]);
            }
        }
        assert forall|j: int, a: Seq<char>|
            #![trigger ks[j], s.contains(a)]
            0 <= j < ks.len() && s.contains(a) implies !is_above(a, ks[j]) by {
            assert(ks.contains(ks[j]));
            assert(ks.to_set().contains(ks[j]));
            assert(writes.contains(a) && writes.contains(ks[j]));
        }
    }
}

proof fn lemma_by_depth(paths: Seq<Seq<char>>, path: Seq<char>)
    requires
        forall|i: int, j: int|
            #![trigger paths[i], paths[j]]
            0 <= i <= j < paths.len() ==> depth(paths[i]) >= depth(paths[j]),
    ensures
        by_depth(paths, path).len() == paths.len() + 1,
        by_depth(paths, path).to_multiset() == paths.to_multiset().insert(path),
        forall|i: int, j: int|
            #![trigger by_depth(paths, path)[i], by_depth(paths, path)[j]]
            0 <= i <= j < by_depth(paths, path).len() ==> depth(by_depth(paths, path)[i]) >= depth(
                by_depth(paths, path)[j],
            ),
        paths.len() > 0 ==> depth(by_depth(paths, path).last()) >= if depth(paths.last()) < depth(
            path,
        ) {
            depth(paths.last())
        } else {
            depth(path)
        },
    decreases paths.len(),
{
    broadcast use vstd::seq_lib::group_to_multiset_ensures;

    let r = by_depth(paths, path);
    if paths.len() == 0 || depth(paths.last()) >= depth(path) {
    } else {
        let init = paths.drop_last();
        lemma_by_depth(init, path);
        let t = by_depth(init, path);
        assert(paths =~= init.push(paths.last()));
        assert(r == t.push(paths.last()));
        assert(r.to_multiset() =~= paths.to_multiset().insert(path));
        assert forall|i: int, j: int|
            #![trigger r[i], r[j]]
            0 <= i <= j < r.len() implies depth(r[i]) >= depth(r[j]) by {
            if j == t.len() && i < t.len() {
                assert(depth(t[i]) >= depth(t[t.len() - 1]));
                if init.len() > 0 {
                    assert(depth(paths[paths.len() - 2]) >= depth(paths[paths.len() - 1]));
                } else {
                    assert(t == seq![path] || t =~= init.push(path));
                    assert(t[t.len() - 1] == path);
                }
            } else if j < t.len() {
                assert(depth(t[i]) >= depth(t[j]));
            }
        }
    }
}

/// Deleting in order takes the same paths, and never a path before one that lies
/// deeper.
pub proof fn law_deletes_go_deepest_first(paths: Seq<Seq<char>>)
    ensures
        deepest_first(paths).to_multiset() == paths.to_multiset(),
        forall|i: int, j: int|
            #![trigger deepest_first(paths)[i], deepest_first(paths)[j]]
            0 <= i <= j < deepest_first(paths).len() ==> depth(deepest_first(paths)[i]) >= depth(
                deepest_first(paths)[j],
            ),
    decreases paths.len(),
{
    broadcast use vstd::seq_lib::group_to_multiset_ensures;

    if paths.len() > 0 {
        law_deletes_go_deepest_first(paths.drop_last());
        lemma_by_depth(deepest_first(paths.drop_last()), paths.last());
        assert(paths =~= paths.drop_last().push(paths.last()));
    } else {
        assert(deepest_first(paths) =~= paths);
    }
}

/// A path is fit exactly if sync carries it, it is written as sync writes it, and it
/// lies in the writable prefixes.
pub proof fn law_fit_paths_are_canonical_and_writable(path: Seq<char>, prefixes: Seq<Seq<char>>)
    ensures
        unfit(path, prefixes) is None <==> syncable(path) == Ok::<Seq<char>, Seq<char>>(path)
            && under_any(path, prefixes),
{
}

/// The write that is reported is the first that is unfit or occurs a second time.
pub proof fn law_first_faulty_write_is_reported(
    writes: Seq<Seq<char>>,
    prefixes: Seq<Seq<char>>,
    i: int,
)
    requires
        0 <= i,
    ensures
        write_fault(writes, prefixes, i) matches Some(f) ==> exists|k: int|
            i <= k < writes.len() && f.path == #[trigger] writes[k] && (unfit(writes[k], prefixes)
                is Some || writes.take(k).contains(writes[k])) && (unfit(writes[k], prefixes)
                matches Some(why) ==> f.why == why && f.verb == "writes"@) && forall|j: int|
                i <= j < k ==> unfit(#[trigger] writes[j], prefixes) is None && !writes.take(
                    j,
                ).contains(writes[j]),
    decreases writes.len() - i,
{
    if i < writes.len() {
        if unfit(writes[i], prefixes) is Some || writes.take(i).contains(writes[i]) {
            assert(writes[i] == writes[i]);
        } else {
            law_first_faulty_write_is_reported(writes, prefixes, i + 1);
        }
    }
}

/// The delete that is reported is the first that is unfit, is written too, or occurs
/// a second time.
pub proof fn law_first_faulty_delete_is_reported(
    writes: Seq<Seq<char>>,
    deletes: Seq<Seq<char>>,
    prefixes: Seq<Seq<char>>,
    i: int,
)
    requires
        0 <= i,
    ensures
        delete_fault(writes, deletes, prefixes, i) matches Some(f) ==> exists|k: int|
            i <= k < deletes.len() && f.path == #[trigger] deletes[k] && (unfit(
                deletes[k],
                prefixes,
            ) is Some || writes.contains(deletes[k]) || deletes.take(k).contains(deletes[k])) && (
            unfit(deletes[k], prefixes) matches Some(why) ==> f.why == why && f.verb == "deletes"@)
                && forall|j: int|
                i <= j < k ==> unfit(#[trigger] deletes[j], prefixes) is None && !writes.contains(
                    deletes[j],
                ) && !deletes.take(j).contains(deletes[j]),
    decreases deletes.len() - i,
{
    if i < deletes.len() {
        if unfit(deletes[i], prefixes) is Some || writes.contains(deletes[i]) || deletes.take(
            i,
        ).contains(deletes[i]) {
            assert(deletes[i] == deletes[i]);
        } else {
            law_first_faulty_delete_is_reported(writes, deletes, prefixes, i + 1);
        }
    }
}

/// The file in the way of another is the nearest above it.
pub proof fn law_nearest_file_is_in_the_way(s: Set<Seq<char>>, path: Seq<char>, k: int)
    requires
        0 <= k <= path.len(),
    ensures
        nearest_above(s, path, k) matches Some(a) ==> exists|j: int|
            0 <= j < k && path[j] == '/' && a == #[trigger] path.take(j) && s.contains(a) && forall|
                i: int,
            |
                j < i < k && path[i] == '/' ==> !s.contains(#[trigger] path.take(i)),
        nearest_above(s, path, k) is None ==> forall|i: int|
            0 <= i < k && path[i] == '/' ==> !s.contains(#[trigger] path.take(i)),
    decreases k,
{
    if k > 0 {
        if path[k - 1] == '/' && s.contains(path.take(k - 1)) {
            assert(path.take(k - 1) == path.take(k - 1));
        } else {
            law_nearest_file_is_in_the_way(s, path, k - 1);
        }
    }
}

/// A rejected delta is denied without appeal, with the path and what is wrong with it.
pub proof fn law_rejected_deltas_say_why(backend: Seq<char>, f: DeltaFault)
    ensures
        delta_denial(backend, f).code is ConstraintViolated,
        delta_denial(backend, f).attempted_operation == "backend.state_sync"@,
        !delta_denial(backend, f).escalation_allowed,
        delta_denial(backend, f).requestable_scopes.len() == 0,
        delta_denial(backend, f).reason == "backend `"@ + backend
            + "` returned a workspace delta that "@ + f.verb + " `"@ + f.path + "`, which "@ + f.why
            + "; the delta was rejected and the remote sandbox discarded — the branch head is unchanged"@,
{
}

} // verus!
