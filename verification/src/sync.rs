//! Remote state sync: the pure planning half, shared by every remote adapter
//! that materializes kernel state in its own sandbox.
//!
//! Before executing a step, a syncing backend lists the live remote tree and
//! diffs it against the base state's manifest, pushing only the difference.
//! After execution it lists again, pulls only files changed from the committed
//! base, and reports a workspace delta for the kernel to apply and snapshot.
//! The functions here compute those diffs; adapters own transport.
use vstd::prelude::*;
use crate::hash::ContentHash;
use crate::path::{named, named_components, normalize_relative, normalized, says};
use crate::sorted::{Sorted, in_order, lemma_in_order};
use crate::text;

verus! {

/// One file in a synced workspace tree: content identity plus mode.
#[derive(Debug)]
pub struct SyncEntry {
    /// Hash of the file's bytes.
    pub blob: ContentHash,
    /// Unix permission bits.
    pub mode: u32,
}

/// What a [`SyncEntry`] says.
pub struct EntryView {
    pub blob: Seq<char>,
    pub mode: u32,
}

impl SyncEntry {
    pub open spec fn view(&self) -> EntryView {
        EntryView { blob: self.blob@, mode: self.mode }
    }

    fn same(&self, other: &SyncEntry) -> (r: bool)
        ensures
            r == (self@ == other@),
    {
        text::str_eq(self.blob.as_str(), other.blob.as_str()) && self.mode == other.mode
    }
}

impl DeepView for SyncEntry {
    type V = EntryView;

    open spec fn deep_view(&self) -> EntryView {
        self@
    }
}

impl Clone for SyncEntry {
    fn clone(&self) -> (r: Self)
        ensures
            r == *self,
    {
        SyncEntry { blob: self.blob.clone(), mode: self.mode }
    }
}

/// A `path → entry` view of a workspace tree, as used for sync planning.
pub type SyncManifest = Sorted<SyncEntry>;

/// The entries of a manifest by path.
pub open spec fn tree(m: SyncManifest) -> Map<Seq<char>, EntryView> {
    m@.map_values(|e: SyncEntry| e@)
}

/// What must be transferred to bring a remote tree from `current` to `target`.
#[derive(Debug)]
pub struct PushPlan {
    /// Paths to write (create or overwrite), with their target entry.
    pub upserts: Vec<(String, SyncEntry)>,
    /// Paths to remove.
    pub deletes: Vec<String>,
}

impl Default for PushPlan {
    fn default() -> (r: Self)
        ensures
            r.upserts@.len() == 0,
            r.deletes@.len() == 0,
    {
        PushPlan { upserts: Vec::new(), deletes: Vec::new() }
    }
}

impl PushPlan {
    /// Whether there is nothing to transfer.
    pub fn is_empty(&self) -> (r: bool)
        ensures
            r == (self.upserts@.len() == 0 && self.deletes@.len() == 0),
    {
        self.upserts.len() == 0 && self.deletes.len() == 0
    }
}

/// A path has to be written: it is missing, or its entry differs.
pub open spec fn differs(
    current: Map<Seq<char>, EntryView>,
    target: Map<Seq<char>, EntryView>,
    path: Seq<char>,
) -> bool {
    !current.contains_key(path) || current[path] != target[path]
}

/// The paths that have to be written, with their target entries.
pub open spec fn writes(
    current: Map<Seq<char>, EntryView>,
    target: Map<Seq<char>, EntryView>,
    paths: Seq<Seq<char>>,
) -> Seq<(Seq<char>, EntryView)>
    decreases paths.len(),
{
    if paths.len() == 0 {
        Seq::empty()
    } else {
        let rest = writes(current, target, paths.drop_last());
        if differs(current, target, paths.last()) {
            rest.push((paths.last(), target[paths.last()]))
        } else {
            rest
        }
    }
}

/// The paths that have to be removed.
pub open spec fn removals(target: Map<Seq<char>, EntryView>, paths: Seq<Seq<char>>) -> Seq<
    Seq<char>,
>
    decreases paths.len(),
{
    if paths.len() == 0 {
        Seq::empty()
    } else {
        let rest = removals(target, paths.drop_last());
        if target.contains_key(paths.last()) {
            rest
        } else {
            rest.push(paths.last())
        }
    }
}

/// Diff two sync manifests into the transfer plan from `current` to `target`,
/// each half in path order. A path is upserted when its blob or mode differs.
pub fn push_plan(current: &SyncManifest, target: &SyncManifest) -> (plan: PushPlan)
    ensures
        plan.upserts.deep_view() == writes(
            tree(*current),
            tree(*target),
            in_order(tree(*target).dom()),
        ),
        plan.deletes.deep_view() == removals(tree(*target), in_order(tree(*current).dom())),
{
    let mut upserts: Vec<(String, SyncEntry)> = Vec::new();
    let mut deletes: Vec<String> = Vec::new();
    let ghost cv = tree(*current);
    let ghost tv = tree(*target);
    let ghost tks = target.keys();
    let ghost cks = current.keys();
    let n = target.len();
    let mut i: usize = 0;
    proof {
        assert(tv.dom() =~= target@.dom());
        assert(cv.dom() =~= current@.dom());
        assert(tks.take(0) =~= Seq::<Seq<char>>::empty());
        assert(upserts.deep_view() =~= Seq::<(Seq<char>, EntryView)>::empty());
        assert(deletes.deep_view() =~= Seq::<Seq<char>>::empty());
    }
    while i < n
        invariant
            i <= n,
            n == tks.len(),
            tks == target.keys(),
            cv == tree(*current),
            tv == tree(*target),
            upserts.deep_view() == writes(cv, tv, tks.take(i as int)),
        decreases n - i,
    {
        let (path, entry) = target.at(i);
        let ghost next = tks.take(i + 1);
        proof {
            assert(next.drop_last() == tks.take(i as int));
            assert(next.last() == path@);
        }
        let keep = match current.get(path.as_str()) {
            Some(e) => e.same(entry),
            None => false,
        };
        if !keep {
            let ghost before = upserts.deep_view();
            upserts.push((path.clone(), entry.clone()));
            proof {
                assert(upserts.deep_view() =~= before.push((path@, tv[path@])));
            }
        }
        i = i + 1;
    }
    let m = current.len();
    let mut j: usize = 0;
    proof {
        assert(tks.take(n as int) == tks);
        assert(cks.take(0) =~= Seq::<Seq<char>>::empty());
    }
    while j < m
        invariant
            j <= m,
            m == cks.len(),
            cks == current.keys(),
            tv == tree(*target),
            deletes.deep_view() == removals(tv, cks.take(j as int)),
        decreases m - j,
    {
        let (path, _) = current.at(j);
        let ghost next = cks.take(j + 1);
        proof {
            assert(next.drop_last() == cks.take(j as int));
            assert(next.last() == path@);
        }
        if target.get(path.as_str()).is_none() {
            let ghost before = deletes.deep_view();
            deletes.push(path.clone());
            proof {
                assert(deletes.deep_view() =~= before.push(path@));
            }
        }
        j = j + 1;
    }
    proof {
        assert(cks.take(m as int) == cks);
    }
    PushPlan { upserts, deletes }
}

/// The file above the first separator of `path` at or after position `k` that
/// has one.
pub open spec fn file_above(
    m: Map<Seq<char>, EntryView>,
    path: Seq<char>,
    k: int,
) -> Option<Seq<char>>
    decreases path.len() - k,
{
    if k >= path.len() {
        None
    } else if path[k] == '/' && m.contains_key(path.take(k)) {
        Some(path.take(k))
    } else {
        file_above(m, path, k + 1)
    }
}

/// Why no tree can have the shape of the manifest, for the first path from
/// position `i` on that lies beneath a file.
pub open spec fn shape_error(
    m: Map<Seq<char>, EntryView>,
    paths: Seq<Seq<char>>,
    i: int,
) -> Option<Seq<char>>
    decreases paths.len() - i,
{
    if i >= paths.len() {
        None
    } else {
        match file_above(m, paths[i], 0) {
            Some(ancestor) => Some(
                "manifest contains both file `"@ + ancestor + "` and descendant `"@ + paths[i]
                    + "`"@,
            ),
            None => shape_error(m, paths, i + 1),
        }
    }
}

/// Reject a manifest that claims both a file and a descendant beneath that file
/// (for example `a` and `a/b`). No real filesystem tree can have that shape;
/// accepting it would make sync order determine the resulting state.
pub fn validate_manifest_shape(manifest: &SyncManifest) -> (r: Result<(), String>)
    ensures
        match r {
            Ok(_) => shape_error(tree(*manifest), in_order(tree(*manifest).dom()), 0) is None,
            Err(e) => shape_error(tree(*manifest), in_order(tree(*manifest).dom()), 0) == Some(e@),
        },
{
    let ghost m = tree(*manifest);
    let ghost ks = manifest.keys();
    proof {
        assert(m.dom() =~= manifest@.dom());
    }
    let n = manifest.len();
    let mut i: usize = 0;
    while i < n
        invariant
            i <= n,
            n == ks.len(),
            ks == manifest.keys(),
            m == tree(*manifest),
            ks == in_order(m.dom()),
            shape_error(m, ks, 0) == shape_error(m, ks, i as int),
        decreases n - i,
    {
        let (path, _) = manifest.at(i);
        let chars = text::chars_of(path.as_str());
        let mut k: usize = 0;
        while k < chars.len()
            invariant
                k <= chars.len(),
                i < n == ks.len(),
                chars@ == path@,
                path@ == ks[i as int],
                m == tree(*manifest),
                ks == in_order(m.dom()),
                shape_error(m, ks, 0) == shape_error(m, ks, i as int),
                file_above(m, path@, 0) == file_above(m, path@, k as int),
            decreases chars.len() - k,
        {
            if chars[k] == '/' {
                let ancestor = path.as_str().substring_char(0, k);
                proof {
                    assert(ancestor@ == path@.take(k as int));
                }
                if manifest.get(ancestor).is_some() {
                    return Err(
                        text::cat5(
                            "manifest contains both file `",
                            ancestor,
                            "` and descendant `",
                            path.as_str(),
                            "`",
                        ),
                    );
                }
            }
            k = k + 1;
        }
        i = i + 1;
    }
    Ok(())
}

/// The component names of the cache/scratch tier, which no snapshot holds. That
/// these two are all of them is assumed.
pub open spec fn ignored(name: Seq<char>) -> bool {
    name == "node_modules"@ || name == "target"@
}

/// Whether a path component belongs to the cache/scratch tier.
pub fn is_ignored_component(name: &str) -> (r: bool)
    ensures
        r == ignored(name@),
{
    text::str_eq(name, "node_modules") || text::str_eq(name, "target")
}

/// The first ignored component from position `i` on.
pub open spec fn first_ignored(parts: Seq<Seq<char>>, i: int) -> Option<Seq<char>>
    decreases parts.len() - i,
{
    if i >= parts.len() {
        None
    } else if ignored(parts[i]) {
        Some(parts[i])
    } else {
        first_ignored(parts, i + 1)
    }
}

/// A path as sync carries it.
pub open spec fn syncable(path: Seq<char>) -> Result<Seq<char>, Seq<char>> {
    match normalized(path) {
        Err(e) => Err(e),
        Ok(rel) => {
            let parts = named(text::split(rel, '/'));
            if rel.len() == 0 {
                Err("path `"@ + path + "` names the workspace root, not a file"@)
            } else {
                match first_ignored(parts, 0) {
                    Some(part) => Err(
                        "path `"@ + path + "` is in the cache/scratch tier (`"@ + part
                            + "`), which never syncs"@,
                    ),
                    None => Ok(text::joined(parts, "/"@)),
                }
            }
        },
    }
}

/// Is `path` eligible for state sync? It must normalize to a clean relative file
/// path whose components are all outside the snapshot-ignore set (the
/// cache/scratch tier never travels). Returns the normalized path string.
pub fn syncable_path(path: &str) -> (r: Result<String, String>)
    ensures
        says(r, syncable(path@)),
{
    let rel = match normalize_relative(path) {
        Ok(rel) => rel,
        Err(e) => {
            return Err(e);
        },
    };
    proof {
        reveal_strlit("");
        if rel@.len() == 0 {
            assert(rel@ =~= ""@);
        }
    }
    if text::str_eq(rel.as_str(), "") {
        return Err(text::cat3("path `", path, "` names the workspace root, not a file"));
    }
    let parts = named_components(rel.as_str());
    let ghost ps = parts.deep_view();
    let mut i: usize = 0;
    while i < parts.len()
        invariant
            i <= parts.len(),
            ps == parts.deep_view(),
            normalized(path@) == Ok::<Seq<char>, Seq<char>>(rel@),
            rel@.len() > 0,
            ps == named(text::split(rel@, '/')),
            first_ignored(ps, 0) == first_ignored(ps, i as int),
        decreases parts.len() - i,
    {
        proof {
            assert(ps[i as int] == parts@[i as int]@);
        }
        if is_ignored_component(parts[i].as_str()) {
            return Err(
                text::cat5(
                    "path `",
                    path,
                    "` is in the cache/scratch tier (`",
                    parts[i].as_str(),
                    "`), which never syncs",
                ),
            );
        }
        i = i + 1;
    }
    Ok(text::join(&parts, "/"))
}

/// A tree after the removals and then the writes of a plan.
pub open spec fn applied(
    m: Map<Seq<char>, EntryView>,
    writes: Seq<(Seq<char>, EntryView)>,
    removals: Seq<Seq<char>>,
) -> Map<Seq<char>, EntryView>
    decreases writes.len() + removals.len(),
{
    if writes.len() > 0 {
        applied(m, writes.drop_last(), removals).insert(writes.last().0, writes.last().1)
    } else if removals.len() > 0 {
        applied(m, writes, removals.drop_last()).remove(removals.last())
    } else {
        m
    }
}

proof fn lemma_removals(
    current: Map<Seq<char>, EntryView>,
    target: Map<Seq<char>, EntryView>,
    paths: Seq<Seq<char>>,
)
    ensures
        ({
            let out = applied(current, Seq::empty(), removals(target, paths));
            forall|p: Seq<char>| #[trigger]
                out.contains_key(p) <==> current.contains_key(p) && !(paths.contains(p)
                    && !target.contains_key(p))
        }),
        ({
            let out = applied(current, Seq::empty(), removals(target, paths));
            forall|p: Seq<char>| #[trigger] out.contains_key(p) ==> out[p] == current[p]
        }),
    decreases paths.len(),
{
    if paths.len() > 0 {
        let front = paths.drop_last();
        lemma_removals(current, target, front);
        let rest = removals(target, front);
        assert(rest.push(paths.last()).drop_last() =~= rest);
        let none = Seq::<(Seq<char>, EntryView)>::empty();
        let out = applied(current, none, removals(target, paths));
        assert(out == if target.contains_key(paths.last()) {
            applied(current, none, rest)
        } else {
            applied(current, none, rest).remove(paths.last())
        });
        assert(forall|p: Seq<char>| front.contains(p) ==> paths.contains(p)) by {
            assert forall|p: Seq<char>| front.contains(p) implies paths.contains(p) by {
                let i = front.index_of(p);
                assert(paths[i] == p);
            }
        }
        assert forall|p: Seq<char>| paths.contains(p) implies front.contains(p) || p
            == paths.last() by {
            let i = paths.index_of(p);
            if i < front.len() {
                assert(front[i] == p);
            }
        }
        assert(paths[paths.len() - 1] == paths.last());
        assert(paths.contains(paths.last()));
    }
}

proof fn lemma_writes(
    base: Map<Seq<char>, EntryView>,
    current: Map<Seq<char>, EntryView>,
    target: Map<Seq<char>, EntryView>,
    paths: Seq<Seq<char>>,
    gone: Seq<Seq<char>>,
)
    requires
        base == applied(current, Seq::empty(), gone),
    ensures
        ({
            let out = applied(current, writes(current, target, paths), gone);
            forall|p: Seq<char>| #[trigger]
                out.contains_key(p) <==> base.contains_key(p) || (paths.contains(p) && differs(
                    current,
                    target,
                    p,
                ))
        }),
        ({
            let out = applied(current, writes(current, target, paths), gone);
            forall|p: Seq<char>| #[trigger]
                out.contains_key(p) ==> out[p] == if paths.contains(p) && differs(
                    current,
                    target,
                    p,
                ) {
                    target[p]
                } else {
                    base[p]
                }
        }),
    decreases paths.len(),
{
    if paths.len() > 0 {
        let front = paths.drop_last();
        lemma_writes(base, current, target, front, gone);
        let rest = writes(current, target, front);
        let out = applied(current, writes(current, target, paths), gone);
        assert(rest.push((paths.last(), target[paths.last()])).drop_last() =~= rest);
        assert(out == if differs(current, target, paths.last()) {
            applied(current, rest, gone).insert(paths.last(), target[paths.last()])
        } else {
            applied(current, rest, gone)
        });
        assert forall|p: Seq<char>| front.contains(p) implies paths.contains(p) by {
            let i = front.index_of(p);
            assert(paths[i] == p);
        }
        assert forall|p: Seq<char>| paths.contains(p) implies front.contains(p) || p
            == paths.last() by {
            let i = paths.index_of(p);
            if i < front.len() {
                assert(front[i] == p);
            }
        }
        assert(paths[paths.len() - 1] == paths.last());
        assert(paths.contains(paths.last()));
    } else {
        assert(writes(current, target, paths) =~= Seq::empty());
    }
}

/// A plan does what it is for: carried out on the current tree, it gives the
/// target tree.
pub proof fn law_plan_reaches_the_target(
    current: Map<Seq<char>, EntryView>,
    target: Map<Seq<char>, EntryView>,
)
    requires
        current.dom().finite(),
        target.dom().finite(),
    ensures
        applied(
            current,
            writes(current, target, in_order(target.dom())),
            removals(target, in_order(current.dom())),
        ) == target,
{
    let tks = text::lemma_ascending_exists(target.dom());
    lemma_in_order(tks, target.dom());
    let cks = text::lemma_ascending_exists(current.dom());
    lemma_in_order(cks, current.dom());
    let gone = removals(target, cks);
    let base = applied(current, Seq::empty(), gone);
    lemma_removals(current, target, cks);
    lemma_writes(base, current, target, tks, gone);
    let out = applied(current, writes(current, target, tks), gone);
    assert forall|p: Seq<char>| out.contains_key(p) <==> target.contains_key(p) by {
        assert(tks.to_set().contains(p) == target.dom().contains(p));
        assert(cks.to_set().contains(p) == current.dom().contains(p));
    }
    assert forall|p: Seq<char>| #[trigger] out.contains_key(p) implies out[p] == target[p] by {
        assert(tks.to_set().contains(p) == target.dom().contains(p));
        assert(cks.to_set().contains(p) == current.dom().contains(p));
    }
    assert(out =~= target);
}

/// A tree that is the target already has nothing to transfer.
pub proof fn law_plan_to_itself_is_empty(m: Map<Seq<char>, EntryView>, paths: Seq<Seq<char>>)
    requires
        forall|i: int| 0 <= i < paths.len() ==> m.contains_key(#[trigger] paths[i]),
    ensures
        writes(m, m, paths).len() == 0,
        removals(m, paths).len() == 0,
    decreases paths.len(),
{
    if paths.len() > 0 {
        assert(m.contains_key(paths[paths.len() - 1]));
        law_plan_to_itself_is_empty(m, paths.drop_last());
    }
}

proof fn lemma_file_above(m: Map<Seq<char>, EntryView>, path: Seq<char>, k: int)
    requires
        0 <= k,
    ensures
        file_above(m, path, k) is None <==> forall|j: int|
            k <= j < path.len() && path[j] == '/' ==> !m.contains_key(#[trigger] path.take(j)),
    decreases path.len() - k,
{
    if k < path.len() {
        lemma_file_above(m, path, k + 1);
        assert(path.take(k) == path.take(k));
    }
}

proof fn lemma_shape(m: Map<Seq<char>, EntryView>, paths: Seq<Seq<char>>, i: int)
    requires
        0 <= i,
    ensures
        shape_error(m, paths, i) is None <==> forall|n: int|
            i <= n < paths.len() ==> file_above(m, #[trigger] paths[n], 0) is None,
    decreases paths.len() - i,
{
    if i < paths.len() {
        lemma_shape(m, paths, i + 1);
    }
}

/// A manifest's shape is accepted exactly if no path in it lies beneath another
/// path in it.
pub proof fn law_shape_is_valid_iff_no_file_has_descendants(m: Map<Seq<char>, EntryView>)
    requires
        m.dom().finite(),
    ensures
        shape_error(m, in_order(m.dom()), 0) is None <==> forall|p: Seq<char>, j: int|
            #![trigger p.take(j)]
            m.contains_key(p) && 0 <= j < p.len() && p[j] == '/' ==> !m.contains_key(p.take(j)),
{
    let ks = text::lemma_ascending_exists(m.dom());
    lemma_in_order(ks, m.dom());
    lemma_shape(m, ks, 0);
    if shape_error(m, ks, 0) is None {
        assert forall|p: Seq<char>, j: int|
            #![trigger p.take(j)]
            m.contains_key(p) && 0 <= j < p.len() && p[j] == '/' implies !m.contains_key(
            p.take(j),
        ) by {
            assert(ks.to_set().contains(p));
            let n = ks.index_of(p);
            assert(file_above(m, ks[n], 0) is None);
            lemma_file_above(m, p, 0);
        }
    }
    if forall|p: Seq<char>, j: int|
        #![trigger p.take(j)]
        m.contains_key(p) && 0 <= j < p.len() && p[j] == '/' ==> !m.contains_key(p.take(j)) {
        assert forall|n: int| 0 <= n < ks.len() implies file_above(m, #[trigger] ks[n], 0) is None by {
            assert(ks.to_set().contains(ks[n]));
            lemma_file_above(m, ks[n], 0);
        }
    }
}

/// A plan transfers nothing that is there already: a path is written exactly if it is
/// missing or its blob or mode is another, and removed exactly if the target lacks it.
pub proof fn law_plans_transfer_only_what_differs(
    current: Map<Seq<char>, EntryView>,
    target: Map<Seq<char>, EntryView>,
    paths: Seq<Seq<char>>,
    path: Seq<char>,
)
    ensures
        writes(current, target, Seq::empty()).len() == 0,
        removals(target, Seq::empty()).len() == 0,
        current.contains_key(path) && current[path].blob == target[path].blob && current[path].mode
            == target[path].mode ==> writes(current, target, paths.push(path)) == writes(
            current,
            target,
            paths,
        ),
        !current.contains_key(path) || current[path].blob != target[path].blob
            || current[path].mode != target[path].mode ==> writes(
            current,
            target,
            paths.push(path),
        ) == writes(current, target, paths).push((path, target[path])),
        target.contains_key(path) ==> removals(target, paths.push(path)) == removals(target, paths),
        !target.contains_key(path) ==> removals(target, paths.push(path)) == removals(
            target,
            paths,
        ).push(path),
{
    assert(paths.push(path).drop_last() =~= paths);
}

/// The file in the way is the one highest up: the path up to its first slash under
/// which the manifest has a file.
pub proof fn law_highest_file_is_in_the_way(
    m: Map<Seq<char>, EntryView>,
    path: Seq<char>,
    k: int,
)
    requires
        0 <= k,
    ensures
        file_above(m, path, k) matches Some(a) ==> exists|j: int|
            k <= j < path.len() && path[j] == '/' && a == #[trigger] path.take(j)
                && m.contains_key(a) && forall|i: int|
                k <= i < j && path[i] == '/' ==> !m.contains_key(#[trigger] path.take(i)),
    decreases path.len() - k,
{
    if k < path.len() {
        if path[k] == '/' && m.contains_key(path.take(k)) {
            assert(path.take(k) == path.take(k));
        } else {
            law_highest_file_is_in_the_way(m, path, k + 1);
        }
    }
}

proof fn lemma_first_ignored(parts: Seq<Seq<char>>, i: int)
    requires
        0 <= i,
    ensures
        first_ignored(parts, i) is None <==> forall|j: int|
            i <= j < parts.len() ==> #[trigger] parts[j] != "node_modules"@ && parts[j]
                != "target"@,
    decreases parts.len() - i,
{
    if i < parts.len() {
        lemma_first_ignored(parts, i + 1);
    }
}

/// A path is carried exactly if the workspace takes it, it names more than the root,
/// and no component of it belongs to the cache or scratch tier.
pub proof fn law_caches_are_not_carried(path: Seq<char>)
    ensures
        syncable(path) is Ok <==> (normalized(path) matches Ok(rel) && rel.len() > 0 && forall|
            j: int,
        |
            0 <= j < named(text::split(rel, '/')).len() ==> #[trigger] named(
                text::split(rel, '/'),
            )[j] != "node_modules"@ && named(text::split(rel, '/'))[j] != "target"@),
        syncable(path) matches Ok(p) ==> normalized(path) matches Ok(rel) && p == text::joined(
            named(text::split(rel, '/')),
            "/"@,
        ),
{
    if normalized(path) is Ok {
        lemma_first_ignored(named(text::split(normalized(path)->Ok_0, '/')), 0);
    }
}

} // verus!
