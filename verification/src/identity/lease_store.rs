//! The [`LeaseStore`]: capability leases with cascading revocation.
use vstd::prelude::*;
use crate::capability::{CapabilityLease, LeaseView};
use crate::identity::error::{IdentityError, IdentityResult};
use crate::ids::{LeaseId, PrincipalId};
use crate::sorted::{Sorted, in_order};
use crate::text;
use crate::time::Timestamp;

verus! {

/// Storage for [`CapabilityLease`] rows.
///
/// The store enforces two lifecycle rules the lease type cannot:
///
/// 1. Cascading revocation: because attenuated leases record their
///    `parent_lease`, revoking a lease transitively revokes everything derived
///    from it. Authority handed to a sub-agent dies with the grant it came from.
/// 2. Consume-a-use: [`LeaseStore::consume_use`] decrements `remaining_uses` and
///    refuses revoked, expired or exhausted leases.
pub struct LeaseStore {
    rows: Sorted<CapabilityLease>,
}

spec fn lease_views(m: Map<Seq<char>, CapabilityLease>) -> Map<Seq<char>, LeaseView> {
    m.map_values(|l: CapabilityLease| l@)
}

impl LeaseView {
    /// The lease, revoked.
    pub open spec fn dead(self) -> LeaseView {
        LeaseView { revoked: true, ..self }
    }

    /// The lease after one use.
    pub open spec fn used(self) -> LeaseView {
        LeaseView { remaining_uses: (self.remaining_uses - 1) as u32, ..self }
    }

    /// The lease has run out at `now` and nobody has revoked it.
    pub open spec fn due(self, now: Timestamp) -> bool {
        !self.revoked && !now.before(self.expires_at)
    }
}

/// `id` is `root`, or was attenuated from it over at most `n` leases.
pub open spec fn derived_within(
    m: Map<Seq<char>, LeaseView>,
    root: Seq<char>,
    id: Seq<char>,
    n: nat,
) -> bool
    decreases n,
{
    id == root || (n > 0 && m.contains_key(id) && m[id].parent_lease is Some && derived_within(
        m,
        root,
        m[id].parent_lease->0,
        (n - 1) as nat,
    ))
}

/// `id` is `root`, or was transitively attenuated from it.
pub open spec fn derived(m: Map<Seq<char>, LeaseView>, root: Seq<char>, id: Seq<char>) -> bool {
    exists|n: nat| #[trigger] derived_within(m, root, id, n)
}

/// The leases after `root` and everything derived from it was revoked.
pub open spec fn revoked_under(m: Map<Seq<char>, LeaseView>, root: Seq<char>) -> Map<
    Seq<char>,
    LeaseView,
> {
    Map::new(
        |k: Seq<char>| m.contains_key(k),
        |k: Seq<char>|
            if derived(m, root, k) {
                m[k].dead()
            } else {
                m[k]
            },
    )
}

/// The leases after the expired ones were swept.
pub open spec fn swept(m: Map<Seq<char>, LeaseView>, now: Timestamp) -> Map<Seq<char>, LeaseView> {
    Map::new(
        |k: Seq<char>| m.contains_key(k),
        |k: Seq<char>|
            if m[k].due(now) {
                m[k].dead()
            } else {
                m[k]
            },
    )
}

/// The listed leases that a principal holds.
pub open spec fn held(m: Map<Seq<char>, LeaseView>, ids: Seq<Seq<char>>, principal: Seq<char>) -> Seq<
    LeaseView,
>
    decreases ids.len(),
{
    if ids.len() == 0 {
        Seq::empty()
    } else {
        let rest = held(m, ids.drop_last(), principal);
        if m[ids.last()].principal == principal {
            rest.push(m[ids.last()])
        } else {
            rest
        }
    }
}

/// Those of the leases that can still be used at `now`.
pub open spec fn active_among(leases: Seq<LeaseView>, now: Timestamp) -> Seq<LeaseView>
    decreases leases.len(),
{
    if leases.len() == 0 {
        Seq::empty()
    } else {
        let rest = active_among(leases.drop_last(), now);
        if leases.last().active(now) {
            rest.push(leases.last())
        } else {
            rest
        }
    }
}

/// Those of the listed leases that sweeping revokes.
pub open spec fn due_among(m: Map<Seq<char>, LeaseView>, ids: Seq<Seq<char>>, now: Timestamp) -> Seq<
    Seq<char>,
>
    decreases ids.len(),
{
    if ids.len() == 0 {
        Seq::empty()
    } else {
        let rest = due_among(m, ids.drop_last(), now);
        if m[ids.last()].due(now) {
            rest.push(ids.last())
        } else {
            rest
        }
    }
}

/// Why a lease cannot be used at `now`; `None` when it can.
pub open spec fn unusable(l: LeaseView, now: Timestamp) -> Option<Seq<char>> {
    if l.revoked {
        Some("revoked"@)
    } else if !now.before(l.expires_at) {
        Some("expired"@)
    } else if l.remaining_uses == 0 {
        Some("exhausted"@)
    } else {
        None
    }
}

/// The error for a lease that is not stored.
pub open spec fn unknown_lease(e: IdentityError, id: Seq<char>) -> bool {
    e matches IdentityError::UnknownLease(got) && got@ == id
}

/// The leases with the listed ones revoked.
spec fn marked(m: Map<Seq<char>, LeaseView>, ids: Seq<Seq<char>>) -> Map<Seq<char>, LeaseView> {
    Map::new(
        |k: Seq<char>| m.contains_key(k),
        |k: Seq<char>|
            if ids.contains(k) {
                m[k].dead()
            } else {
                m[k]
            },
    )
}

proof fn lemma_no_more_than(ids: Seq<Seq<char>>, s: Set<Seq<char>>)
    requires
        ids.no_duplicates(),
        s.finite(),
        forall|i: int| 0 <= i < ids.len() ==> s.contains(#[trigger] ids[i]),
    ensures
        ids.len() <= s.len(),
{
    ids.unique_seq_to_set();
    assert forall|x: Seq<char>| ids.to_set().contains(x) implies s.contains(x) by {
        let i = ids.index_of(x);
        assert(s.contains(ids[i]));
    }
    vstd::set_lib::lemma_len_subset(ids.to_set(), s);
}

proof fn lemma_derived_are_reached(
    m: Map<Seq<char>, LeaseView>,
    root: Seq<char>,
    reached: Seq<Seq<char>>,
    id: Seq<char>,
    n: nat,
)
    requires
        reached.contains(root),
        forall|x: Seq<char>| #[trigger]
            m.contains_key(x) && m[x].parent_lease is Some && reached.contains(
                m[x].parent_lease->0,
            ) ==> reached.contains(x),
        derived_within(m, root, id, n),
    ensures
        reached.contains(id),
    decreases n,
{
    if id != root {
        lemma_derived_are_reached(m, root, reached, m[id].parent_lease->0, (n - 1) as nat);
    }
}

/// Two leases that are derived from each other are the same: no chain of parents
/// leads back to where it began.
pub open spec fn acyclic(m: Map<Seq<char>, LeaseView>) -> bool {
    forall|a: Seq<char>, b: Seq<char>| #[trigger]
        derived(m, a, b) && #[trigger] derived(m, b, a) ==> a == b
}

/// No lease stands before one that it was derived from.
pub open spec fn ancestors_first(m: Map<Seq<char>, LeaseView>, ids: Seq<Seq<char>>) -> bool {
    forall|i: int, j: int|
        0 <= i < j < ids.len() ==> !derived(m, #[trigger] ids[j], #[trigger] ids[i])
}

/// The root comes first, and every other lease behind its parent.
spec fn parents_first(m: Map<Seq<char>, LeaseView>, root: Seq<char>, r: Seq<Seq<char>>) -> bool {
    &&& r.len() > 0
    &&& r[0] == root
    &&& behind_parents(m, r)
}

spec fn behind_parents(m: Map<Seq<char>, LeaseView>, r: Seq<Seq<char>>) -> bool {
    forall|k: int| 0 < k < r.len() ==> m[#[trigger] r[k]].parent_lease is Some && r.take(k).contains(
        m[r[k]].parent_lease->0,
    )
}

/// A walk in progress: what was visited and what waits are leases derived from
/// the root, each once; the root comes first, and what was visited, and what
/// waits, comes behind its parent.
spec fn found(
    m: Map<Seq<char>, LeaseView>,
    root: Seq<char>,
    r: Seq<Seq<char>>,
    f: Seq<Seq<char>>,
) -> bool {
    &&& (r + f).no_duplicates()
    &&& forall|k: int|
        0 <= k < (r + f).len() ==> m.contains_key(#[trigger] (r + f)[k]) && derived(
            m,
            root,
            (r + f)[k],
        )
    &&& if r.len() == 0 {
        f == seq![root]
    } else {
        &&& r[0] == root
        &&& behind_parents(m, r)
        &&& forall|k: int|
            0 <= k < f.len() ==> m[#[trigger] f[k]].parent_lease is Some && r.contains(
                m[f[k]].parent_lease->0,
            )
    }
}

/// The children of the visited leases are all there.
spec fn closed_over(m: Map<Seq<char>, LeaseView>, r: Seq<Seq<char>>, all: Seq<Seq<char>>) -> bool {
    forall|x: Seq<char>| #[trigger]
        m.contains_key(x) && m[x].parent_lease is Some && r.contains(m[x].parent_lease->0)
            ==> all.contains(x)
}

proof fn lemma_pushed(s: Seq<Seq<char>>, a: Seq<char>, x: Seq<char>)
    ensures
        s.push(a).contains(x) == (s.contains(x) || x == a),
{
    let t = s.push(a);
    if s.contains(x) {
        assert(t[s.index_of(x)] == x);
    }
    assert(t[s.len() as int] == a);
    if t.contains(x) && x != a {
        assert(s[t.index_of(x)] == x);
    }
}

proof fn lemma_either(r: Seq<Seq<char>>, f: Seq<Seq<char>>, x: Seq<char>)
    ensures
        (r + f).contains(x) == (r.contains(x) || f.contains(x)),
{
    let all = r + f;
    if r.contains(x) {
        assert(all[r.index_of(x)] == x);
    }
    if f.contains(x) {
        assert(all[r.len() + f.index_of(x)] == x);
    }
    if all.contains(x) {
        let k = all.index_of(x);
        if k < r.len() {
            assert(r[k] == x);
        } else {
            assert(f[k - r.len()] == x);
        }
    }
}

/// Visiting the last of the waiting leases.
proof fn lemma_moved(
    m: Map<Seq<char>, LeaseView>,
    root: Seq<char>,
    r: Seq<Seq<char>>,
    f: Seq<Seq<char>>,
)
    requires
        found(m, root, r, f),
        f.len() > 0,
        closed_over(m, r, r + f),
    ensures
        found(m, root, r.push(f.last()), f.drop_last()),
        closed_over(m, r, r.push(f.last()) + f.drop_last()),
{
    let cur = f.last();
    let r1 = r.push(cur);
    let f1 = f.drop_last();
    let all = r + f;
    let all1 = r1 + f1;
    let n = r.len() as int;
    assert(all[all.len() - 1] == cur);
    assert forall|k: int| 0 <= k < all1.len() implies #[trigger] all1[k] == if k < n {
        all[k]
    } else if k == n {
        cur
    } else {
        all[k - 1]
    } by {}
    assert forall|a: int, b: int| 0 <= a < all1.len() && 0 <= b < all1.len() && a != b implies all1[a]
        != all1[b] by {
        let pa = if a < n { a } else if a == n { all.len() - 1 } else { a - 1 };
        let pb = if b < n { b } else if b == n { all.len() - 1 } else { b - 1 };
        assert(all1[a] == all[pa] && all1[b] == all[pb] && pa != pb);
    }
    assert forall|k: int| 0 <= k < all1.len() implies m.contains_key(#[trigger] all1[k]) && derived(
        m,
        root,
        all1[k],
    ) by {
        let p = if k < n { k } else if k == n { all.len() - 1 } else { k - 1 };
        assert(m.contains_key(all[p]));
    }
    assert(r1[0] == root);
    assert forall|k: int| 0 < k < r1.len() implies m[#[trigger] r1[k]].parent_lease is Some && r1.take(
        k,
    ).contains(m[r1[k]].parent_lease->0) by {
        assert(r1.take(k) =~= r.take(k));
        if k == n {
            assert(r.take(k) =~= r);
            assert(f[f.len() - 1] == cur);
        } else {
            assert(r1[k] == r[k]);
        }
    }
    assert forall|k: int| 0 <= k < f1.len() implies m[#[trigger] f1[k]].parent_lease is Some
        && r1.contains(m[f1[k]].parent_lease->0) by {
        assert(f1[k] == f[k]);
        lemma_pushed(r, cur, m[f[k]].parent_lease->0);
    }
    assert forall|x: Seq<char>| all.contains(x) implies all1.contains(x) by {
        lemma_either(r, f, x);
        lemma_either(r1, f1, x);
        lemma_pushed(r, cur, x);
        lemma_pushed(f1, cur, x);
        assert(f =~= f1.push(cur));
    }
}

/// A child of a visited lease that was not found yet joins those that wait.
proof fn lemma_added(
    m: Map<Seq<char>, LeaseView>,
    root: Seq<char>,
    r: Seq<Seq<char>>,
    f: Seq<Seq<char>>,
    x: Seq<char>,
)
    requires
        found(m, root, r, f),
        r.len() > 0,
        m.contains_key(x),
        m[x].parent_lease == Some(r.last()),
        !r.contains(x),
        !f.contains(x),
    ensures
        found(m, root, r, f.push(x)),
{
    let all = r + f;
    let all1 = r + f.push(x);
    assert(all1 =~= all.push(x));
    lemma_either(r, f, x);
    assert(all[r.len() - 1] == r.last());
    let k0 = choose|k0: nat| #[trigger] derived_within(m, root, r.last(), k0);
    assert(derived_within(m, root, x, k0 + 1));
    assert forall|a: int, b: int| 0 <= a < all1.len() && 0 <= b < all1.len() && a != b implies all1[a]
        != all1[b] by {
        if a == all.len() {
            assert(all[b] == all1[b]);
        } else if b == all.len() {
            assert(all[a] == all1[a]);
        } else {
            assert(all[a] == all1[a] && all[b] == all1[b]);
        }
    }
    assert forall|k: int| 0 <= k < all1.len() implies m.contains_key(#[trigger] all1[k]) && derived(
        m,
        root,
        all1[k],
    ) by {
        if k < all.len() {
            assert(all1[k] == all[k]);
        }
    }
    assert forall|k: int| 0 <= k < f.push(x).len() implies m[#[trigger] f.push(x)[k]].parent_lease is Some
        && r.contains(m[f.push(x)[k]].parent_lease->0) by {
        if k < f.len() {
            assert(f.push(x)[k] == f[k]);
        }
    }
}

/// Where every lease stands behind its parent, none stands before what it was
/// derived from.
proof fn lemma_ancestors_first(
    m: Map<Seq<char>, LeaseView>,
    root: Seq<char>,
    r: Seq<Seq<char>>,
    i: int,
    j: int,
    n: nat,
)
    requires
        acyclic(m),
        r.no_duplicates(),
        parents_first(m, root, r),
        0 <= i < j < r.len(),
        derived(m, root, r[j]),
    ensures
        !derived_within(m, r[j], r[i], n),
    decreases n,
{
    if i == 0 {
        if derived_within(m, r[j], r[i], n) {
            assert(derived(m, r[j], root));
        }
    } else if n > 0 {
        let p = r.take(i).index_of(m[r[i]].parent_lease->0);
        assert(r.take(i)[p] == r[p]);
        lemma_ancestors_first(m, root, r, p, j, (n - 1) as nat);
    }
}

fn listed(ids: &Vec<String>, id: &str) -> (r: bool)
    ensures
        r == ids.deep_view().contains(id@),
{
    let mut i: usize = 0;
    while i < ids.len()
        invariant
            i <= ids.len(),
            forall|j: int| 0 <= j < i ==> #[trigger] ids.deep_view()[j] != id@,
        decreases ids.len() - i,
    {
        proof {
            assert(ids.deep_view()[i as int] == ids@[i as int]@);
        }
        if text::str_eq(ids[i].as_str(), id) {
            return true;
        }
        i = i + 1;
    }
    false
}

impl LeaseStore {
    /// The leases by identifier.
    pub closed spec fn view(&self) -> Map<Seq<char>, LeaseView> {
        lease_views(self.rows@)
    }

    /// Rows stand under their identifiers.
    pub open spec fn wf(&self) -> bool {
        forall|id: Seq<char>| #[trigger] self@.contains_key(id) ==> self@[id].id == id
    }

    /// An empty store.
    pub fn new() -> (r: Self)
        ensures
            r@ == Map::<Seq<char>, LeaseView>::empty(),
            r.wf(),
    {
        let r = LeaseStore { rows: Sorted::new() };
        proof {
            assert(r@ =~= Map::<Seq<char>, LeaseView>::empty());
        }
        r
    }

    fn put(&mut self, lease: CapabilityLease)
        ensures
            final(self)@ == old(self)@.insert(lease@.id, lease@),
    {
        let ghost before = self.rows@;
        let ghost l0 = lease;
        let key = lease.id.as_str().to_owned();
        self.rows.insert(key, lease);
        proof {
            assert(lease_views(before.insert(l0@.id, l0)) =~= lease_views(before).insert(
                l0@.id,
                l0@,
            ));
        }
    }

    /// Persist a newly issued (or attenuated) lease. One with the same id is
    /// replaced.
    pub fn issue(&mut self, lease: &CapabilityLease)
        ensures
            final(self)@ == old(self)@.insert(lease@.id, lease@),
            old(self).wf() ==> final(self).wf(),
    {
        self.put(lease.clone());
    }

    /// Fetch a lease by id.
    pub fn get(&self, id: &LeaseId) -> (r: IdentityResult<CapabilityLease>)
        ensures
            match r {
                Ok(l) => self@.contains_key(id@) && l@ == self@[id@],
                Err(e) => !self@.contains_key(id@) && unknown_lease(e, id@),
            },
    {
        match self.rows.get(id.as_str()) {
            Some(l) => Ok(l.clone()),
            None => Err(IdentityError::UnknownLease(id.as_str().to_owned())),
        }
    }

    /// All leases (including revoked/expired ones) held by a principal, ordered
    /// by id.
    pub fn list_for_principal(&self, id: &PrincipalId) -> (out: Vec<CapabilityLease>)
        ensures
            out.deep_view() == held(self@, in_order(self@.dom()), id@),
    {
        let ghost m = self@;
        let ghost ks = self.rows.keys();
        let n = self.rows.len();
        let mut out: Vec<CapabilityLease> = Vec::new();
        let mut i: usize = 0;
        proof {
            assert(m.dom() =~= self.rows@.dom());
            assert(ks.take(0) =~= Seq::<Seq<char>>::empty());
            assert(out.deep_view() =~= Seq::<LeaseView>::empty());
        }
        while i < n
            invariant
                i <= n,
                n == ks.len(),
                ks == self.rows.keys(),
                m == lease_views(self.rows@),
                out.deep_view() == held(m, ks.take(i as int), id@),
            decreases n - i,
        {
            let (_, l) = self.rows.at(i);
            let ghost next = ks.take(i + 1);
            let ghost before = out.deep_view();
            proof {
                assert(next.drop_last() == ks.take(i as int));
                assert(next.last() == ks[i as int]);
            }
            if text::str_eq(l.principal.as_str(), id.as_str()) {
                out.push(l.clone());
                proof {
                    assert(out.deep_view() =~= before.push(l@));
                }
            }
            i = i + 1;
        }
        proof {
            assert(ks.take(n as int) == ks);
        }
        out
    }

    /// Leases a principal can still present at time `now`: not revoked, not
    /// expired, with at least one use remaining.
    pub fn active_for_principal(&self, id: &PrincipalId, now: Timestamp) -> (out: Vec<
        CapabilityLease,
    >)
        ensures
            out.deep_view() == active_among(held(self@, in_order(self@.dom()), id@), now),
    {
        let all = self.list_for_principal(id);
        let ghost av = all.deep_view();
        let mut out: Vec<CapabilityLease> = Vec::new();
        let mut i: usize = 0;
        proof {
            assert(av.take(0) =~= Seq::<LeaseView>::empty());
            assert(out.deep_view() =~= Seq::<LeaseView>::empty());
        }
        while i < all.len()
            invariant
                i <= all.len(),
                av == all.deep_view(),
                out.deep_view() == active_among(av.take(i as int), now),
            decreases all.len() - i,
        {
            let l = &all[i];
            let ghost next = av.take(i + 1);
            let ghost before = out.deep_view();
            proof {
                assert(next.drop_last() == av.take(i as int));
                assert(next.last() == l@);
            }
            if !l.revoked && now.is_before(&l.expires_at) && l.remaining_uses > 0 {
                out.push(l.clone());
                proof {
                    assert(out.deep_view() =~= before.push(l@));
                }
            }
            i = i + 1;
        }
        proof {
            assert(av.take(all.len() as int) == av);
        }
        out
    }

    /// The lease and everything transitively attenuated from it, the lease first
    /// and every other behind its parent. The walk goes into depth.
    fn cascade(&self, id: &LeaseId) -> (reached: Vec<String>)
        requires
            self.wf(),
            self@.contains_key(id@),
        ensures
            reached.deep_view().no_duplicates(),
            parents_first(self@, id@, reached.deep_view()),
            forall|x: Seq<char>| #[trigger]
                reached.deep_view().contains(x) <==> self@.contains_key(x) && derived(
                    self@,
                    id@,
                    x,
                ),
    {
        let ghost m = self@;
        let n = self.rows.len();
        let mut reached: Vec<String> = Vec::new();
        let mut frontier: Vec<String> = Vec::new();
        frontier.push(id.as_str().to_owned());
        proof {
            assert(m.dom() =~= self.rows@.dom());
            assert(reached.deep_view() =~= Seq::<Seq<char>>::empty());
            assert(frontier.deep_view() =~= seq![id@]);
            assert(derived_within(m, id@, id@, 0));
            assert(found(m, id@, reached.deep_view(), frontier.deep_view()));
        }
        while frontier.len() > 0
            invariant
                m == lease_views(self.rows@),
                m.contains_key(id@),
                m.dom().finite(),
                m.dom() == self.rows@.dom(),
                n == self.rows.keys().len(),
                self.rows.keyed(),
                found(m, id@, reached.deep_view(), frontier.deep_view()),
                closed_over(m, reached.deep_view(), reached.deep_view() + frontier.deep_view()),
            decreases m.dom().len() - reached.len(),
        {
            let ghost r0 = reached.deep_view();
            let ghost f0 = frontier.deep_view();
            let ghost cur = f0.last();
            let current = frontier.remove(frontier.len() - 1);
            proof {
                lemma_no_more_than(r0 + f0, m.dom());
                assert(frontier.deep_view() =~= f0.drop_last());
                assert(current@ == cur);
            }
            reached.push(current.clone());
            proof {
                assert(reached.deep_view() =~= r0.push(cur));
                lemma_moved(m, id@, r0, f0);
            }
            let mut j: usize = 0;
            while j < n
                invariant
                    j <= n,
                    current@ == cur,
                    reached.deep_view() == r0.push(cur),
                    m == lease_views(self.rows@),
                    m.contains_key(id@),
                    m.dom() == self.rows@.dom(),
                    n == self.rows.keys().len(),
                    self.rows.keyed(),
                    found(m, id@, reached.deep_view(), frontier.deep_view()),
                    closed_over(m, r0, reached.deep_view() + frontier.deep_view()),
                    forall|k: int|
                        0 <= k < j && m[#[trigger] self.rows.keys()[k]].parent_lease == Some(cur)
                            ==> (reached.deep_view() + frontier.deep_view()).contains(
                            self.rows.keys()[k],
                        ),
                decreases n - j,
            {
                let (key, l) = self.rows.at(j);
                let child = match &l.parent_lease {
                    Some(p) => text::str_eq(p.as_str(), current.as_str()),
                    None => false,
                };
                let ghost r = reached.deep_view();
                let ghost before = frontier.deep_view();
                proof {
                    assert(m[key@] == l@);
                    assert(child == (m[key@].parent_lease == Some(cur)));
                }
                if child {
                    if listed(&reached, key.as_str()) || listed(&frontier, key.as_str()) {
                        proof {
                            lemma_either(r, before, key@);
                        }
                    } else {
                        frontier.push(key.clone());
                        proof {
                            assert(frontier.deep_view() =~= before.push(key@));
                            assert(r.last() == cur);
                            lemma_added(m, id@, r, before, key@);
                            assert forall|x: Seq<char>| (r + before).contains(x) implies (r
                                + before.push(key@)).contains(x) by {
                                lemma_either(r, before, x);
                                lemma_either(r, before.push(key@), x);
                                lemma_pushed(before, key@, x);
                            }
                            lemma_either(r, before.push(key@), key@);
                            lemma_pushed(before, key@, key@);
                        }
                    }
                }
                j = j + 1;
            }
            proof {
                let all = reached.deep_view() + frontier.deep_view();
                assert forall|x: Seq<char>| #[trigger]
                    m.contains_key(x) && m[x].parent_lease is Some && r0.push(cur).contains(
                        m[x].parent_lease->0,
                    ) implies all.contains(x) by {
                    lemma_pushed(r0, cur, m[x].parent_lease->0);
                    if m[x].parent_lease->0 == cur {
                        assert(self.rows.keys().to_set().contains(x));
                        let p = self.rows.keys().index_of(x);
                        assert(self.rows.keys()[p] == x);
                    }
                }
            }
        }
        proof {
            let r = reached.deep_view();
            assert(r + frontier.deep_view() =~= r);
            assert forall|x: Seq<char>| #[trigger] r.contains(x) <==> m.contains_key(x) && derived(
                m,
                id@,
                x,
            ) by {
                if r.contains(x) {
                    let k = r.index_of(x);
                    assert((r + frontier.deep_view())[k] == x);
                }
                if m.contains_key(x) && derived(m, id@, x) {
                    let n0 = choose|n0: nat| #[trigger] derived_within(m, id@, x, n0);
                    assert(r[0] == id@);
                    lemma_derived_are_reached(m, id@, r, x, n0);
                }
            }
        }
        reached
    }

    /// Revoke a lease and every lease transitively attenuated from it. Returns
    /// the ids of all leases that were newly revoked, root first and every lease
    /// before those derived from it.
    pub fn revoke_cascading(&mut self, id: &LeaseId) -> (r: IdentityResult<Vec<LeaseId>>)
        requires
            old(self).wf(),
        ensures
            final(self).wf(),
            match r {
                Ok(ids) => {
                    &&& old(self)@.contains_key(id@)
                    &&& final(self)@ == revoked_under(old(self)@, id@)
                    &&& ids.deep_view().no_duplicates()
                    &&& forall|x: Seq<char>| #[trigger]
                        ids.deep_view().contains(x) <==> old(self)@.contains_key(x) && derived(
                            old(self)@,
                            id@,
                            x,
                        ) && !old(self)@[x].revoked
                    &&& !old(self)@[id@].revoked ==> ids.deep_view().len() > 0
                        && ids.deep_view()[0] == id@
                    &&& acyclic(old(self)@) ==> ancestors_first(old(self)@, ids.deep_view())
                },
                Err(e) => {
                    &&& !old(self)@.contains_key(id@)
                    &&& unknown_lease(e, id@)
                    &&& final(self)@ == old(self)@
                },
            },
    {
        let ghost m = self@;
        if self.rows.get(id.as_str()).is_none() {
            return Err(IdentityError::UnknownLease(id.as_str().to_owned()));
        }
        let reached = self.cascade(id);
        let ghost rs = reached.deep_view();
        let mut out: Vec<LeaseId> = Vec::new();
        let mut i: usize = 0;
        proof {
            assert(out.deep_view() =~= Seq::<Seq<char>>::empty());
            assert(rs.take(0) =~= Seq::<Seq<char>>::empty());
            assert(marked(m, rs.take(0)) =~= m);
        }
        while i < reached.len()
            invariant
                i <= reached.len(),
                rs == reached.deep_view(),
                rs.no_duplicates(),
                parents_first(m, id@, rs),
                forall|x: Seq<char>| #[trigger] m.contains_key(x) ==> m[x].id == x,
                forall|x: Seq<char>| #[trigger]
                    rs.contains(x) <==> m.contains_key(x) && derived(m, id@, x),
                self@ == marked(m, rs.take(i as int)),
                out.deep_view().no_duplicates(),
                forall|x: Seq<char>| #[trigger]
                    out.deep_view().contains(x) <==> rs.take(i as int).contains(x) && !m[x].revoked,
                i > 0 && !m[id@].revoked ==> out.deep_view().len() > 0 && out.deep_view()[0] == id@,
                forall|a: int, b: int|
                    0 <= a < b < out.deep_view().len() ==> rs.index_of(
                        #[trigger] out.deep_view()[a],
                    ) < rs.index_of(#[trigger] out.deep_view()[b]),
            decreases reached.len() - i,
        {
            let ghost k = rs[i as int];
            let ghost done = rs.take(i as int);
            let ghost next = rs.take(i + 1);
            let ghost before = out.deep_view();
            let ghost now_rows = self@;
            proof {
                assert(rs.contains(k));
                assert(m.contains_key(k));
                assert(next =~= done.push(k));
                assert(!done.contains(k)) by {
                    if done.contains(k) {
                        let p = done.index_of(k);
                        assert(rs[p] == rs[i as int]);
                    }
                }
                assert forall|x: Seq<char>| next.contains(x) <==> done.contains(x) || x == k by {
                    if done.contains(x) {
                        let p = done.index_of(x);
                        assert(next[p] == x);
                    }
                    assert(next[i as int] == k);
                    if next.contains(x) && x != k {
                        let p = next.index_of(x);
                        assert(done[p] == x);
                    }
                }
                assert(now_rows.contains_key(k) && now_rows[k] == m[k]);
                assert(self.rows@.contains_key(k));
            }
            let stored = match self.rows.get(reached[i].as_str()) {
                Some(l) => Some(l.clone()),
                None => None,
            };
            if let Some(mut l) = stored {
                proof {
                    assert(l@ == m[k]);
                }
                if !l.revoked {
                    l.revoked = true;
                    proof {
                        assert(l@ =~= m[k].dead());
                    }
                    self.put(l);
                    out.push(LeaseId(reached[i].clone()));
                    proof {
                        assert(self@ =~= marked(m, next));
                        let after = out.deep_view();
                        assert(after =~= before.push(k));
                        assert forall|x: Seq<char>| after.contains(x) <==> before.contains(x) || x
                            == k by {
                            if before.contains(x) {
                                let p = before.index_of(x);
                                assert(after[p] == x);
                            }
                            assert(after[before.len() as int] == k);
                            if after.contains(x) && x != k {
                                let p = after.index_of(x);
                                assert(before[p] == x);
                            }
                        }
                        assert(!before.contains(k));
                        assert(rs.index_of(k) == i);
                        assert forall|a: int, b: int| 0 <= a < b < after.len() implies rs.index_of(
                            #[trigger] after[a],
                        ) < rs.index_of(#[trigger] after[b]) by {
                            assert(after[a] == before[a]);
                            if b < before.len() {
                                assert(after[b] == before[b]);
                            } else {
                                assert(before.contains(before[a]));
                                let p = done.index_of(before[a]);
                                assert(rs[p] == before[a]);
                                let q = rs.index_of(before[a]);
                                assert(rs.contains(before[a]));
                                assert(rs[q] == before[a]);
                                assert(p == q);
                            }
                        }
                        if i == 0 && before.len() > 0 {
                            assert(before.contains(before[0]));
                            assert(done.contains(before[0]));
                        }
                        if before.len() > 0 {
                            assert(after[0] == before[0]);
                        }
                    }
                } else {
                    proof {
                        assert(m[k].dead() =~= m[k]);
                        assert(self@ =~= marked(m, next));
                    }
                }
            }
            i = i + 1;
        }
        proof {
            assert(rs.take(reached.len() as int) =~= rs);
            assert(self@ =~= revoked_under(m, id@)) by {
                assert forall|x: Seq<char>| #[trigger] m.contains_key(x) implies rs.contains(x)
                    == derived(m, id@, x) by {}
            }
            let ids = out.deep_view();
            if acyclic(m) {
                assert forall|a: int, b: int| 0 <= a < b < ids.len() implies !derived(
                    m,
                    #[trigger] ids[b],
                    #[trigger] ids[a],
                ) by {
                    assert(ids.contains(ids[a]) && ids.contains(ids[b]));
                    let p = rs.index_of(ids[a]);
                    let q = rs.index_of(ids[b]);
                    assert(rs.contains(ids[a]) && rs.contains(ids[b]));
                    assert(rs[p] == ids[a] && rs[q] == ids[b]);
                    if derived(m, ids[b], ids[a]) {
                        let n0 = choose|n0: nat| #[trigger] derived_within(m, ids[b], ids[a], n0);
                        lemma_ancestors_first(m, id@, rs, p, q, n0);
                    }
                }
            }
        }
        Ok(out)
    }

    /// Consume one use of a lease. Fails if the lease is revoked, expired at
    /// `now`, or exhausted. Returns the updated lease.
    pub fn consume_use(&mut self, id: &LeaseId, now: Timestamp) -> (r: IdentityResult<
        CapabilityLease,
    >)
        requires
            old(self).wf(),
        ensures
            final(self).wf(),
            match r {
                Ok(l) => {
                    &&& old(self)@.contains_key(id@)
                    &&& old(self)@[id@].active(now)
                    &&& l@ == old(self)@[id@].used()
                    &&& final(self)@ == old(self)@.insert(id@, l@)
                },
                Err(e) => {
                    &&& final(self)@ == old(self)@
                    &&& if !old(self)@.contains_key(id@) {
                        unknown_lease(e, id@)
                    } else {
                        &&& !old(self)@[id@].active(now)
                        &&& e matches IdentityError::LeaseUnusable { lease, reason } && lease@
                            == id@ && unusable(old(self)@[id@], now) == Some(reason@)
                    }
                },
            },
    {
        let mut l = match self.get(id) {
            Ok(l) => l,
            Err(e) => {
                return Err(e);
            },
        };
        let reason = if l.revoked {
            "revoked"
        } else if !now.is_before(&l.expires_at) {
            "expired"
        } else if l.remaining_uses == 0 {
            "exhausted"
        } else {
            l.remaining_uses = l.remaining_uses - 1;
            proof {
                assert(l@ =~= old(self)@[id@].used());
            }
            self.put(l.clone());
            return Ok(l);
        };
        Err(
            IdentityError::LeaseUnusable {
                lease: id.as_str().to_owned(),
                reason: reason.to_owned(),
            },
        )
    }

    /// Mark every lease whose expiry is at or before `now` as revoked
    /// ("sweeping"). Returns the ids swept, in order. Sweeping is not cascading:
    /// child leases can never outlive their parents by construction of
    /// attenuation, so they expire on their own.
    pub fn sweep_expired(&mut self, now: Timestamp) -> (out: Vec<LeaseId>)
        requires
            old(self).wf(),
        ensures
            final(self).wf(),
            final(self)@ == swept(old(self)@, now),
            out.deep_view() == due_among(old(self)@, in_order(old(self)@.dom()), now),
    {
        let ghost m = self@;
        let ghost ks = self.rows.keys();
        let n = self.rows.len();
        let mut due: Vec<CapabilityLease> = Vec::new();
        let mut out: Vec<LeaseId> = Vec::new();
        let mut i: usize = 0;
        proof {
            assert(m.dom() =~= self.rows@.dom());
            assert(ks.take(0) =~= Seq::<Seq<char>>::empty());
            assert(out.deep_view() =~= Seq::<Seq<char>>::empty());
        }
        while i < n
            invariant
                i <= n,
                n == ks.len(),
                ks == self.rows.keys(),
                m == lease_views(self.rows@),
                forall|x: Seq<char>| #[trigger] m.contains_key(x) ==> m[x].id == x,
                out.deep_view() == due_among(m, ks.take(i as int), now),
                due@.len() == out@.len(),
                forall|j: int|
                    0 <= j < due@.len() ==> m.contains_key((#[trigger] due@[j])@.id)
                        && m[due@[j]@.id].due(now) && due@[j]@ == m[due@[j]@.id].dead(),
                forall|j: int|
                    #![trigger ks[j]]
                    0 <= j < i && m[ks[j]].due(now) ==> exists|d: int|
                        0 <= d < due@.len() && (#[trigger] due@[d])@.id == ks[j],
            decreases n - i,
        {
            let (key, l) = self.rows.at(i);
            let ghost next = ks.take(i + 1);
            let ghost before = out.deep_view();
            let ghost had = due@;
            proof {
                assert(next.drop_last() == ks.take(i as int));
                assert(next.last() == key@);
                assert(m.contains_key(key@) && m[key@] == l@);
                assert(l@.id == key@);
            }
            if !l.revoked && !now.is_before(&l.expires_at) {
                let mut dead = l.clone();
                dead.revoked = true;
                proof {
                    assert(dead@ =~= m[key@].dead());
                }
                let ghost d0 = dead;
                due.push(dead);
                proof {
                    assert(due@ == had.push(d0));
                }
                out.push(LeaseId(key.clone()));
                proof {
                    assert(out.deep_view() =~= before.push(key@));
                    assert(due@[had.len() as int]@ == m[key@].dead());
                    assert(due@[had.len() as int]@.id == key@);
                    assert forall|j: int|
                        #![trigger ks[j]]
                        0 <= j < i + 1 && m[ks[j]].due(now) implies exists|d: int|
                        0 <= d < due@.len() && (#[trigger] due@[d])@.id == ks[j] by {
                        if j < i {
                            let d = choose|d: int|
                                0 <= d < had.len() && (#[trigger] had[d])@.id == ks[j];
                            assert(due@[d] == had[d]);
                        }
                    }
                }
            }
            i = i + 1;
        }
        proof {
            assert(ks.take(n as int) == ks);
        }
        let ghost all = due@;
        let mut k: usize = 0;
        while k < due.len()
            invariant
                k <= due.len(),
                due@ == all,
                forall|x: Seq<char>| #[trigger] m.contains_key(x) ==> m[x].id == x,
                forall|j: int|
                    0 <= j < all.len() ==> m.contains_key((#[trigger] all[j])@.id)
                        && m[all[j]@.id].due(now) && all[j]@ == m[all[j]@.id].dead(),
                self@.dom() == m.dom(),
                forall|x: Seq<char>| #[trigger]
                    m.contains_key(x) ==> self@[x] == m[x] || (m[x].due(now) && self@[x]
                        == m[x].dead()),
                forall|j: int| 0 <= j < k ==> self@[(#[trigger] all[j])@.id] == all[j]@,
            decreases due.len() - k,
        {
            let l = due[k].clone();
            self.put(l);
            proof {
                assert(m.contains_key(all[k as int]@.id));
                assert(self@.dom() =~= m.dom());
                assert forall|j: int| 0 <= j < k + 1 implies self@[(#[trigger] all[j])@.id]
                    == all[j]@ by {
                    if j < k && all[j]@.id == all[k as int]@.id {
                        assert(all[j]@ == m[all[j]@.id].dead());
                    }
                }
            }
            k = k + 1;
        }
        proof {
            assert forall|x: Seq<char>| #[trigger] m.contains_key(x) implies self@[x] == swept(
                m,
                now,
            )[x] by {
                if m[x].due(now) {
                    assert(ks.to_set().contains(x));
                    let j = ks.index_of(x);
                    assert(ks[j] == x);
                    let d = choose|d: int| 0 <= d < all.len() && (#[trigger] all[d])@.id == ks[j];
                    assert(self@[all[d]@.id] == all[d]@);
                } else {
                    assert(m[x] == self@[x]);
                }
            }
            assert(self@ =~= swept(m, now));
        }
        out
    }
}

/// Authority dies with the grant it came from: once a lease is revoked with its
/// cascade, nothing derived from it can be used at any time.
pub proof fn law_revocation_reaches_everything_derived(
    m: Map<Seq<char>, LeaseView>,
    root: Seq<char>,
    id: Seq<char>,
    now: Timestamp,
)
    requires
        m.contains_key(id),
        derived(m, root, id),
    ensures
        unusable(revoked_under(m, root)[id], now) == Some("revoked"@),
        !revoked_under(m, root)[id].active(now),
{
}

/// Revocation touches nothing that was not derived from the lease.
pub proof fn law_revocation_spares_the_rest(
    m: Map<Seq<char>, LeaseView>,
    root: Seq<char>,
    id: Seq<char>,
)
    requires
        m.contains_key(id),
        !derived(m, root, id),
    ensures
        revoked_under(m, root)[id] == m[id],
{
}

/// Revocation leaves the links between leases alone.
proof fn lemma_revocation_keeps_the_links(
    m: Map<Seq<char>, LeaseView>,
    root: Seq<char>,
    id: Seq<char>,
    n: nat,
)
    ensures
        derived_within(revoked_under(m, root), root, id, n) == derived_within(m, root, id, n),
    decreases n,
{
    if n > 0 && m.contains_key(id) && m[id].parent_lease is Some {
        lemma_revocation_keeps_the_links(m, root, m[id].parent_lease->0, (n - 1) as nat);
    }
}

/// Revoking a lease once more finds nothing left to revoke and changes nothing.
pub proof fn law_revocation_is_idempotent(m: Map<Seq<char>, LeaseView>, root: Seq<char>)
    ensures
        revoked_under(revoked_under(m, root), root) == revoked_under(m, root),
        forall|id: Seq<char>|
            m.contains_key(id) && #[trigger] derived(revoked_under(m, root), root, id)
                ==> revoked_under(m, root)[id].revoked,
{
    let after = revoked_under(m, root);
    assert forall|id: Seq<char>| #[trigger] derived(after, root, id) == derived(m, root, id) by {
        if derived(after, root, id) {
            let n = choose|n: nat| #[trigger] derived_within(after, root, id, n);
            lemma_revocation_keeps_the_links(m, root, id, n);
        }
        if derived(m, root, id) {
            let n = choose|n: nat| #[trigger] derived_within(m, root, id, n);
            lemma_revocation_keeps_the_links(m, root, id, n);
        }
    }
    assert(revoked_under(after, root) =~= after);
}

/// The lease after `n` uses.
pub open spec fn used_times(l: LeaseView, n: nat) -> LeaseView
    decreases n,
{
    if n == 0 {
        l
    } else {
        used_times(l, (n - 1) as nat).used()
    }
}

/// A lease can be used as often as it has uses, and not once more.
pub proof fn law_uses_run_out(l: LeaseView, now: Timestamp, n: nat)
    requires
        l.active(now),
        n <= l.remaining_uses,
    ensures
        used_times(l, n).remaining_uses == l.remaining_uses - n,
        used_times(l, n).active(now) <==> n < l.remaining_uses,
    decreases n,
{
    if n > 0 {
        law_uses_run_out(l, now, (n - 1) as nat);
    }
}

/// A lease can be used exactly if no reason stands against it.
pub proof fn law_active_iff_usable(l: LeaseView, now: Timestamp)
    ensures
        l.active(now) <==> unusable(l, now) is None,
{
}

/// Why a lease cannot be used goes by its fields: revoked comes before expired, and
/// expired before used up. It runs out at the very instant it expires at.
pub proof fn law_leases_run_out(l: LeaseView, now: Timestamp)
    ensures
        ({
            let over = l.expires_at.secs < now.secs || (l.expires_at.secs == now.secs
                && l.expires_at.nanos <= now.nanos);
            &&& l.due(now) <==> !l.revoked && over
            &&& l.revoked ==> unusable(l, now) == Some("revoked"@)
            &&& !l.revoked && over ==> unusable(l, now) == Some("expired"@)
            &&& !l.revoked && !over && l.remaining_uses == 0 ==> unusable(l, now) == Some(
                "exhausted"@,
            )
            &&& !l.revoked && !over && l.remaining_uses > 0 ==> unusable(l, now) is None
        }),
{
}

/// A use takes one use away and changes nothing else.
pub proof fn law_a_use_takes_one_away(l: LeaseView)
    requires
        l.remaining_uses > 0,
    ensures
        l.used().remaining_uses + 1 == l.remaining_uses,
        l == (LeaseView { remaining_uses: l.remaining_uses, ..l.used() }),
{
}

/// Revoking a lease changes nothing else of it.
pub proof fn law_revoked_leases_keep_their_terms(l: LeaseView)
    ensures
        l.dead().revoked,
        l == (LeaseView { revoked: l.revoked, ..l.dead() }),
{
}

/// Sweeping revokes exactly the leases that have expired, takes none away, and
/// changes nothing else.
pub proof fn law_only_the_expired_are_swept(
    m: Map<Seq<char>, LeaseView>,
    now: Timestamp,
    id: Seq<char>,
)
    ensures
        swept(m, now).contains_key(id) <==> m.contains_key(id),
        m.contains_key(id) ==> (swept(m, now)[id].revoked <==> m[id].revoked || m[id].expires_at.secs
            < now.secs || (m[id].expires_at.secs == now.secs && m[id].expires_at.nanos
            <= now.nanos)),
        m.contains_key(id) ==> m[id] == (LeaseView { revoked: m[id].revoked, ..swept(m, now)[id] }),
{
}

/// Who was derived from whom is the parent relation followed upwards: a lease is
/// derived from itself, and from what its parent is derived from, and from nothing
/// else.
pub proof fn law_derivation_goes_by_parents(
    m: Map<Seq<char>, LeaseView>,
    root: Seq<char>,
    id: Seq<char>,
)
    ensures
        derived(m, root, root),
        id != root ==> (derived(m, root, id) <==> m.contains_key(id) && (
        m[id].parent_lease matches Some(p) && derived(m, root, p))),
{
    assert(derived_within(m, root, root, 0));
    if id != root && derived(m, root, id) {
        let n = choose|n: nat| #[trigger] derived_within(m, root, id, n);
        assert(derived_within(m, root, m[id].parent_lease->0, (n - 1) as nat));
    }
    if id != root && m.contains_key(id) && m[id].parent_lease is Some && derived(
        m,
        root,
        m[id].parent_lease->0,
    ) {
        let n = choose|n: nat| #[trigger] derived_within(m, root, m[id].parent_lease->0, n);
        assert(derived_within(m, root, id, n + 1));
    }
}

/// Revocation takes no lease away and adds none; what it revokes keeps its terms.
pub proof fn law_revocation_takes_none_away(
    m: Map<Seq<char>, LeaseView>,
    root: Seq<char>,
    id: Seq<char>,
)
    ensures
        revoked_under(m, root).contains_key(id) <==> m.contains_key(id),
        m.contains_key(id) ==> m[id] == (LeaseView {
            revoked: m[id].revoked,
            ..revoked_under(m, root)[id]
        }),
        m.contains_key(root) ==> revoked_under(m, root)[root].revoked,
{
    assert(derived_within(m, root, root, 0));
}

/// The leases of a principal are those that name it, in the order of the list: one
/// more lease is listed last if it names the principal, and not at all otherwise.
pub proof fn law_leases_belong_to_whom_they_name(
    m: Map<Seq<char>, LeaseView>,
    ids: Seq<Seq<char>>,
    principal: Seq<char>,
    id: Seq<char>,
)
    ensures
        held(m, Seq::empty(), principal).len() == 0,
        m[id].principal == principal ==> held(m, ids.push(id), principal) == held(
            m,
            ids,
            principal,
        ).push(m[id]),
        m[id].principal != principal ==> held(m, ids.push(id), principal) == held(m, ids, principal),
{
    assert(ids.push(id).drop_last() =~= ids);
}

/// Of a list of leases those are active that are neither revoked nor expired nor used
/// up, in the same order.
pub proof fn law_active_leases_are_all_listed(leases: Seq<LeaseView>, l: LeaseView, now: Timestamp)
    ensures
        active_among(Seq::empty(), now).len() == 0,
        !l.revoked && l.remaining_uses > 0 && (now.secs < l.expires_at.secs || (now.secs
            == l.expires_at.secs && now.nanos < l.expires_at.nanos)) ==> active_among(
            leases.push(l),
            now,
        ) == active_among(leases, now).push(l),
        l.revoked || l.remaining_uses == 0 || now.secs > l.expires_at.secs || (now.secs
            == l.expires_at.secs && now.nanos >= l.expires_at.nanos) ==> active_among(
            leases.push(l),
            now,
        ) == active_among(leases, now),
{
    assert(leases.push(l).drop_last() =~= leases);
}

/// Sweeping reports exactly the leases it revokes, in the order of the list.
pub proof fn law_swept_leases_are_reported(
    m: Map<Seq<char>, LeaseView>,
    ids: Seq<Seq<char>>,
    id: Seq<char>,
    now: Timestamp,
)
    requires
        m.contains_key(id),
    ensures
        due_among(m, Seq::empty(), now).len() == 0,
        swept(m, now)[id].revoked != m[id].revoked ==> due_among(m, ids.push(id), now)
            == due_among(m, ids, now).push(id),
        swept(m, now)[id].revoked == m[id].revoked ==> due_among(m, ids.push(id), now)
            == due_among(m, ids, now),
{
    assert(ids.push(id).drop_last() =~= ids);
}

} // verus!
