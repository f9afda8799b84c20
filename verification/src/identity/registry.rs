//! The [`PrincipalRegistry`]: identities and lineage.
use vstd::prelude::*;
use crate::identity::error::{IdentityError, IdentityResult};
use crate::ids::PrincipalId;
use crate::principal::{Principal, TrustLevel};
use crate::sorted::{Sorted, in_order};
use crate::text;

verus! {

/// A registry of every principal known to the kernel.
///
/// The registry is the authority on:
/// - which principals exist,
/// - their [`TrustLevel`] (used to redact denials, never to skip enforcement),
/// - the parent/child spawn lineage (used to decide whether a delegation is
///   structurally legal).
pub struct PrincipalRegistry {
    rows: Sorted<Principal>,
}

/// The parent of a principal, by identifier.
pub open spec fn parent_of(p: Principal) -> Option<Seq<char>> {
    match p.parent {
        Some(q) => Some(q@),
        None => None,
    }
}

/// Every parent is registered and ranks below its children.
pub open spec fn ranked(m: Map<Seq<char>, Principal>, rank: spec_fn(Seq<char>) -> nat) -> bool {
    forall|id: Seq<char>| #[trigger]
        m.contains_key(id) ==> {
            &&& m[id].id@ == id
            &&& parent_of(m[id]) matches Some(q) ==> m.contains_key(q) && rank(q) < rank(id)
        }
}

/// Rows stand under their identifiers, parents are registered, and no principal
/// descends from itself.
pub open spec fn rooted(m: Map<Seq<char>, Principal>) -> bool {
    exists|rank: spec_fn(Seq<char>) -> nat| #[trigger] ranked(m, rank)
}

/// The ancestors of a principal, nearest first, as far as `limit` goes; `None`
/// where there are more.
pub open spec fn ancestors(
    m: Map<Seq<char>, Principal>,
    id: Seq<char>,
    limit: nat,
) -> Option<Seq<Principal>>
    decreases limit,
{
    match parent_of(m[id]) {
        None => Some(Seq::empty()),
        Some(q) => if limit == 0 {
            None
        } else {
            match ancestors(m, q, (limit - 1) as nat) {
                Some(rest) => Some(seq![m[q]] + rest),
                None => None,
            }
        },
    }
}

/// How many ancestors a lineage can have.
pub const MAX_LINEAGE: usize = 4096;

/// The principals of the listed identifiers whose parent is `parent`, in the
/// order of the list.
pub open spec fn children_among(
    m: Map<Seq<char>, Principal>,
    ids: Seq<Seq<char>>,
    parent: Seq<char>,
) -> Seq<Principal>
    decreases ids.len(),
{
    if ids.len() == 0 {
        Seq::empty()
    } else {
        let rest = children_among(m, ids.drop_last(), parent);
        if parent_of(m[ids.last()]) == Some(parent) {
            rest.push(m[ids.last()])
        } else {
            rest
        }
    }
}

/// The error for a principal that is not registered.
pub open spec fn unknown_principal(e: IdentityError, id: Seq<char>) -> bool {
    e matches IdentityError::UnknownPrincipal(got) && got@ == id
}

/// The error for a lineage that is too long.
pub open spec fn endless_lineage(e: IdentityError) -> bool {
    e matches IdentityError::DelegationRejected(m) && m@ == "principal lineage contains a cycle"@
}

impl PrincipalRegistry {
    /// The principals by identifier.
    pub closed spec fn view(&self) -> Map<Seq<char>, Principal> {
        self.rows@
    }

    #[verifier::type_invariant]
    spec fn inv(self) -> bool {
        rooted(self.rows@)
    }

    /// An empty registry.
    pub fn new() -> (r: Self)
        ensures
            r@ == Map::<Seq<char>, Principal>::empty(),
    {
        let rows: Sorted<Principal> = Sorted::new();
        proof {
            assert(ranked(rows@, |x: Seq<char>| 0nat));
        }
        PrincipalRegistry { rows }
    }

    /// Register a principal. The parent (if any) must already be registered;
    /// re-registering an existing id is an error.
    pub fn register(&mut self, principal: &Principal) -> (r: IdentityResult<()>)
        ensures
            rooted(final(self)@),
            match r {
                Ok(_) => {
                    &&& !old(self)@.contains_key(principal.id@)
                    &&& parent_of(*principal) matches Some(q) ==> old(self)@.contains_key(q)
                    &&& final(self)@ == old(self)@.insert(principal.id@, *principal)
                },
                Err(e) => {
                    &&& final(self)@ == old(self)@
                    &&& match parent_of(*principal) {
                        Some(q) if !old(self)@.contains_key(q) => e matches IdentityError::UnknownParent(
                            got,
                        ) && got@ == q,
                        _ => old(self)@.contains_key(principal.id@)
                            && (e matches IdentityError::DuplicatePrincipal(got) && got@
                            == principal.id@),
                    }
                },
            },
    {
        proof {
            use_type_invariant(&*self);
        }
        let ghost m = self.rows@;
        if let Some(parent) = &principal.parent {
            if self.rows.get(parent.as_str()).is_none() {
                return Err(IdentityError::UnknownParent(parent.as_str().to_owned()));
            }
        }
        if self.rows.get(principal.id.as_str()).is_some() {
            return Err(IdentityError::DuplicatePrincipal(principal.id.as_str().to_owned()));
        }
        let mut rows: Sorted<Principal> = Sorted::new();
        proof {
            assert(ranked(rows@, |x: Seq<char>| 0nat));
        }
        std::mem::swap(&mut rows, &mut self.rows);
        rows.insert(principal.id.as_str().to_owned(), principal.clone());
        proof {
            let rank = choose|rank: spec_fn(Seq<char>) -> nat| #[trigger] ranked(m, rank);
            let above = match parent_of(*principal) {
                Some(q) => rank(q) + 1,
                None => 0,
            };
            let id0 = principal.id@;
            let next = |x: Seq<char>| if x == id0 { above as nat } else { rank(x) };
            let after = rows@;
            assert(after == m.insert(id0, *principal));
            assert forall|id: Seq<char>| #[trigger] after.contains_key(id) implies {
                &&& after[id].id@ == id
                &&& parent_of(after[id]) matches Some(q) ==> after.contains_key(q) && next(q)
                    < next(id)
            } by {
                if id != id0 {
                    assert(m.contains_key(id));
                }
            }
            assert(ranked(after, next));
        }
        self.rows = rows;
        Ok(())
    }

    /// Look up a principal by id.
    pub fn get(&self, id: &PrincipalId) -> (r: IdentityResult<Principal>)
        ensures
            match r {
                Ok(p) => self@.contains_key(id@) && p == self@[id@],
                Err(e) => !self@.contains_key(id@) && unknown_principal(e, id@),
            },
    {
        match self.rows.get(id.as_str()) {
            Some(p) => Ok(p.clone()),
            None => Err(IdentityError::UnknownPrincipal(id.as_str().to_owned())),
        }
    }

    /// Whether a principal id is registered.
    pub fn is_registered(&self, id: &PrincipalId) -> (r: bool)
        ensures
            r == self@.contains_key(id@),
    {
        self.rows.get(id.as_str()).is_some()
    }

    /// Update a principal's trust level (e.g. quarantining a misbehaving skill).
    /// Trust changes never grant authority: they only change how much policy
    /// detail the principal is shown.
    pub fn set_trust(&mut self, id: &PrincipalId, trust: TrustLevel) -> (r: IdentityResult<()>)
        ensures
            match r {
                Ok(_) => {
                    &&& old(self)@.contains_key(id@)
                    &&& final(self)@ == old(self)@.insert(
                        id@,
                        (Principal { trust, ..old(self)@[id@] }),
                    )
                },
                Err(e) => {
                    &&& final(self)@ == old(self)@
                    &&& !old(self)@.contains_key(id@)
                    &&& unknown_principal(e, id@)
                },
            },
    {
        proof {
            use_type_invariant(&*self);
        }
        let ghost m = self.rows@;
        let mut p = match self.get(id) {
            Ok(p) => p,
            Err(e) => {
                return Err(e);
            },
        };
        p.trust = trust;
        let ghost p0 = p;
        let mut rows: Sorted<Principal> = Sorted::new();
        proof {
            assert(ranked(rows@, |x: Seq<char>| 0nat));
        }
        std::mem::swap(&mut rows, &mut self.rows);
        rows.insert(id.as_str().to_owned(), p);
        proof {
            let rank = choose|rank: spec_fn(Seq<char>) -> nat| #[trigger] ranked(m, rank);
            let after = rows@;
            assert(after == m.insert(id@, p0));
            assert forall|x: Seq<char>| #[trigger] after.contains_key(x) implies {
                &&& after[x].id@ == x
                &&& parent_of(after[x]) matches Some(q) ==> after.contains_key(q) && rank(q) < rank(
                    x,
                )
            } by {
                assert(m.contains_key(x));
            }
            assert(ranked(after, rank));
        }
        self.rows = rows;
        Ok(())
    }

    /// Direct children of a principal, ordered by id.
    pub fn children(&self, id: &PrincipalId) -> (out: Vec<Principal>)
        ensures
            out@ == children_among(self@, in_order(self@.dom()), id@),
    {
        let ghost m = self@;
        let ghost ks = self.rows.keys();
        let n = self.rows.len();
        let mut out: Vec<Principal> = Vec::new();
        let mut i: usize = 0;
        proof {
            assert(ks.take(0) =~= Seq::<Seq<char>>::empty());
        }
        while i < n
            invariant
                i <= n,
                n == ks.len(),
                ks == self.rows.keys(),
                m == self.rows@,
                out@ == children_among(m, ks.take(i as int), id@),
            decreases n - i,
        {
            let (_, p) = self.rows.at(i);
            let ghost next = ks.take(i + 1);
            proof {
                assert(next.drop_last() == ks.take(i as int));
                assert(next.last() == ks[i as int]);
            }
            let child = match &p.parent {
                Some(q) => text::str_eq(q.as_str(), id.as_str()),
                None => false,
            };
            if child {
                out.push(p.clone());
            }
            i = i + 1;
        }
        proof {
            assert(ks.take(n as int) == ks);
        }
        out
    }

    /// The chain of ancestors of `id`, nearest parent first. A lineage of more
    /// than [`MAX_LINEAGE`] is taken for a cycle.
    pub fn lineage(&self, id: &PrincipalId) -> (r: IdentityResult<Vec<Principal>>)
        ensures
            rooted(self@),
            match r {
                Ok(v) => self@.contains_key(id@) && ancestors(self@, id@, MAX_LINEAGE as nat)
                    == Some(v@),
                Err(e) => if !self@.contains_key(id@) {
                    unknown_principal(e, id@)
                } else {
                    ancestors(self@, id@, MAX_LINEAGE as nat) is None && endless_lineage(e)
                },
            },
    {
        proof {
            use_type_invariant(self);
        }
        let ghost m = self@;
        let ghost rank = choose|rank: spec_fn(Seq<char>) -> nat| #[trigger] ranked(m, rank);
        let mut current = match self.get(id) {
            Ok(p) => p,
            Err(e) => {
                return Err(e);
            },
        };
        let mut out: Vec<Principal> = Vec::new();
        let ghost whole = ancestors(m, id@, MAX_LINEAGE as nat);
        loop
            invariant
                m == self@,
                ranked(m, rank),
                m.contains_key(id@),
                m.contains_key(current.id@),
                current == m[current.id@],
                out@.len() <= MAX_LINEAGE,
                whole == ancestors(m, id@, MAX_LINEAGE as nat),
                match ancestors(m, current.id@, (MAX_LINEAGE - out@.len()) as nat) {
                    Some(rest) => whole == Some(out@ + rest),
                    None => whole is None,
                },
            decreases MAX_LINEAGE - out@.len(),
        {
            let parent_id = match &current.parent {
                Some(q) => q.clone(),
                None => {
                    proof {
                        assert(out@ + Seq::<Principal>::empty() =~= out@);
                    }
                    return Ok(out);
                },
            };
            let ghost left = (MAX_LINEAGE - out@.len()) as nat;
            proof {
                assert(parent_of(m[current.id@]) == Some(parent_id@));
                assert(m.contains_key(parent_id@));
            }
            let parent = match self.get(&parent_id) {
                Ok(p) => p,
                Err(e) => {
                    return Err(e);
                },
            };
            if out.len() >= MAX_LINEAGE {
                return Err(
                    IdentityError::DelegationRejected(
                        "principal lineage contains a cycle".to_owned(),
                    ),
                );
            }
            let ghost before = out@;
            out.push(parent.clone());
            proof {
                if let Some(rest) = ancestors(m, parent_id@, (left - 1) as nat) {
                    assert(before.push(m[parent_id@]) + rest =~= before + (seq![m[parent_id@]]
                        + rest));
                }
            }
            current = parent;
        }
    }

    /// Whether `descendant` is `ancestor` itself or transitively spawned from
    /// it.
    pub fn is_self_or_descendant(&self, descendant: &PrincipalId, ancestor: &PrincipalId) -> (r:
        IdentityResult<bool>)
        ensures
            if descendant@ == ancestor@ {
                r matches Ok(b) && b
            } else {
                match r {
                    Ok(b) => {
                        &&& self@.contains_key(descendant@)
                        &&& ancestors(self@, descendant@, MAX_LINEAGE as nat) is Some
                        &&& b == descends(self@, descendant@, ancestor@)
                    },
                    Err(e) => if !self@.contains_key(descendant@) {
                        unknown_principal(e, descendant@)
                    } else {
                        ancestors(self@, descendant@, MAX_LINEAGE as nat) is None
                            && endless_lineage(e)
                    },
                }
            },
    {
        if text::str_eq(descendant.as_str(), ancestor.as_str()) {
            return Ok(true);
        }
        let line = match self.lineage(descendant) {
            Ok(v) => v,
            Err(e) => {
                return Err(e);
            },
        };
        let ghost up = ancestors(self@, descendant@, MAX_LINEAGE as nat)->0;
        let mut i: usize = 0;
        while i < line.len()
            invariant
                i <= line.len(),
                line@ == up,
                self@.contains_key(descendant@),
                descendant@ != ancestor@,
                ancestors(self@, descendant@, MAX_LINEAGE as nat) == Some(up),
                forall|j: int| 0 <= j < i ==> (#[trigger] up[j]).id@ != ancestor@,
            decreases line.len() - i,
        {
            if text::str_eq(line[i].id.as_str(), ancestor.as_str()) {
                proof {
                    assert(up[i as int].id@ == ancestor@);
                }
                return Ok(true);
            }
            i = i + 1;
        }
        Ok(false)
    }

    /// All registered principals, ordered by id.
    pub fn list(&self) -> (out: Vec<Principal>)
        ensures
            out@.len() == in_order(self@.dom()).len(),
            forall|i: int|
                0 <= i < out@.len() ==> #[trigger] out@[i] == self@[in_order(self@.dom())[i]],
    {
        let n = self.rows.len();
        let mut out: Vec<Principal> = Vec::new();
        let mut i: usize = 0;
        while i < n
            invariant
                i <= n,
                n == self.rows.keys().len(),
                self@ == self.rows@,
                out@.len() == i,
                forall|j: int|
                    0 <= j < i ==> #[trigger] out@[j] == self@[in_order(self@.dom())[j]],
            decreases n - i,
        {
            let (_, p) = self.rows.at(i);
            out.push(p.clone());
            i = i + 1;
        }
        out
    }
}

/// `ancestor` is among the ancestors of `id`.
pub open spec fn descends(m: Map<Seq<char>, Principal>, id: Seq<char>, ancestor: Seq<char>) -> bool {
    match ancestors(m, id, MAX_LINEAGE as nat) {
        Some(up) => exists|i: int| 0 <= i < up.len() && (#[trigger] up[i]).id@ == ancestor,
        None => false,
    }
}

proof fn lemma_ancestors_rank_below(
    m: Map<Seq<char>, Principal>,
    rank: spec_fn(Seq<char>) -> nat,
    id: Seq<char>,
    limit: nat,
)
    requires
        ranked(m, rank),
        m.contains_key(id),
        ancestors(m, id, limit) is Some,
    ensures
        forall|i: int|
            0 <= i < ancestors(m, id, limit)->0.len() ==> m.contains_key(
                (#[trigger] ancestors(m, id, limit)->0[i]).id@,
            ) && rank(ancestors(m, id, limit)->0[i].id@) < rank(id),
    decreases limit,
{
    if let Some(q) = parent_of(m[id]) {
        assert(m.contains_key(q) && rank(q) < rank(id));
        lemma_ancestors_rank_below(m, rank, q, (limit - 1) as nat);
        let rest = ancestors(m, q, (limit - 1) as nat)->0;
        let up = ancestors(m, id, limit)->0;
        assert(up == seq![m[q]] + rest);
        assert forall|i: int| 0 <= i < up.len() implies m.contains_key((#[trigger] up[i]).id@)
            && rank(up[i].id@) < rank(id) by {
            if i > 0 {
                assert(up[i] == rest[i - 1]);
            }
        }
    }
}

/// Lineage has no cycles: no principal is among its own ancestors, and of two
/// principals at most one descends from the other.
pub proof fn law_lineage_has_no_cycles(
    m: Map<Seq<char>, Principal>,
    a: Seq<char>,
    b: Seq<char>,
)
    requires
        rooted(m),
        m.contains_key(a),
        m.contains_key(b),
    ensures
        !descends(m, a, a),
        !(descends(m, a, b) && descends(m, b, a)),
{
    let rank = choose|rank: spec_fn(Seq<char>) -> nat| #[trigger] ranked(m, rank);
    if ancestors(m, a, MAX_LINEAGE as nat) is Some {
        lemma_ancestors_rank_below(m, rank, a, MAX_LINEAGE as nat);
    }
    if ancestors(m, b, MAX_LINEAGE as nat) is Some {
        lemma_ancestors_rank_below(m, rank, b, MAX_LINEAGE as nat);
    }
}

/// Who descends from whom is the parent relation followed upwards: the parent
/// first, then the parent's ancestors.
pub proof fn law_children_descend_from_their_parent(m: Map<Seq<char>, Principal>, id: Seq<char>)
    requires
        rooted(m),
        m.contains_key(id),
        ancestors(m, id, MAX_LINEAGE as nat) is Some,
        parent_of(m[id]) is Some,
    ensures
        descends(m, id, parent_of(m[id])->0),
{
    let q = parent_of(m[id])->0;
    let rank = choose|rank: spec_fn(Seq<char>) -> nat| #[trigger] ranked(m, rank);
    assert(m.contains_key(q));
    let up = ancestors(m, id, MAX_LINEAGE as nat)->0;
    assert(up[0] == m[q]);
    assert(up[0].id@ == q);
}

/// The ancestors of a principal are its parent, then the parent's ancestors; one
/// without a parent has none, and there are no more than the limit.
pub proof fn law_ancestors_follow_the_parents(
    m: Map<Seq<char>, Principal>,
    id: Seq<char>,
    limit: nat,
)
    ensures
        m[id].parent is None ==> ancestors(m, id, limit) == Some(Seq::<Principal>::empty()),
        m[id].parent matches Some(q) ==> (ancestors(m, id, limit + 1) is None <==> ancestors(
            m,
            q@,
            limit,
        ) is None),
        m[id].parent matches Some(q) ==> (ancestors(m, id, limit + 1) matches Some(up) ==> up.len()
            > 0 && up[0] == m[q@] && ancestors(m, q@, limit) == Some(up.drop_first())),
        ancestors(m, id, limit) matches Some(up) ==> up.len() <= limit,
        ancestors(m, id, 0) is None <==> m[id].parent is Some,
    decreases limit,
{
    if m[id].parent is Some {
        let q = m[id].parent->0@;
        if ancestors(m, q, limit) is Some {
            let rest = ancestors(m, q, limit)->0;
            assert((seq![m[q]] + rest).drop_first() =~= rest);
        }
        if limit > 0 {
            law_ancestors_follow_the_parents(m, q, (limit - 1) as nat);
        }
    }
}

/// The children of a principal are those that name it as their parent, in the order
/// of the list.
pub proof fn law_children_name_their_parent(
    m: Map<Seq<char>, Principal>,
    ids: Seq<Seq<char>>,
    id: Seq<char>,
    parent: Seq<char>,
)
    ensures
        children_among(m, Seq::empty(), parent).len() == 0,
        m[id].parent matches Some(q) ==> q@ == parent ==> children_among(m, ids.push(id), parent)
            == children_among(m, ids, parent).push(m[id]),
        m[id].parent matches Some(q) ==> q@ != parent ==> children_among(m, ids.push(id), parent)
            == children_among(m, ids, parent),
        m[id].parent is None ==> children_among(m, ids.push(id), parent) == children_among(
            m,
            ids,
            parent,
        ),
{
    assert(ids.push(id).drop_last() =~= ids);
}

/// Every row stands under its own identifier, and every parent is registered.
pub proof fn law_parents_are_registered(m: Map<Seq<char>, Principal>, id: Seq<char>)
    requires
        rooted(m),
        m.contains_key(id),
    ensures
        m[id].id@ == id,
        m[id].parent matches Some(q) ==> m.contains_key(q@) && q@ != id,
{
    let rank = choose|rank: spec_fn(Seq<char>) -> nat| #[trigger] ranked(m, rank);
    assert(ranked(m, rank));
}

} // verus!
