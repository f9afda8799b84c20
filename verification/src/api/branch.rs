//! Branches: which of them still accept transitions, and in which order two of
//! them are locked.
use vstd::prelude::*;
use crate::error::{KernelError, KernelResult};
use crate::ids::{BranchId, EpisodeId, StateId, generated};
use crate::text;

verus! {

/// Where a branch stands in its life.
#[derive(Debug, Clone, Copy, PartialEq, Eq, Structural)]
pub enum BranchStatus {
    /// The branch accepts transitions.
    Active,
    /// The branch was merged into another; its states stay.
    Merged,
    /// The branch was discarded.
    Discarded,
}

/// A line of states within an episode.
#[derive(Debug)]
pub struct Branch {
    pub id: BranchId,
    pub episode: EpisodeId,
    /// The state at which the branch was forked.
    pub base_state: StateId,
    /// The newest state.
    pub head: StateId,
    pub status: BranchStatus,
}

impl Clone for Branch {
    fn clone(&self) -> (r: Self)
        ensures
            r == *self,
    {
        Branch {
            id: self.id.clone(),
            episode: self.episode.clone(),
            base_state: self.base_state.clone(),
            head: self.head.clone(),
            status: self.status,
        }
    }
}

/// The error for a branch that accepts no transition.
pub open spec fn discarded_error(e: KernelError, branch: Seq<char>) -> bool {
    e matches KernelError::BranchDiscarded { branch: b } && b@ == branch
}

impl Branch {
    /// The branch, only if it can still accept transitions. This is checked
    /// before any backend work: discovering a terminal branch after execution
    /// would turn a rejected step into an unrecorded side effect.
    pub fn active(&self) -> (r: KernelResult<()>)
        ensures
            match r {
                Ok(_) => self.status == BranchStatus::Active,
                Err(e) => self.status != BranchStatus::Active && discarded_error(e, self.id@),
            },
    {
        match self.status {
            BranchStatus::Active => Ok(()),
            _ => Err(KernelError::BranchDiscarded { branch: self.id.as_str().to_owned() }),
        }
    }

    /// A new branch of the same episode that starts at the head of this one, only
    /// if this one can still accept transitions.
    pub fn fork(&self) -> (r: KernelResult<Branch>)
        ensures
            match r {
                Ok(b) => {
                    &&& self.status == BranchStatus::Active
                    &&& generated(b.id@, "br-"@)
                    &&& b.episode == self.episode
                    &&& b.base_state == self.head
                    &&& b.head == self.head
                    &&& b.status == BranchStatus::Active
                },
                Err(e) => self.status != BranchStatus::Active && discarded_error(e, self.id@),
            },
    {
        if let Err(e) = self.active() {
            return Err(e);
        }
        Ok(
            Branch {
                id: BranchId::generate(),
                episode: self.episode.clone(),
                base_state: self.head.clone(),
                head: self.head.clone(),
                status: BranchStatus::Active,
            },
        )
    }

    /// The state from which a diff of this branch starts: the given one, or the
    /// state at which the branch was forked.
    pub fn diff_base(&self, since: Option<&StateId>) -> (r: StateId)
        ensures
            r == match since {
                Some(s) => *s,
                None => self.base_state,
            },
    {
        match since {
            Some(s) => s.clone(),
            None => self.base_state.clone(),
        }
    }

    /// What discarding this branch takes.
    pub fn discard_plan(&self) -> (r: KernelResult<DiscardPlan>)
        ensures
            match (r, self.status) {
                (Ok(p), BranchStatus::Active) => p == DiscardPlan::TearDownAndMark,
                (Ok(p), BranchStatus::Merged) => p == DiscardPlan::CleanUpOnly,
                (Err(e), BranchStatus::Discarded) => discarded_error(e, self.id@),
                _ => false,
            },
    {
        match self.status {
            BranchStatus::Active => Ok(DiscardPlan::TearDownAndMark),
            BranchStatus::Merged => Ok(DiscardPlan::CleanUpOnly),
            BranchStatus::Discarded => Err(
                KernelError::BranchDiscarded { branch: self.id.as_str().to_owned() },
            ),
        }
    }
}

/// What discarding a branch takes.
#[derive(Debug, Clone, Copy, PartialEq, Eq, Structural)]
pub enum DiscardPlan {
    /// Tear down what every backend holds, and then mark the branch discarded.
    TearDownAndMark,
    /// Release what the backends hold; the branch stays merged.
    CleanUpOnly,
}

/// `a` does not come after `b`.
pub open spec fn not_after(a: Seq<char>, b: Seq<char>) -> bool {
    a == b || text::lt(a, b)
}

/// The order in which the branches of a merge are locked: the lesser identifier
/// first, whichever is the target. A branch cannot be merged into itself.
pub fn merge_order<'a>(target: &'a BranchId, source: &'a BranchId) -> (r: KernelResult<
    (&'a BranchId, &'a BranchId),
>)
    ensures
        match r {
            Ok((first, second)) => {
                &&& target@ != source@
                &&& if not_after(target@, source@) {
                    *first == *target && *second == *source
                } else {
                    *first == *source && *second == *target
                }
            },
            Err(e) => target@ == source@ && (e matches KernelError::Storage(m) && m@
                == "cannot merge branch `"@ + target@ + "` into itself"@),
        },
{
    if text::str_eq(target.as_str(), source.as_str()) {
        return Err(
            KernelError::Storage(
                text::cat3("cannot merge branch `", target.as_str(), "` into itself"),
            ),
        );
    }
    if text::less(target.as_str(), source.as_str()) {
        Ok((target, source))
    } else {
        Ok((source, target))
    }
}

/// The error of a merge whose target workspace could not be rebuilt.
pub fn rebuild_error(node: &StateId, target: &BranchId, error: &KernelError) -> (e: KernelError)
    ensures
        e matches KernelError::Storage(m) && m@ == "merge committed as "@ + node@
            + " but rebuilding target workspace `"@ + target@ + "` failed: "@
            + error.spec_message()
            + "; retrying any target step will materialize its durable head"@,
{
    let message = error.message();
    KernelError::Storage(
        text::cat7(
            "merge committed as ",
            node.as_str(),
            " but rebuilding target workspace `",
            target.as_str(),
            "` failed: ",
            message.as_str(),
            "; retrying any target step will materialize its durable head",
        ),
    )
}

/// Whichever of two branches is the target, they are locked in one order: two
/// merges across each other cannot wait for each other.
pub proof fn law_merges_lock_in_one_order(a: Seq<char>, b: Seq<char>)
    requires
        a != b,
    ensures
        not_after(a, b) <==> !not_after(b, a),
{
    text::lemma_lt_total(a, b);
    if text::lt(a, b) && text::lt(b, a) {
        text::lemma_lt_transitive(a, b, a);
        text::lemma_lt_irreflexive(a);
    }
}

/// Only an active branch goes on: it alone can be stepped and forked. A fork starts at
/// its head, in its episode. What was discarded cannot be discarded again, and what was
/// merged is only cleaned up.
pub proof fn law_only_active_branches_go_on(
    b: &Branch,
    a: KernelResult<()>,
    f: KernelResult<Branch>,
    d: KernelResult<DiscardPlan>,
)
    requires
        call_ensures(Branch::active, (b,), a),
        call_ensures(Branch::fork, (b,), f),
        call_ensures(Branch::discard_plan, (b,), d),
    ensures
        a is Ok <==> b.status == BranchStatus::Active,
        f is Ok <==> a is Ok,
        f matches Ok(n) ==> n.base_state == b.head && n.head == b.head && n.episode == b.episode
            && n.status == BranchStatus::Active,
        d is Err <==> b.status == BranchStatus::Discarded,
        d matches Ok(p) ==> (p == DiscardPlan::TearDownAndMark <==> a is Ok),
{
}

/// Two branches are locked in one order, whichever is merged into which, the lesser
/// first; a branch is never merged into itself.
pub proof fn law_lesser_branch_is_locked_first(
    a: &BranchId,
    b: &BranchId,
    r: KernelResult<(&BranchId, &BranchId)>,
    q: KernelResult<(&BranchId, &BranchId)>,
)
    requires
        call_ensures(merge_order, (a, b), r),
        call_ensures(merge_order, (b, a), q),
    ensures
        r is Err <==> a@ == b@,
        q is Err <==> a@ == b@,
        r matches Ok(x) ==> (q matches Ok(y) ==> x.0@ == y.0@ && x.1@ == y.1@),
        r matches Ok(x) ==> text::lt(x.0@, x.1@),
        r matches Ok(x) ==> (x.0@ == a@ && x.1@ == b@) || (x.0@ == b@ && x.1@ == a@),
{
    text::lemma_lt_total(a@, b@);
    text::lemma_lt_irreflexive(a@);
    if text::lt(a@, b@) && text::lt(b@, a@) {
        text::lemma_lt_transitive(a@, b@, a@);
    }
}

/// A diff starts where it is told to, and at the fork where it is not.
pub proof fn law_diffs_start_at_the_fork(b: &Branch, since: &StateId, r: StateId, q: StateId)
    requires
        call_ensures(Branch::diff_base, (b, Some(since)), r),
        call_ensures(Branch::diff_base, (b, None), q),
    ensures
        r == *since,
        q == b.base_state,
{
}

} // verus!
