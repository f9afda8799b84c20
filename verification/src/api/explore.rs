//! Server-side exploration: several candidates on forks of one branch, and the
//! one that wins.
use vstd::prelude::*;
use crate::api::episodes::branch_names;
use crate::action::ActionKind;
use crate::api::step::StepResult;
use crate::budget::ResourceBudget;
use crate::error::{KernelError, KernelResult};
use crate::ids::{BranchId, StateId};
use crate::observation::Observation;
use crate::text;

verus! {

/// Hard cap on candidates per exploration.
pub const MAX_EXPLORE_CANDIDATES: usize = 16;

/// One candidate in a server-side exploration: a named sequence of actions
/// applied to a fresh fork of the source branch.
#[derive(Debug)]
pub struct ExploreCandidate {
    pub name: Option<String>,
    pub actions: Vec<ActionKind>,
}

/// Options of an exploration.
#[derive(Debug)]
pub struct ExploreOptions {
    pub candidates: Vec<ExploreCandidate>,
    /// Success criterion, run after a candidate's actions: the candidate passes
    /// iff the evaluator observation is `Success` with exit code 0. Without an
    /// evaluator, a candidate passes when all its actions succeed.
    pub evaluator: Option<ActionKind>,
    /// Concurrent candidate cap (default 4, clamped to the kernel fanout).
    pub max_parallel: Option<usize>,
    /// Skip remaining candidates once one has passed (default true).
    pub early_stop: bool,
    /// Merge the winning branch back into the source branch.
    pub merge_winner: bool,
    /// Discard non-winning branches (default true).
    pub discard_losers: bool,
    /// Per-step budget for candidate and evaluator steps (clamped into each
    /// auto-resolved lease's envelope).
    pub step_budget: Option<ResourceBudget>,
}

/// What `early_stop` and `discard_losers` are when nothing is said of them.
pub fn default_true() -> (r: bool)
    ensures
        r,
{
    true
}

/// Per-candidate outcome of an exploration.
#[derive(Debug)]
pub struct ExploreCandidateReport {
    pub index: usize,
    pub name: Option<String>,
    /// The fork this candidate ran on (`None` when skipped before forking).
    pub branch: Option<BranchId>,
    pub steps: Vec<StepResult>,
    pub evaluation: Option<StepResult>,
    pub passed: bool,
    /// Skipped because early-stop already had a winner.
    pub skipped: bool,
    /// Infrastructure error (fork/step/evaluator), when one occurred.
    pub error: Option<String>,
}

/// Result of an exploration.
#[derive(Debug)]
pub struct ExploreReport {
    pub source: BranchId,
    /// Index of the winning candidate (lowest passing index).
    pub winner: Option<usize>,
    /// Head state of the source branch after merging the winner (when
    /// `merge_winner` was set and the merge succeeded).
    pub merged_state: Option<StateId>,
    /// Why the merge failed, when it did (e.g. a conflict).
    pub merge_error: Option<String>,
    pub candidates: Vec<ExploreCandidateReport>,
    pub discarded: Vec<BranchId>,
}

/// How many candidates run at once.
pub open spec fn parallelism(asked: Option<usize>, fanout: usize) -> int {
    let top = if fanout < 1 {
        1
    } else {
        fanout as int
    };
    let n = match asked {
        Some(n) => n as int,
        None => 4,
    };
    if n < 1 {
        1
    } else if n > top {
        top
    } else {
        n
    }
}

impl ExploreOptions {
    /// How many candidates run at once: as many as asked (four by default), at
    /// least one and at most the kernel's fan-out. There has to be a candidate,
    /// and not too many of them.
    pub fn parallel(&self, max_concurrent_branches: usize) -> (r: KernelResult<usize>)
        ensures
            match r {
                Ok(n) => {
                    &&& 0 < self.candidates@.len() <= MAX_EXPLORE_CANDIDATES
                    &&& n == parallelism(self.max_parallel, max_concurrent_branches)
                },
                Err(e) => if self.candidates@.len() == 0 {
                    e matches KernelError::Other(m) && m@
                        == "explore requires at least one candidate"@
                } else {
                    &&& self.candidates@.len() > MAX_EXPLORE_CANDIDATES
                    &&& e matches KernelError::Other(m) && m@
                        == "explore accepts at most 16 candidates per call"@
                },
            },
    {
        if self.candidates.len() == 0 {
            return Err(
                KernelError::Other("explore requires at least one candidate".to_owned()),
            );
        }
        if self.candidates.len() > MAX_EXPLORE_CANDIDATES {
            return Err(
                KernelError::Other("explore accepts at most 16 candidates per call".to_owned()),
            );
        }
        let top: usize = if max_concurrent_branches < 1 {
            1
        } else {
            max_concurrent_branches
        };
        let n: usize = match self.max_parallel {
            Some(n) => n,
            None => 4,
        };
        if n < 1 {
            Ok(1)
        } else if n > top {
            Ok(top)
        } else {
            Ok(n)
        }
    }
}

/// What a candidate does next.
#[derive(Debug, Clone, Copy, PartialEq, Eq, Structural)]
pub enum ExploreMove {
    /// Fork the source branch.
    Fork,
    /// Run the action at this position on the fork.
    Step(usize),
    /// Run the evaluator on the fork.
    Evaluate,
    /// The candidate is done.
    Done,
}

/// A candidate on its way. Whoever runs it performs each move and hands back
/// what came of it, together with whether some candidate has passed by then.
#[derive(Debug)]
pub struct CandidateRun {
    pub report: ExploreCandidateReport,
    /// How many actions the candidate has.
    pub actions: usize,
    /// Whether an evaluator decides.
    pub evaluated: bool,
    /// Whether the candidate stops once another has passed.
    pub early_stop: bool,
    /// How many actions have succeeded.
    pub done: usize,
}

/// An action counts as succeeded: it ran and succeeded, or it became a pending
/// effect.
pub open spec fn succeeded(o: Observation) -> bool {
    o is Success || o is EffectPending
}

/// An evaluation passes: it succeeded with exit code zero.
pub open spec fn passes(o: Observation) -> bool {
    o matches Observation::Success { exit_code, .. } && exit_code == 0
}

fn is_success(o: &Observation) -> (r: bool)
    ensures
        r == succeeded(*o),
{
    match o {
        Observation::Success { .. } => true,
        Observation::EffectPending { .. } => true,
        _ => false,
    }
}

fn is_pass(o: &Observation) -> (r: bool)
    ensures
        r == passes(*o),
{
    match o {
        Observation::Success { exit_code, .. } => *exit_code == 0,
        _ => false,
    }
}

impl CandidateRun {
    /// The same candidate, with the same settings.
    pub open spec fn same_candidate(self, other: CandidateRun) -> bool {
        &&& self.actions == other.actions
        &&& self.evaluated == other.evaluated
        &&& self.early_stop == other.early_stop
        &&& self.report.index == other.report.index
        &&& self.report.name == other.report.name
    }

    /// The run goes on from where `done` actions have succeeded: it is skipped
    /// if another candidate has won, and decided when nothing is left to do.
    pub open spec fn goes_on(self, before: CandidateRun, won: bool, m: ExploreMove) -> bool {
        &&& self.same_candidate(before)
        &&& self.report.error is None
        &&& if self.done < self.actions {
            if self.early_stop && won {
                m == ExploreMove::Done && self.report.skipped && !self.report.passed
            } else {
                m == ExploreMove::Step(self.done) && !self.report.skipped && !self.report.passed
            }
        } else if self.evaluated {
            m == ExploreMove::Evaluate && !self.report.skipped && !self.report.passed
        } else {
            m == ExploreMove::Done && !self.report.skipped && self.report.passed
        }
    }

    /// A candidate that has not begun.
    pub fn new(index: usize, name: Option<String>, actions: usize, evaluated: bool, early_stop: bool) -> (r:
        Self)
        ensures
            r.fresh(),
            r.actions == actions,
            r.evaluated == evaluated,
            r.early_stop == early_stop,
            r.report.index == index,
            r.report.name == name,
    {
        CandidateRun {
            report: ExploreCandidateReport {
                index,
                name,
                branch: None,
                steps: Vec::new(),
                evaluation: None,
                passed: false,
                skipped: false,
                error: None,
            },
            actions,
            evaluated,
            early_stop,
            done: 0,
        }
    }

    /// Nothing has come of the candidate yet.
    pub open spec fn fresh(self) -> bool {
        &&& self.report.branch is None
        &&& self.report.steps@.len() == 0
        &&& self.report.evaluation is None
        &&& self.open()
        &&& self.done == 0
    }

    /// The candidate is neither decided nor skipped nor failed.
    pub open spec fn open(self) -> bool {
        !self.report.passed && !self.report.skipped && self.report.error is None
    }

    /// The first move: fork, unless another candidate has won already.
    pub fn begin(&mut self, won: bool) -> (m: ExploreMove)
        requires
            old(self).fresh(),
        ensures
            final(self).same_candidate(*old(self)),
            final(self).report.branch is None,
            final(self).report.steps == old(self).report.steps,
            final(self).report.evaluation is None,
            final(self).report.error is None,
            !final(self).report.passed,
            final(self).done == 0,
            final(self).report.skipped == (old(self).early_stop && won),
            m == if old(self).early_stop && won {
                ExploreMove::Done
            } else {
                ExploreMove::Fork
            },
    {
        if self.early_stop && won {
            self.report.skipped = true;
            ExploreMove::Done
        } else {
            ExploreMove::Fork
        }
    }

    fn advance(&mut self, won: bool) -> (m: ExploreMove)
        requires
            old(self).open(),
        ensures
            final(self).goes_on(*old(self), won, m),
            final(self).done == old(self).done,
            final(self).report.branch == old(self).report.branch,
            final(self).report.steps == old(self).report.steps,
            final(self).report.evaluation == old(self).report.evaluation,
    {
        if self.done < self.actions {
            if self.early_stop && won {
                self.report.skipped = true;
                ExploreMove::Done
            } else {
                ExploreMove::Step(self.done)
            }
        } else if self.evaluated {
            ExploreMove::Evaluate
        } else {
            self.report.passed = true;
            ExploreMove::Done
        }
    }

    /// The fork succeeded or failed.
    pub fn forked(&mut self, fork: KernelResult<BranchId>, won: bool) -> (m: ExploreMove)
        requires
            old(self).fresh(),
        ensures
            final(self).same_candidate(*old(self)),
            final(self).done == 0,
            final(self).report.steps == old(self).report.steps,
            final(self).report.evaluation is None,
            match fork {
                Ok(branch) => {
                    &&& final(self).report.branch == Some(branch)
                    &&& final(self).goes_on(*old(self), won, m)
                },
                Err(e) => {
                    &&& m == ExploreMove::Done
                    &&& final(self).report.branch is None
                    &&& !final(self).report.passed
                    &&& !final(self).report.skipped
                    &&& final(self).report.error.deep_view() == Some(
                        "fork failed: "@ + e.spec_message(),
                    )
                },
            },
    {
        match fork {
            Ok(branch) => {
                self.report.branch = Some(branch);
                self.advance(won)
            },
            Err(e) => {
                let message = e.message();
                self.report.error = Some(text::cat2("fork failed: ", message.as_str()));
                ExploreMove::Done
            },
        }
    }

    /// The action at position `done` ran, or could not.
    pub fn stepped(&mut self, step: KernelResult<StepResult>, won: bool) -> (m: ExploreMove)
        requires
            old(self).open(),
            old(self).done < old(self).actions,
        ensures
            final(self).same_candidate(*old(self)),
            final(self).report.branch == old(self).report.branch,
            final(self).report.evaluation == old(self).report.evaluation,
            match step {
                Ok(s) => {
                    &&& final(self).report.steps@ == old(self).report.steps@.push(s)
                    &&& if succeeded(s.observation) {
                        &&& final(self).done == old(self).done + 1
                        &&& final(self).goes_on(*old(self), won, m)
                    } else {
                        &&& m == ExploreMove::Done
                        &&& final(self).open()
                        &&& final(self).done == old(self).done
                    }
                },
                Err(e) => {
                    &&& m == ExploreMove::Done
                    &&& final(self).done == old(self).done
                    &&& final(self).report.steps == old(self).report.steps
                    &&& !final(self).report.passed
                    &&& !final(self).report.skipped
                    &&& final(self).report.error.deep_view() == Some(
                        "step failed: "@ + e.spec_message(),
                    )
                },
            },
    {
        match step {
            Ok(s) => {
                let ok = is_success(&s.observation);
                self.report.steps.push(s);
                if ok {
                    self.done = self.done + 1;
                    self.advance(won)
                } else {
                    ExploreMove::Done
                }
            },
            Err(e) => {
                let message = e.message();
                self.report.error = Some(text::cat2("step failed: ", message.as_str()));
                ExploreMove::Done
            },
        }
    }

    /// The evaluator ran, or could not.
    pub fn judged(&mut self, evaluation: KernelResult<StepResult>) -> (m: ExploreMove)
        requires
            old(self).open(),
        ensures
            m == ExploreMove::Done,
            final(self).same_candidate(*old(self)),
            final(self).done == old(self).done,
            final(self).report.branch == old(self).report.branch,
            final(self).report.steps == old(self).report.steps,
            !final(self).report.skipped,
            match evaluation {
                Ok(s) => {
                    &&& final(self).report.evaluation == Some(s)
                    &&& final(self).report.passed == passes(s.observation)
                    &&& final(self).report.error is None
                },
                Err(e) => {
                    &&& final(self).report.evaluation == old(self).report.evaluation
                    &&& !final(self).report.passed
                    &&& final(self).report.error.deep_view() == Some(
                        "evaluator failed: "@ + e.spec_message(),
                    )
                },
            },
    {
        match evaluation {
            Ok(s) => {
                self.report.passed = is_pass(&s.observation);
                self.report.evaluation = Some(s);
            },
            Err(e) => {
                let message = e.message();
                self.report.error = Some(text::cat2("evaluator failed: ", message.as_str()));
            },
        }
        ExploreMove::Done
    }
}

/// The intent hint of a candidate's action.
pub fn candidate_hint(index: usize) -> (r: String)
    ensures
        r@ == "explore candidate "@ + text::decimal(index as nat),
{
    let i = text::to_decimal(index as u64);
    text::cat2("explore candidate ", i.as_str())
}

/// The intent hint of an evaluation.
pub fn evaluator_hint(index: usize) -> (r: String)
    ensures
        r@ == "explore evaluator "@ + text::decimal(index as nat),
{
    let i = text::to_decimal(index as u64);
    text::cat2("explore evaluator ", i.as_str())
}

/// The candidate wins: it has passed, and no candidate of a lower index has.
pub open spec fn wins(reports: Seq<ExploreCandidateReport>, w: usize) -> bool {
    &&& exists|i: int|
        0 <= i < reports.len() && (#[trigger] reports[i]).passed && reports[i].index == w
    &&& forall|i: int|
        0 <= i < reports.len() && (#[trigger] reports[i]).passed ==> reports[i].index >= w
}

/// The winner: the passing candidate with the lowest index (deterministic
/// regardless of completion order).
pub fn winner_of(reports: &Vec<ExploreCandidateReport>) -> (r: Option<usize>)
    ensures
        match r {
            Some(w) => wins(reports@, w),
            None => forall|i: int| 0 <= i < reports@.len() ==> !(#[trigger] reports@[i]).passed,
        },
{
    let mut best: Option<usize> = None;
    let mut i: usize = 0;
    while i < reports.len()
        invariant
            i <= reports.len(),
            match best {
                Some(w) => {
                    &&& exists|j: int|
                        0 <= j < i && (#[trigger] reports@[j]).passed && reports@[j].index == w
                    &&& forall|j: int|
                        0 <= j < i && (#[trigger] reports@[j]).passed ==> reports@[j].index >= w
                },
                None => forall|j: int| 0 <= j < i ==> !(#[trigger] reports@[j]).passed,
            },
        decreases reports.len() - i,
    {
        if reports[i].passed {
            let lower = match best {
                Some(w) => reports[i].index < w,
                None => true,
            };
            if lower {
                proof {
                    assert(reports@[i as int].passed);
                }
                best = Some(reports[i].index);
            }
        }
        i = i + 1;
    }
    best
}

/// The branches among the first `n` reports that did not win.
pub open spec fn losing(reports: Seq<ExploreCandidateReport>, winner: Option<usize>, n: nat) -> Seq<
    BranchId,
>
    decreases n,
{
    if n == 0 {
        Seq::empty()
    } else {
        let rest = losing(reports, winner, (n - 1) as nat);
        if winner == Some(reports[n - 1].index) {
            rest
        } else {
            match reports[n - 1].branch {
                Some(b) => rest.push(b),
                None => rest,
            }
        }
    }
}

/// The branches to tear down: those of the candidates that did not win, when
/// discarding was asked for.
pub fn losers(
    reports: &Vec<ExploreCandidateReport>,
    winner: Option<usize>,
    discard_losers: bool,
) -> (r: Vec<BranchId>)
    ensures
        r@ == if discard_losers {
            losing(reports@, winner, reports@.len())
        } else {
            Seq::empty()
        },
{
    let mut out: Vec<BranchId> = Vec::new();
    if !discard_losers {
        return out;
    }
    let mut i: usize = 0;
    while i < reports.len()
        invariant
            i <= reports.len(),
            out@ == losing(reports@, winner, i as nat),
        decreases reports.len() - i,
    {
        let won = match winner {
            Some(w) => w == reports[i].index,
            None => false,
        };
        if !won {
            match &reports[i].branch {
                Some(b) => out.push(b.clone()),
                None => {},
            }
        }
        i = i + 1;
    }
    out
}

/// The branch to merge: that of the winner, when merging was asked for.
pub fn merge_candidate(
    reports: &Vec<ExploreCandidateReport>,
    winner: Option<usize>,
    merge_winner: bool,
) -> (r: Option<BranchId>)
    ensures
        match r {
            Some(b) => merge_winner && exists|i: int|
                0 <= i < reports@.len() && winner == Some((#[trigger] reports@[i]).index)
                    && reports@[i].branch == Some(b),
            None => !merge_winner || forall|i: int|
                0 <= i < reports@.len() && winner == Some((#[trigger] reports@[i]).index)
                    ==> reports@[i].branch is None,
        },
{
    if !merge_winner {
        return None;
    }
    let mut i: usize = 0;
    while i < reports.len()
        invariant
            i <= reports.len(),
            merge_winner,
            forall|j: int|
                0 <= j < i && winner == Some((#[trigger] reports@[j]).index)
                    ==> reports@[j].branch is None,
        decreases reports.len() - i,
    {
        let won = match winner {
            Some(w) => w == reports[i].index,
            None => false,
        };
        if won {
            if let Some(b) = &reports[i].branch {
                proof {
                    assert(winner == Some(reports@[i as int].index));
                }
                return Some(b.clone());
            }
        }
        i = i + 1;
    }
    None
}

/// There is a report for each of `n` candidates and no other, and none of them says
/// that a skipped candidate passed.
pub open spec fn reported(reports: Seq<ExploreCandidateReport>, n: nat) -> bool {
    &&& reports.len() == n
    &&& forall|j: usize| j < n ==> #[trigger] reports_on(reports, j)
    &&& forall|k: int|
        0 <= k < reports.len() ==> !((#[trigger] reports[k]).passed && reports[k].skipped)
}

/// One of the reports is that of the candidate at `j`.
pub open spec fn reports_on(reports: Seq<ExploreCandidateReport>, j: usize) -> bool {
    exists|k: int| 0 <= k < reports.len() && (#[trigger] reports[k]).index == j
}

/// The candidates stand in their places, as they were reported.
pub open spec fn placed(
    candidates: Seq<ExploreCandidateReport>,
    reports: Seq<ExploreCandidateReport>,
    n: nat,
) -> bool {
    &&& candidates.len() == n
    &&& forall|i: int|
        0 <= i < n ==> (#[trigger] candidates[i]).index == i && reports.contains(candidates[i])
            && !(candidates[i].passed && candidates[i].skipped)
}

/// The winner among candidates in their places: the first that passed.
pub open spec fn first_passed(candidates: Seq<ExploreCandidateReport>, winner: Option<usize>) -> bool {
    match winner {
        Some(w) => {
            &&& w < candidates.len()
            &&& candidates[w as int].passed
            &&& forall|i: int| 0 <= i < w ==> !(#[trigger] candidates[i]).passed
        },
        None => forall|i: int| 0 <= i < candidates.len() ==> !(#[trigger] candidates[i]).passed,
    }
}

/// Those of the branches that are among `gone`.
pub open spec fn torn_down(branches: Seq<BranchId>, gone: Seq<Seq<char>>) -> Seq<BranchId>
    decreases branches.len(),
{
    if branches.len() == 0 {
        Seq::empty()
    } else {
        let rest = torn_down(branches.drop_last(), gone);
        if gone.contains(branches.last()@) {
            rest.push(branches.last())
        } else {
            rest
        }
    }
}

/// What is torn down was to be torn down.
proof fn lemma_torn_down(branches: Seq<BranchId>, gone: Seq<Seq<char>>, b: BranchId)
    requires
        torn_down(branches, gone).contains(b),
    ensures
        branches.contains(b),
        gone.contains(b@),
    decreases branches.len(),
{
    let rest = torn_down(branches.drop_last(), gone);
    let all = torn_down(branches, gone);
    let i = all.index_of(b);
    if gone.contains(branches.last()@) && i == rest.len() {
        assert(branches[branches.len() - 1] == b);
    } else {
        assert(rest[i] == b);
        lemma_torn_down(branches.drop_last(), gone, b);
        let k = branches.drop_last().index_of(b);
        assert(branches[k] == b);
    }
}

fn holds_branch(branches: &Vec<BranchId>, b: &BranchId) -> (r: bool)
    ensures
        r == branch_names(branches@).contains(b@),
{
    let mut i: usize = 0;
    while i < branches.len()
        invariant
            i <= branches.len(),
            forall|j: int| 0 <= j < i ==> #[trigger] branch_names(branches@)[j] != b@,
        decreases branches.len() - i,
    {
        if text::str_eq(branches[i].as_str(), b.as_str()) {
            proof {
                assert(branch_names(branches@)[i as int] == b@);
            }
            return true;
        }
        i = i + 1;
    }
    false
}

/// Those of the branches that are among `gone`, in their order.
fn keep_torn_down(branches: &Vec<BranchId>, gone: &Vec<BranchId>) -> (r: Vec<BranchId>)
    ensures
        r@ == torn_down(branches@, branch_names(gone@)),
{
    let mut out: Vec<BranchId> = Vec::new();
    let mut i: usize = 0;
    while i < branches.len()
        invariant
            i <= branches.len(),
            out@ == torn_down(branches@.take(i as int), branch_names(gone@)),
        decreases branches.len() - i,
    {
        proof {
            assert(branches@.take(i + 1).drop_last() =~= branches@.take(i as int));
            assert(branches@.take(i + 1).last() == branches@[i as int]);
        }
        if holds_branch(gone, &branches[i]) {
            out.push(branches[i].clone());
        }
        i = i + 1;
    }
    proof {
        assert(branches@.take(branches@.len() as int) =~= branches@);
    }
    out
}

/// Puts the reports into their places, whatever the order in which they came;
/// `None` where they are not one for each candidate.
fn place(reports: Vec<ExploreCandidateReport>, n: usize) -> (r: Option<Vec<ExploreCandidateReport>>)
    ensures
        match r {
            Some(candidates) => reported(reports@, n as nat) && placed(
                candidates@,
                reports@,
                n as nat,
            ),
            None => !reported(reports@, n as nat),
        },
{
    let ghost all = reports@;
    if reports.len() != n {
        return None;
    }
    let mut rest = reports;
    let mut out: Vec<ExploreCandidateReport> = Vec::new();
    let mut i: usize = 0;
    while i < n
        invariant
            i <= n,
            all == reports@,
            all.len() == n,
            out.len() == i,
            rest.len() + i == n,
            placed(out@, all, i as nat),
            forall|j: usize| j < i ==> #[trigger] reports_on(all, j),
            forall|k: int| 0 <= k < rest@.len() ==> all.contains(#[trigger] rest@[k]),
            forall|k: int|
                0 <= k < all.len() ==> rest@.contains(#[trigger] all[k]) || out@.contains(all[k]),
        decreases n - i,
    {
        let mut k: usize = 0;
        while k < rest.len() && rest[k].index != i
            invariant
                k <= rest.len(),
                forall|p: int| 0 <= p < k ==> (#[trigger] rest@[p]).index != i,
            decreases rest.len() - k,
        {
            k = k + 1;
        }
        if k == rest.len() {
            proof {
                if reports_on(all, i) {
                    let q = choose|q: int| 0 <= q < all.len() && (#[trigger] all[q]).index == i;
                    if rest@.contains(all[q]) {
                        let p = rest@.index_of(all[q]);
                        assert(rest@[p].index == i);
                    } else {
                        let p = out@.index_of(all[q]);
                        assert(out@[p].index == p);
                    }
                }
            }
            return None;
        }
        let ghost before = rest@;
        let ghost kept = out@;
        let found = rest.remove(k);
        proof {
            assert(all.contains(found));
            let q = all.index_of(found);
            assert(all[q].index == i);
            assert(reports_on(all, i));
        }
        if found.passed && found.skipped {
            return None;
        }
        out.push(found);
        proof {
            assert forall|p: int| 0 <= p < rest@.len() implies all.contains(#[trigger] rest@[p]) by {
                let q = if p < k { p } else { p + 1 };
                assert(rest@[p] == before[q]);
            }
            assert forall|q: int| 0 <= q < all.len() implies rest@.contains(#[trigger] all[q])
                || out@.contains(all[q]) by {
                if before.contains(all[q]) {
                    let p = before.index_of(all[q]);
                    if p < k {
                        assert(rest@[p] == all[q]);
                    } else if p > k {
                        assert(rest@[p - 1] == all[q]);
                    } else {
                        assert(out@[i as int] == all[q]);
                    }
                } else {
                    let p = kept.index_of(all[q]);
                    assert(out@[p] == all[q]);
                }
            }
            assert forall|p: int| 0 <= p < i + 1 implies (#[trigger] out@[p]).index == p
                && all.contains(out@[p]) && !(out@[p].passed && out@[p].skipped) by {
                if p < i {
                    assert(out@[p] == kept[p]);
                }
            }
        }
        i = i + 1;
    }
    proof {
        assert forall|k: int| 0 <= k < all.len() implies !((#[trigger] all[k]).passed
            && all[k].skipped) by {
            if rest@.contains(all[k]) {
                let p = rest@.index_of(all[k]);
                assert(0 <= p < rest@.len());
            }
            let p = out@.index_of(all[k]);
            assert(out@[p] == all[k]);
        }
    }
    Some(out)
}

/// What comes of an exploration, given what was asked, what the candidates
/// reported, what merging came to, and which branches were torn down: each
/// candidate in its place, the first that passed as the winner, a merge only of a
/// winner and only when it was asked for, and as discarded only losers, and only
/// when discarding was asked for.
pub open spec fn explored(
    source: BranchId,
    options: ExploreOptions,
    reports: Seq<ExploreCandidateReport>,
    merge: Option<KernelResult<StateId>>,
    gone: Seq<Seq<char>>,
    x: ExploreReport,
) -> bool {
    &&& x.source == source
    &&& placed(x.candidates@, reports, options.candidates@.len())
    &&& first_passed(x.candidates@, x.winner)
    &&& match merge {
        Some(outcome) if options.merge_winner && x.winner is Some => match outcome {
            Ok(state) => x.merged_state == Some(state) && x.merge_error is None,
            Err(e) => x.merged_state is None && x.merge_error.deep_view() == Some(
                e.spec_message(),
            ),
        },
        _ => x.merged_state is None && x.merge_error is None,
    }
    &&& x.discarded@ == if options.discard_losers {
        torn_down(losing(x.candidates@, x.winner, x.candidates@.len()), gone)
    } else {
        Seq::empty()
    }
}

/// The report of an exploration. It is owed where the number of candidates is
/// accepted and each of them has reported once.
pub fn explore_report(
    source: &BranchId,
    options: &ExploreOptions,
    reports: Vec<ExploreCandidateReport>,
    merge: Option<KernelResult<StateId>>,
    gone: &Vec<BranchId>,
) -> (r: KernelResult<ExploreReport>)
    ensures
        match r {
            Ok(x) => {
                &&& 0 < options.candidates@.len() <= MAX_EXPLORE_CANDIDATES
                &&& reported(reports@, options.candidates@.len())
                &&& explored(*source, *options, reports@, merge, branch_names(gone@), x)
            },
            Err(e) => if options.candidates@.len() == 0 {
                e matches KernelError::Other(m) && m@ == "explore requires at least one candidate"@
            } else if options.candidates@.len() > MAX_EXPLORE_CANDIDATES {
                e matches KernelError::Other(m) && m@
                    == "explore accepts at most 16 candidates per call"@
            } else {
                &&& !reported(reports@, options.candidates@.len())
                &&& e matches KernelError::Other(m) && m@
                    == "explore candidates did not report once each"@
            },
        },
{
    if let Err(e) = options.parallel(1) {
        return Err(e);
    }
    let candidates = match place(reports, options.candidates.len()) {
        Some(c) => c,
        None => {
            return Err(
                KernelError::Other("explore candidates did not report once each".to_owned()),
            );
        },
    };
    let winner = winner_of(&candidates);
    proof {
        if let Some(w) = winner {
            let i = choose|i: int|
                0 <= i < candidates@.len() && (#[trigger] candidates@[i]).passed
                    && candidates@[i].index == w;
            assert(i == w);
            assert forall|j: int| 0 <= j < w implies !(#[trigger] candidates@[j]).passed by {
                assert(candidates@[j].index == j);
            }
        }
    }
    let (merged_state, merge_error) = match merge {
        Some(outcome) => if options.merge_winner && winner.is_some() {
            match outcome {
                Ok(state) => (Some(state), None),
                Err(e) => (None, Some(e.message())),
            }
        } else {
            (None, None)
        },
        None => (None, None),
    };
    let losing_branches = losers(&candidates, winner, options.discard_losers);
    let discarded = keep_torn_down(&losing_branches, gone);
    Ok(
        ExploreReport {
            source: source.clone(),
            winner,
            merged_state,
            merge_error,
            candidates,
            discarded,
        },
    )
}

/// The branch belongs to a candidate in its place that did not win.
pub open spec fn lost(candidates: Seq<ExploreCandidateReport>, winner: Option<usize>, b: BranchId) -> bool {
    exists|i: int|
        0 <= i < candidates.len() && (#[trigger] candidates[i]).branch == Some(b) && winner != Some(
            candidates[i].index,
        )
}

proof fn lemma_losing(
    candidates: Seq<ExploreCandidateReport>,
    winner: Option<usize>,
    n: nat,
    b: BranchId,
)
    requires
        n <= candidates.len(),
        losing(candidates, winner, n).contains(b),
    ensures
        lost(candidates, winner, b),
    decreases n,
{
    if n > 0 {
        let c = candidates[n - 1];
        let rest = losing(candidates, winner, (n - 1) as nat);
        let all = losing(candidates, winner, n);
        let k = all.index_of(b);
        if k < rest.len() {
            assert(rest[k] == b);
            lemma_losing(candidates, winner, (n - 1) as nat, b);
        } else {
            assert(c.branch == Some(b));
        }
    }
}

/// Every candidate is reported in its place and a skipped one has not passed; the
/// winner is the first that passed; a state is merged only where merging was asked
/// for and somebody won; and only branches that lost are discarded, none where
/// discarding was not asked for.
pub proof fn law_exploration_keeps_to_its_options(
    source: BranchId,
    options: ExploreOptions,
    reports: Seq<ExploreCandidateReport>,
    merge: Option<KernelResult<StateId>>,
    gone: Seq<Seq<char>>,
    x: ExploreReport,
)
    requires
        explored(source, options, reports, merge, gone, x),
    ensures
        x.candidates@.len() == options.candidates@.len(),
        forall|i: int|
            0 <= i < x.candidates@.len() ==> (#[trigger] x.candidates@[i]).index == i && !(
            x.candidates@[i].skipped && x.candidates@[i].passed),
        first_passed(x.candidates@, x.winner),
        x.merged_state is Some ==> options.merge_winner && x.winner is Some,
        forall|b: BranchId| #[trigger]
            x.discarded@.contains(b) ==> options.discard_losers && lost(
                x.candidates@,
                x.winner,
                b,
            ) && gone.contains(b@),
{
    assert forall|b: BranchId| #[trigger] x.discarded@.contains(b) implies options.discard_losers
        && lost(x.candidates@, x.winner, b) && gone.contains(b@) by {
        let all = losing(x.candidates@, x.winner, x.candidates@.len());
        lemma_torn_down(all, gone, b);
        lemma_losing(x.candidates@, x.winner, x.candidates@.len(), b);
    }
}

/// The winner does not depend on the order in which the candidates finished.
pub proof fn law_winner_is_unique(a: Seq<ExploreCandidateReport>, b: Seq<ExploreCandidateReport>, v: usize, w: usize)
    requires
        forall|r: ExploreCandidateReport| #[trigger] a.contains(r) <==> b.contains(r),
        wins(a, v),
        wins(b, w),
    ensures
        v == w,
{
    let i = choose|i: int| 0 <= i < a.len() && (#[trigger] a[i]).passed && a[i].index == v;
    let j = choose|j: int| 0 <= j < b.len() && (#[trigger] b[j]).passed && b[j].index == w;
    assert(a.contains(a[i]));
    assert(b.contains(a[i]));
    assert(b.contains(b[j]));
    assert(a.contains(b[j]));
    let p = choose|p: int| 0 <= p < b.len() && b[p] == a[i];
    let q = choose|q: int| 0 <= q < a.len() && a[q] == b[j];
    assert(b[p].passed && a[q].passed);
}

/// At least one candidate runs at a time, and never more than the fan-out allows; what
/// was asked for counts where it lies between, and four where nothing was asked for.
pub proof fn law_parallelism_keeps_to_the_fanout(asked: Option<usize>, fanout: usize)
    ensures
        1 <= parallelism(asked, fanout),
        fanout >= 1 ==> parallelism(asked, fanout) <= fanout,
        fanout == 0 ==> parallelism(asked, fanout) == 1,
        asked matches Some(n) ==> 1 <= n && n <= fanout ==> parallelism(asked, fanout) == n,
        asked matches Some(n) ==> n > fanout && fanout >= 1 ==> parallelism(asked, fanout) == fanout,
        asked is None && fanout >= 4 ==> parallelism(asked, fanout) == 4,
        asked is None && 1 <= fanout && fanout < 4 ==> parallelism(asked, fanout) == fanout,
{
}

/// An action has succeeded when it ran through or waits as an effect; an evaluation
/// passes only by exit code zero.
pub proof fn law_outcomes_are_told_by_their_kind(o: Observation)
    ensures
        succeeded(o) <==> o is Success || o is EffectPending,
        o is Failure || o is Denied || o is EffectCommitted ==> !succeeded(o) && !passes(o),
        o matches Observation::Success { exit_code, .. } ==> (passes(o) <==> exit_code == 0),
        passes(o) ==> succeeded(o),
        o is EffectPending ==> !passes(o),
{
}

/// A candidate goes on with its next action until none is left, then to its
/// evaluation; without one it has passed. It is skipped only if it is to stop early,
/// somebody has won, and something is left to do.
pub proof fn law_candidates_go_on_in_order(
    run: CandidateRun,
    before: CandidateRun,
    won: bool,
    m: ExploreMove,
)
    requires
        run.goes_on(before, won, m),
    ensures
        run.report.skipped <==> run.done < run.actions && run.early_stop && won,
        run.report.passed <==> run.done >= run.actions && !run.evaluated,
        m is Step <==> run.done < run.actions && !(run.early_stop && won),
        m matches ExploreMove::Step(i) ==> i == run.done,
        m is Evaluate <==> run.done >= run.actions && run.evaluated,
        m is Done <==> run.report.skipped || run.report.passed,
        run.report.error is None,
        run.report.index == before.report.index,
{
}

/// The losing branches are those of all candidates but the winner, in order.
pub proof fn law_all_but_the_winner_lose(
    reports: Seq<ExploreCandidateReport>,
    winner: Option<usize>,
    n: nat,
)
    requires
        n < reports.len(),
    ensures
        losing(reports, winner, 0).len() == 0,
        winner == Some(reports[n as int].index) ==> losing(reports, winner, n + 1) == losing(
            reports,
            winner,
            n,
        ),
        winner != Some(reports[n as int].index) ==> (reports[n as int].branch matches Some(b)
            ==> losing(reports, winner, n + 1) == losing(reports, winner, n).push(b)),
        reports[n as int].branch is None ==> losing(reports, winner, n + 1) == losing(
            reports,
            winner,
            n,
        ),
{
}

/// Of the branches that were to go those are reported that are gone, in order.
pub proof fn law_only_what_is_gone_is_reported(
    branches: Seq<BranchId>,
    b: BranchId,
    gone: Seq<Seq<char>>,
)
    ensures
        torn_down(Seq::empty(), gone).len() == 0,
        gone.contains(b@) ==> torn_down(branches.push(b), gone) == torn_down(branches, gone).push(b),
        !gone.contains(b@) ==> torn_down(branches.push(b), gone) == torn_down(branches, gone),
{
    assert(branches.push(b).drop_last() =~= branches);
}

/// A winner is merged exactly as the merge went: its state where it went through, its
/// reason where it did not, and neither where none was asked for.
pub proof fn law_merges_are_reported_as_they_went(
    source: BranchId,
    options: ExploreOptions,
    reports: Seq<ExploreCandidateReport>,
    merge: Option<KernelResult<StateId>>,
    gone: Seq<Seq<char>>,
    x: ExploreReport,
)
    requires
        explored(source, options, reports, merge, gone, x),
    ensures
        x.source == source,
        !options.merge_winner || x.winner is None || merge is None ==> x.merged_state is None
            && x.merge_error is None,
        options.merge_winner && x.winner is Some && (merge matches Some(Ok(_))) ==> x.merged_state
            == Some(merge->0->Ok_0) && x.merge_error is None,
        options.merge_winner && x.winner is Some && (merge matches Some(Err(_))) ==> x.merged_state
            is None && x.merge_error.deep_view() == Some(merge->0->Err_0.spec_message()),
        !options.discard_losers ==> x.discarded@.len() == 0,
        (exists|i: int| 0 <= i < x.candidates@.len() && (#[trigger] x.candidates@[i]).passed)
            <==> x.winner is Some,
        x.winner matches Some(w) ==> w < x.candidates@.len() && x.candidates@[w as int].passed
            && forall|i: int| 0 <= i < w ==> !(#[trigger] x.candidates@[i]).passed,
        forall|i: int|
            0 <= i < x.candidates@.len() ==> reports.contains(#[trigger] x.candidates@[i]),
{
    if x.winner is Some {
        assert(x.candidates@[x.winner->0 as int].passed);
    }
}

/// A candidate wins exactly if it has passed and no candidate before it has.
pub proof fn law_first_to_pass_wins(reports: Seq<ExploreCandidateReport>, w: usize, i: int)
    requires
        wins(reports, w),
        0 <= i < reports.len(),
    ensures
        reports[i].index < w ==> !reports[i].passed,
        exists|k: int| 0 <= k < reports.len() && #[trigger] reports[k].passed && reports[k].index == w,
{
    let k = choose|k: int|
        0 <= k < reports.len() && (#[trigger] reports[k]).passed && reports[k].index == w;
    assert(reports[k].passed);
}

/// No candidate before the winner has passed; a branch is merged only where that was
/// asked for and somebody won.
pub proof fn law_winner_passed_before_all_others(
    reports: &Vec<ExploreCandidateReport>,
    r: Option<usize>,
    merge: bool,
    b: Option<BranchId>,
    i: int,
)
    requires
        call_ensures(winner_of, (reports,), r),
        call_ensures(merge_candidate, (reports, r, merge), b),
        0 <= i < reports@.len(),
    ensures
        r matches Some(w) ==> reports@[i].passed ==> w <= reports@[i].index,
        !merge ==> b is None,
        r is None ==> b is None,
{
    if let Some(w) = r {
        assert(wins(reports@, w));
        law_first_to_pass_wins(reports@, w, i);
    }
}

/// Reports that stand in the places of their candidates report on all of them.
pub proof fn law_reports_in_place_are_complete(reports: Seq<ExploreCandidateReport>)
    requires
        reports.len() <= usize::MAX,
        forall|k: int| 0 <= k < reports.len() ==> (#[trigger] reports[k]).index == k,
        forall|k: int|
            0 <= k < reports.len() ==> !((#[trigger] reports[k]).passed && reports[k].skipped),
    ensures
        reported(reports, reports.len()),
        placed(reports, reports, reports.len()),
{
    assert forall|j: usize| j < reports.len() implies #[trigger] reports_on(reports, j) by {
        assert(reports[j as int].index == j);
    }
    assert forall|i: int| 0 <= i < reports.len() implies reports.contains(#[trigger] reports[i]) by {
    }
}

} // verus!
