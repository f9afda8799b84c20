//! Automatic lease resolution: the narrowest lease that authorizes a step, or a
//! fresh one.
use vstd::prelude::*;
use crate::action::{Action, ActionKind};
use crate::api::branch::Branch;
use crate::api::capabilities::requested;
use crate::api::kernel::Kernel;
use crate::api::step::{StepStart, started};
use crate::budget::ResourceBudget;
use crate::capability::{CapabilityLease, LeaseView};
use crate::error::KernelResult;
use crate::identity::lease_store::{active_among, held};
use crate::ids::{BranchId, LeaseId, PrincipalId};
use crate::json::Json;
use crate::ledger::store::room_for;
use crate::policy::engine::expiry_in_range;
use crate::sorted::in_order;
use crate::time::Timestamp;

verus! {

/// A step with its lease, and whether the lease was minted for it.
#[derive(Debug)]
pub struct AutoStart {
    pub start: StepStart,
    /// The action as it was presented.
    pub action: Action,
    /// The lease the kernel selected or minted for this step.
    pub lease: LeaseId,
    /// Whether the lease was minted by this call (vs. reusing an active one).
    pub lease_minted: bool,
}

/// `a` is spent before `b`: narrow authority before broad authority, and of two
/// equally narrow ones the one that expires sooner.
pub open spec fn narrower_lease(a: LeaseView, b: LeaseView) -> bool {
    ||| a.bound_branch is Some && b.bound_branch is None
    ||| a.bound_branch is Some == b.bound_branch is Some && a.expires_at.before(b.expires_at)
}

/// What a step needs of a lease.
pub struct Need {
    pub principal: Seq<char>,
    pub operation: Seq<char>,
    pub params: Json,
    pub branch: Seq<char>,
    pub now: Timestamp,
}

impl Need {
    /// The lease authorizes the step.
    pub open spec fn met_by(self, l: LeaseView) -> bool {
        l.refusal(self.principal, self.operation, self.params, Some(self.branch), self.now) is None
    }
}

/// The position of the lease that is spent, among the first `n`.
pub open spec fn pick(leases: Seq<LeaseView>, need: Need, n: nat) -> Option<int>
    decreases n,
{
    if n == 0 {
        None
    } else {
        let before = pick(leases, need, (n - 1) as nat);
        if !need.met_by(leases[n - 1]) {
            before
        } else {
            match before {
                None => Some(n - 1),
                Some(k) => if narrower_lease(leases[n - 1], leases[k]) {
                    Some(n - 1)
                } else {
                    before
                },
            }
        }
    }
}

/// The leases that a principal can use now, by identifier.
pub open spec fn usable(leases: Map<Seq<char>, LeaseView>, principal: Seq<char>, now: Timestamp) -> Seq<
    LeaseView,
> {
    active_among(held(leases, in_order(leases.dom()), principal), now)
}

/// The lease that is spent on a step, if the principal holds one for it.
pub open spec fn chosen_lease(leases: Map<Seq<char>, LeaseView>, need: Need) -> Option<LeaseView> {
    let all = usable(leases, need.principal, need.now);
    match pick(all, need, all.len()) {
        Some(k) => Some(all[k]),
        None => None,
    }
}

/// The need of an action.
pub open spec fn need_of(principal: Seq<char>, kind: ActionKind, branch: Seq<char>, now: Timestamp) -> Need {
    Need {
        principal,
        operation: kind.spec_required_operation(),
        params: kind.spec_params(),
        branch,
        now,
    }
}

/// The budget of a step: the given one or the default, inside the envelope of
/// its lease.
pub open spec fn step_budget(budget: Option<ResourceBudget>, lease: ResourceBudget) -> ResourceBudget {
    match budget {
        Some(b) => b.meet(lease),
        None => ResourceBudget::spec_step_default().meet(lease),
    }
}

/// The action presents the kind under the lease.
pub open spec fn presents(
    a: Action,
    kind: ActionKind,
    intent_hint: Option<String>,
    budget: Option<ResourceBudget>,
    lease: LeaseView,
) -> bool {
    &&& a.kind == kind
    &&& a.intent_hint == intent_hint
    &&& a.lease@ == lease.id
    &&& a.budget == step_budget(budget, lease.budget)
}

impl Kernel {
    /// The narrowest active lease that authorizes the action on this branch:
    /// branch-bound leases before unbound ones, then the one expiring soonest.
    pub fn choose_lease(
        &self,
        principal: &PrincipalId,
        branch: &BranchId,
        kind: &ActionKind,
        now: Timestamp,
    ) -> (r: Option<CapabilityLease>)
        ensures
            match (r, chosen_lease(self.leases@, need_of(principal@, *kind, branch@, now))) {
                (Some(l), Some(v)) => l@ == v,
                (None, None) => true,
                _ => false,
            },
    {
        let ghost need = need_of(principal@, *kind, branch@, now);
        let operation = kind.required_operation();
        let params = kind.params();
        let all = self.leases.active_for_principal(principal, now);
        let ghost av = all.deep_view();
        let mut best: Option<usize> = None;
        let mut i: usize = 0;
        while i < all.len()
            invariant
                i <= all.len(),
                av == all.deep_view(),
                need == need_of(principal@, *kind, branch@, now),
                operation@ == need.operation,
                params@ == need.params,
                match (best, pick(av, need, i as nat)) {
                    (Some(b), Some(k)) => b == k && b < i,
                    (None, None) => true,
                    _ => false,
                },
            decreases all.len() - i,
        {
            let lease = &all[i];
            proof {
                assert(av[i as int] == lease@);
            }
            if lease.check(principal, &operation, &params, Some(branch), now).is_ok() {
                let better = match best {
                    None => true,
                    Some(b) => {
                        let current = &all[b];
                        proof {
                            assert(av[b as int] == current@);
                        }
                        let bound = lease.bound_branch.is_some();
                        let was = current.bound_branch.is_some();
                        (bound && !was) || (bound == was && lease.expires_at.is_before(
                            &current.expires_at,
                        ))
                    },
                };
                if better {
                    best = Some(i);
                }
            }
            i = i + 1;
        }
        match best {
            Some(b) => {
                proof {
                    assert(av[b as int] == all@[b as int]@);
                }
                Some(all[b].clone())
            },
            None => None,
        }
    }

    /// Start a step with automatic lease resolution: the kernel finds the
    /// narrowest active lease that authorizes the action on this branch, or
    /// mints one through the policy engine, and picks a step budget clamped
    /// inside the lease envelope. A policy denial (or approval requirement)
    /// propagates as the structured denial.
    pub fn execute_step_auto(
        &mut self,
        principal: &PrincipalId,
        branch: &Branch,
        kind: ActionKind,
        intent_hint: Option<String>,
        budget: Option<ResourceBudget>,
        now: Timestamp,
    ) -> (r: KernelResult<AutoStart>)
        requires
            old(self).wf(),
            room_for(old(self).ledger.events(), 4),
            old(self).registry@.contains_key(principal@) ==> expiry_in_range(
                &old(self).policy.spec_document(),
                &old(self).registry@[principal@],
                kind.spec_required_operation(),
                kind.spec_params(),
                now,
            ),
        ensures
            final(self).wf(),
            match chosen_lease(
                old(self).leases@,
                need_of(principal@, kind, branch.id@, now),
            ) {
                Some(l) => started_under(
                    *old(self),
                    *final(self),
                    principal@,
                    *branch,
                    kind,
                    intent_hint,
                    budget,
                    l,
                    false,
                    now,
                    r,
                ),
                None => {
                    ||| r matches Err(e) && requested(
                        *old(self),
                        *final(self),
                        principal@,
                        kind.spec_required_operation(),
                        kind.spec_params(),
                        Some(branch),
                        now,
                        Err(e),
                    )
                    ||| exists|mid: Kernel, l: CapabilityLease|
                        #[trigger] requested(
                            *old(self),
                            mid,
                            principal@,
                            kind.spec_required_operation(),
                            kind.spec_params(),
                            Some(branch),
                            now,
                            Ok(l),
                        ) && started_under(
                            mid,
                            *final(self),
                            principal@,
                            *branch,
                            kind,
                            intent_hint,
                            budget,
                            l@,
                            true,
                            now,
                            r,
                        )
                },
            },
    {
        let (lease, lease_minted) = match self.choose_lease(principal, &branch.id, &kind, now) {
            Some(l) => (l, false),
            None => {
                let operation = kind.required_operation();
                let params = kind.params();
                match self.request_capability(principal, &operation, &params, Some(branch), now) {
                    Ok(l) => (l, true),
                    Err(e) => {
                        return Err(e);
                    },
                }
            },
        };
        let ghost mid = *self;
        let budget0 = match budget {
            Some(b) => b.clamped_to(&lease.budget),
            None => ResourceBudget::step_default().clamped_to(&lease.budget),
        };
        let action = Action { kind, lease: lease.id.clone(), intent_hint, budget: budget0 };
        proof {
            assert(presents(action, kind, intent_hint, budget, lease@));
        }
        match self.execute_step(principal, branch, &action, now) {
            Ok(start) => Ok(AutoStart { start, action, lease: lease.id, lease_minted }),
            Err(e) => {
                proof {
                    assert(started(mid, *self, principal@, *branch, action, now, Err(e)));
                }
                Err(e)
            },
        }
    }
}

/// The step was started under the lease.
pub open spec fn started_under(
    before: Kernel,
    after: Kernel,
    principal: Seq<char>,
    branch: Branch,
    kind: ActionKind,
    intent_hint: Option<String>,
    budget: Option<ResourceBudget>,
    lease: LeaseView,
    minted: bool,
    now: Timestamp,
    r: KernelResult<AutoStart>,
) -> bool {
    match r {
        Ok(a) => {
            &&& presents(a.action, kind, intent_hint, budget, lease)
            &&& a.lease@ == lease.id
            &&& a.lease_minted == minted
            &&& started(before, after, principal, branch, a.action, now, Ok(a.start))
        },
        Err(e) => exists|action: Action|
            #[trigger] presents(action, kind, intent_hint, budget, lease) && started(
                before,
                after,
                principal,
                branch,
                action,
                now,
                Err(e),
            ),
    }
}

/// The lease that is spent authorizes the step, and of all that do none is
/// narrower; a lease is spent whenever some lease authorizes the step.
pub proof fn law_narrowest_lease_is_spent(leases: Seq<LeaseView>, need: Need, n: nat)
    requires
        n <= leases.len(),
    ensures
        match pick(leases, need, n) {
            Some(k) => {
                &&& 0 <= k < n
                &&& need.met_by(leases[k])
                &&& forall|j: int|
                    0 <= j < n && need.met_by(#[trigger] leases[j]) ==> !narrower_lease(
                        leases[j],
                        leases[k],
                    )
            },
            None => forall|j: int| 0 <= j < n ==> !need.met_by(#[trigger] leases[j]),
        },
    decreases n,
{
    if n > 0 {
        law_narrowest_lease_is_spent(leases, need, (n - 1) as nat);
    }
}

/// The budget of an automatic step always fits the envelope of its lease.
pub proof fn law_automatic_budgets_fit(budget: Option<ResourceBudget>, lease: ResourceBudget)
    ensures
        step_budget(budget, lease).within(lease),
{
}

/// The lease that is spent, of those that authorize the step: one that is bound to a
/// branch wherever some is, and among those bound alike none that expires sooner is
/// passed over.
pub proof fn law_bound_and_short_leases_go_first(leases: Seq<LeaseView>, need: Need, j: int)
    requires
        0 <= j < leases.len(),
        need.met_by(leases[j]),
    ensures
        pick(leases, need, leases.len()) matches Some(k) && {
            let l = leases[k];
            &&& 0 <= k < leases.len()
            &&& need.met_by(l)
            &&& leases[j].bound_branch is Some ==> l.bound_branch is Some
            &&& (leases[j].bound_branch is Some) == (l.bound_branch is Some) ==> {
                ||| l.expires_at.secs < leases[j].expires_at.secs
                ||| l.expires_at.secs == leases[j].expires_at.secs && l.expires_at.nanos
                    <= leases[j].expires_at.nanos
            }
        },
{
    law_narrowest_lease_is_spent(leases, need, leases.len());
}

/// A lease is spent on a step only if it authorizes it, and if the principal holds
/// any usable lease that does, one is spent; it stands in the store as it is.
pub proof fn law_spent_leases_authorize_the_step(
    leases: Map<Seq<char>, LeaseView>,
    need: Need,
)
    ensures
        chosen_lease(leases, need) matches Some(l) ==> l.refusal(
            need.principal,
            need.operation,
            need.params,
            Some(need.branch),
            need.now,
        ) is None && usable(leases, need.principal, need.now).contains(l),
        chosen_lease(leases, need) is None ==> forall|i: int|
            0 <= i < usable(leases, need.principal, need.now).len() ==> (#[trigger] usable(
                leases,
                need.principal,
                need.now,
            )[i]).refusal(
                need.principal,
                need.operation,
                need.params,
                Some(need.branch),
                need.now,
            ) is Some,
{
    let all = usable(leases, need.principal, need.now);
    law_narrowest_lease_is_spent(all, need, all.len());
    if let Some(k) = pick(all, need, all.len()) {
        assert(all[k] == chosen_lease(leases, need)->0);
    } else {
        assert forall|i: int| 0 <= i < all.len() implies (#[trigger] all[i]).refusal(
            need.principal,
            need.operation,
            need.params,
            Some(need.branch),
            need.now,
        ) is Some by {
            assert(!need.met_by(all[i]));
        }
    }
}

/// The budget of an automatic step is the one that was given, or the default one, cut
/// to the envelope of the lease in every dimension.
pub proof fn law_automatic_budgets_are_cut_to_the_lease(
    budget: Option<ResourceBudget>,
    lease: ResourceBudget,
)
    ensures
        ({
            let asked = match budget {
                Some(b) => b,
                None => ResourceBudget {
                    cpu_ms: 60_000,
                    memory_bytes: 2_147_483_648,
                    network_bytes: 268_435_456,
                    tokens: 200_000,
                    cost_micro_usd: 0,
                    risk_units: 10,
                },
            };
            let r = step_budget(budget, lease);
            &&& r.within(asked) && r.within(lease)
            &&& r.cpu_ms == asked.cpu_ms || r.cpu_ms == lease.cpu_ms
            &&& r.memory_bytes == asked.memory_bytes || r.memory_bytes == lease.memory_bytes
            &&& r.network_bytes == asked.network_bytes || r.network_bytes == lease.network_bytes
            &&& r.tokens == asked.tokens || r.tokens == lease.tokens
            &&& r.cost_micro_usd == asked.cost_micro_usd || r.cost_micro_usd
                == lease.cost_micro_usd
            &&& r.risk_units == asked.risk_units || r.risk_units == lease.risk_units
        }),
{
}

/// An automatic step presents the action as it was asked for, under the lease that was
/// chosen, and says which one and whether it was minted for it.
pub proof fn law_automatic_steps_name_their_lease(
    before: Kernel,
    after: Kernel,
    principal: Seq<char>,
    branch: Branch,
    kind: ActionKind,
    intent_hint: Option<String>,
    budget: Option<ResourceBudget>,
    lease: LeaseView,
    minted: bool,
    now: Timestamp,
    r: KernelResult<AutoStart>,
)
    requires
        started_under(
            before,
            after,
            principal,
            branch,
            kind,
            intent_hint,
            budget,
            lease,
            minted,
            now,
            r,
        ),
    ensures
        r matches Ok(a) ==> {
            &&& a.action.kind == kind && a.action.intent_hint == intent_hint
            &&& a.action.lease@ == lease.id && a.lease@ == lease.id
            &&& a.lease_minted == minted
            &&& budget matches Some(b) ==> a.action.budget == b.meet(lease.budget)
            &&& a.action.budget.within(lease.budget)
            &&& started(before, after, principal, branch, a.action, now, Ok(a.start))
        },
{
}

/// What a step needs is the capability of its action, with its parameters, on its
/// branch, now.
pub proof fn law_needs_are_those_of_the_action(
    principal: Seq<char>,
    kind: ActionKind,
    branch: Seq<char>,
    now: Timestamp,
)
    ensures
        need_of(principal, kind, branch, now).principal == principal,
        need_of(principal, kind, branch, now).operation == kind.spec_required_operation(),
        need_of(principal, kind, branch, now).params == kind.spec_params(),
        need_of(principal, kind, branch, now).branch == branch,
        need_of(principal, kind, branch, now).now == now,
{
}

} // verus!
