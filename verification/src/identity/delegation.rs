//! Audited delegation: registry-checked attenuation of capability leases.
use indexmap::IndexMap;
use vstd::prelude::*;
use crate::budget::ResourceBudget;
use crate::capability::{
    CapabilityLease, Constraint, LeaseView, ShareView, law_attenuation_never_escalates,
};
use crate::constraints::{all_hold, constraints_view};
use crate::identity::error::{IdentityError, IdentityResult};
use crate::identity::lease_store::{LeaseStore, unknown_lease, unusable};
use crate::identity::registry::{
    MAX_LINEAGE, PrincipalRegistry, ancestors, descends, endless_lineage, unknown_principal,
};
use crate::ids::{LeaseId, PrincipalId, generated};
use crate::json::Json;
use crate::principal::Principal;
use crate::text;
use crate::time::Timestamp;

verus! {

/// One recorded delegation event, kept for audit.
#[derive(Debug, PartialEq, Eq)]
pub struct DelegationRecord {
    /// The lease that was attenuated.
    pub parent_lease: LeaseId,
    /// The newly issued child lease.
    pub child_lease: LeaseId,
    /// The principal that performed the delegation.
    pub delegator: PrincipalId,
    /// The principal that received the attenuated lease.
    pub delegatee: PrincipalId,
    pub delegated_at: Timestamp,
}

/// Why a delegation is refused.
pub enum Refusal {
    UnknownLease,
    NotTheHolder,
    UnknownDelegatee,
    EndlessLineage,
    NotADescendant,
    Unusable(Seq<char>),
    Attenuation(crate::capability::AttenuationView),
}

/// Why a delegation is refused, the first reason in the order of the checks;
/// `None` when it is not. Only the holder of a lease delegates it, to itself or
/// to one of its descendants, and only while the lease can be used.
pub open spec fn delegation_refusal(
    principals: Map<Seq<char>, Principal>,
    leases: Map<Seq<char>, LeaseView>,
    delegator: Seq<char>,
    lease: Seq<char>,
    share: ShareView,
    now: Timestamp,
) -> Option<Refusal> {
    if !leases.contains_key(lease) {
        Some(Refusal::UnknownLease)
    } else if leases[lease].principal != delegator {
        Some(Refusal::NotTheHolder)
    } else if !principals.contains_key(share.principal) {
        Some(Refusal::UnknownDelegatee)
    } else if share.principal != delegator && ancestors(
        principals,
        share.principal,
        MAX_LINEAGE as nat,
    ) is None {
        Some(Refusal::EndlessLineage)
    } else if share.principal != delegator && !descends(principals, share.principal, delegator) {
        Some(Refusal::NotADescendant)
    } else {
        match unusable(leases[lease], now) {
            Some(reason) => Some(Refusal::Unusable(reason)),
            None => match leases[lease].attenuation_refusal(share) {
                Some(why) => Some(Refusal::Attenuation(why)),
                None => None,
            },
        }
    }
}

/// The error for a refused delegation.
pub open spec fn delegation_error(
    e: IdentityError,
    why: Refusal,
    delegator: Seq<char>,
    lease: Seq<char>,
    delegatee: Seq<char>,
) -> bool {
    match why {
        Refusal::UnknownLease => unknown_lease(e, lease),
        Refusal::NotTheHolder => e matches IdentityError::DelegationRejected(m) && m@ == "lease `"@
            + lease + "` is not held by `"@ + delegator + "`"@,
        Refusal::UnknownDelegatee => unknown_principal(e, delegatee),
        Refusal::EndlessLineage => endless_lineage(e),
        Refusal::NotADescendant => e matches IdentityError::DelegationRejected(m) && m@ == "`"@
            + delegatee + "` is neither `"@ + delegator + "` nor one of its descendants"@,
        Refusal::Unusable(reason) => e matches IdentityError::LeaseUnusable { lease: l, reason: r }
            && l@ == lease && r@ == reason,
        Refusal::Attenuation(v) => e matches IdentityError::Attenuation(a) && a@ == v,
    }
}

/// The audited wrapper around [`CapabilityLease::attenuate`].
#[derive(Debug)]
pub struct DelegationService {
    records: Vec<DelegationRecord>,
}

impl DelegationService {
    /// The delegations so far, in order.
    pub closed spec fn view(&self) -> Seq<DelegationRecord> {
        self.records@
    }

    /// A service that has recorded nothing.
    pub fn new() -> (r: Self)
        ensures
            r@ == Seq::<DelegationRecord>::empty(),
    {
        DelegationService { records: Vec::new() }
    }

    /// The delegations so far, in order.
    pub fn records(&self) -> (r: &Vec<DelegationRecord>)
        ensures
            r@ == self@,
    {
        &self.records
    }

    /// Delegate (attenuate) a lease from `delegator` to `delegatee`: the child
    /// lease is issued, and the delegation recorded.
    pub fn delegate(
        &mut self,
        registry: &PrincipalRegistry,
        leases: &mut LeaseStore,
        delegator: &PrincipalId,
        parent_lease: &LeaseId,
        delegatee: &PrincipalId,
        constraints: &IndexMap<String, Constraint>,
        uses: u32,
        expires_at: Timestamp,
        budget: ResourceBudget,
        now: Timestamp,
    ) -> (r: IdentityResult<CapabilityLease>)
        requires
            old(leases).wf(),
        ensures
            final(leases).wf(),
            ({
                let share = ShareView {
                    principal: delegatee@,
                    constraints: constraints_view(*constraints),
                    uses,
                    expires_at,
                    budget,
                };
                match (
                    r,
                    delegation_refusal(
                        registry@,
                        old(leases)@,
                        delegator@,
                        parent_lease@,
                        share,
                        now,
                    ),
                ) {
                    (Ok(child), None) => {
                        &&& generated(child.id@, "lease-"@)
                        &&& child@ == old(leases)@[parent_lease@].attenuated(share, child.id@, now)
                        &&& final(leases)@ == old(leases)@.insert(child.id@, child@)
                        &&& final(self)@ == old(self)@.push(
                            (DelegationRecord {
                                parent_lease: *parent_lease,
                                child_lease: child.id,
                                delegator: *delegator,
                                delegatee: *delegatee,
                                delegated_at: now,
                            }),
                        )
                    },
                    (Err(e), Some(why)) => {
                        &&& delegation_error(e, why, delegator@, parent_lease@, delegatee@)
                        &&& final(leases)@ == old(leases)@
                        &&& final(self)@ == old(self)@
                    },
                    _ => false,
                }
            }),
    {
        let parent = match leases.get(parent_lease) {
            Ok(l) => l,
            Err(e) => {
                return Err(e);
            },
        };
        if parent.principal != *delegator {
            return Err(
                IdentityError::DelegationRejected(
                    text::cat5(
                        "lease `",
                        parent_lease.as_str(),
                        "` is not held by `",
                        delegator.as_str(),
                        "`",
                    ),
                ),
            );
        }
        if !registry.is_registered(delegatee) {
            return Err(IdentityError::UnknownPrincipal(delegatee.as_str().to_owned()));
        }
        match registry.is_self_or_descendant(delegatee, delegator) {
            Ok(true) => {},
            Ok(false) => {
                return Err(
                    IdentityError::DelegationRejected(
                        text::cat5(
                            "`",
                            delegatee.as_str(),
                            "` is neither `",
                            delegator.as_str(),
                            "` nor one of its descendants",
                        ),
                    ),
                );
            },
            Err(e) => {
                return Err(e);
            },
        }
        if let Some(reason) = unusable_reason(&parent, now) {
            return Err(
                IdentityError::LeaseUnusable {
                    lease: parent_lease.as_str().to_owned(),
                    reason: reason.to_owned(),
                },
            );
        }
        let child = match parent.attenuate(delegatee, constraints, uses, expires_at, budget, now) {
            Ok(c) => c,
            Err(a) => {
                return Err(IdentityError::Attenuation(a));
            },
        };
        leases.issue(&child);
        self.records.push(
            DelegationRecord {
                parent_lease: parent_lease.clone(),
                child_lease: child.id.clone(),
                delegator: delegator.clone(),
                delegatee: delegatee.clone(),
                delegated_at: now,
            },
        );
        Ok(child)
    }
}

fn unusable_reason(l: &CapabilityLease, now: Timestamp) -> (r: Option<&'static str>)
    ensures
        match (r, unusable(l@, now)) {
            (Some(a), Some(b)) => a@ == b,
            (None, None) => true,
            _ => false,
        },
{
    if l.revoked {
        Some("revoked")
    } else if !now.is_before(&l.expires_at) {
        Some("expired")
    } else if l.remaining_uses == 0 {
        Some("exhausted")
    } else {
        None
    }
}

/// No one delegates what it does not hold: where a delegation succeeds, the
/// delegator holds the parent lease, the delegatee is the delegator or descends
/// from it, and what the child lease authorizes keeps within the parent lease.
pub proof fn law_delegation_stays_within_the_holder(
    principals: Map<Seq<char>, Principal>,
    leases: Map<Seq<char>, LeaseView>,
    delegator: Seq<char>,
    lease: Seq<char>,
    share: ShareView,
    id: Seq<char>,
    issued: Timestamp,
    operation: Seq<char>,
    params: Json,
    branch: Option<Seq<char>>,
    now: Timestamp,
)
    requires
        delegation_refusal(principals, leases, delegator, lease, share, issued) is None,
        leases[lease].attenuated(share, id, issued).authorizes(
            share.principal,
            operation,
            params,
            branch,
            now,
        ),
    ensures
        leases[lease].principal == delegator,
        share.principal == delegator || descends(principals, share.principal, delegator),
        leases[lease].active(issued),
        operation == leases[lease].operation,
        leases[lease].branch_ok(branch),
        now.before(leases[lease].expires_at),
        all_hold(leases[lease].constraints, params),
        share.budget.within(leases[lease].budget),
        share.uses <= leases[lease].remaining_uses,
{
    law_attenuation_never_escalates(
        leases[lease],
        share,
        id,
        issued,
        operation,
        params,
        branch,
        now,
    );
}

/// A delegation is refused for one of seven reasons, and only then: each is given
/// where those before it do not hold.
pub proof fn law_refused_delegations_say_why(
    principals: Map<Seq<char>, Principal>,
    leases: Map<Seq<char>, LeaseView>,
    delegator: Seq<char>,
    lease: Seq<char>,
    share: ShareView,
    now: Timestamp,
)
    ensures
        ({
            let r = delegation_refusal(principals, leases, delegator, lease, share, now);
            let known = leases.contains_key(lease);
            let holds = known && leases[lease].principal == delegator;
            let there = holds && principals.contains_key(share.principal);
            let own = share.principal == delegator;
            let lineage = ancestors(principals, share.principal, MAX_LINEAGE as nat);
            let below = own || (lineage matches Some(up) && exists|i: int|
                0 <= i < up.len() && (#[trigger] up[i]).id@ == delegator);
            &&& !known <==> r == Some(Refusal::UnknownLease)
            &&& known && !holds <==> r == Some(Refusal::NotTheHolder)
            &&& holds && !there <==> r == Some(Refusal::UnknownDelegatee)
            &&& there && !own && lineage is None <==> r == Some(Refusal::EndlessLineage)
            &&& there && !own && lineage is Some && !below <==> r == Some(Refusal::NotADescendant)
            &&& there && below && (unusable(leases[lease], now) matches Some(reason) && r == Some(
                Refusal::Unusable(reason),
            )) <==> (r matches Some(Refusal::Unusable(_)))
            &&& r is None <==> there && below && unusable(leases[lease], now) is None
                && leases[lease].attenuation_refusal(share) is None
        }),
{
}

/// A refused delegation reads as why it was refused.
pub proof fn law_refused_delegations_read_as_why(
    e: IdentityError,
    delegator: Seq<char>,
    lease: Seq<char>,
    delegatee: Seq<char>,
    reason: Seq<char>,
)
    ensures
        delegation_error(e, Refusal::UnknownLease, delegator, lease, delegatee) ==> e.spec_message()
            == "unknown lease `"@ + lease + "`"@,
        delegation_error(e, Refusal::UnknownDelegatee, delegator, lease, delegatee)
            ==> e.spec_message() == "unknown principal `"@ + delegatee + "`"@,
        delegation_error(e, Refusal::NotTheHolder, delegator, lease, delegatee) ==> e
            is DelegationRejected,
        delegation_error(e, Refusal::NotADescendant, delegator, lease, delegatee) ==> e
            is DelegationRejected,
        delegation_error(e, Refusal::EndlessLineage, delegator, lease, delegatee)
            ==> e.spec_message() == "delegation rejected: "@ + "principal lineage contains a cycle"@,
        delegation_error(e, Refusal::Unusable(reason), delegator, lease, delegatee)
            ==> e.spec_message() == "lease `"@ + lease + "` is unusable: "@ + reason,
{
}

} // verus!
