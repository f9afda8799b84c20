//! Capability requests: one at a time, or a whole envelope before a task.
use indexmap::IndexMap;
use vstd::prelude::*;
use crate::api::branch::Branch;
use crate::api::denials::{denial_of_unapproved_request, request_approval_denial};
use crate::api::kernel::{Kernel, same_but_leases_and_ledger};
use crate::budget::ResourceBudget;
use crate::capability::{CapabilityLease, Constraint, LeaseView, Operation, ShareView};
use crate::constraints::constraints_view;
use crate::denial::{Denial, DenialView};
use crate::error::{KernelError, KernelResult};
use crate::identity::delegation::{
    DelegationRecord, DelegationService, delegation_error, delegation_refusal,
};
use crate::identity::error::IdentityError;
use crate::identity::lease_store::{acyclic, ancestors_first, derived, revoked_under};
use crate::ids::{LeaseId, PrincipalId, generated};
use crate::json::{Json, JsonMap, Value, object2, object3};
use crate::ledger::event::{EventKind, EventView};
use crate::ledger::store::{Attribution, EventWriter, grown, next_seq, room_for};
use crate::policy::document::PolicyDocument;
use crate::policy::engine::{Decision, DecisionView, decide, expiry_in_range};
use crate::principal::Principal;
use crate::text;
use crate::time::Timestamp;

verus! {

/// Hard cap on requests per envelope.
pub const MAX_ENVELOPE_ITEMS: usize = 64;

/// One requested capability inside an autonomy envelope.
#[derive(Debug)]
pub struct EnvelopeRequest {
    /// Operation the task needs (e.g. `proc.shell`, `net.http_read`).
    pub operation: String,
    /// Constraint parameters, the same shape as a single capability request.
    pub params: Value,
}

/// Per-request outcome of an envelope: exactly one of `lease` and `denial` is
/// set.
#[derive(Debug)]
pub struct EnvelopeItemReport {
    pub operation: String,
    /// Minted lease when policy allowed the request outright.
    pub lease: Option<CapabilityLease>,
    /// Structured denial (with requestable scopes) otherwise.
    pub denial: Option<Denial>,
}

/// The compiled envelope: explicit partial autonomy, one call.
#[derive(Debug)]
pub struct EnvelopeReport {
    /// Per-request outcomes, in request order.
    pub items: Vec<EnvelopeItemReport>,
    /// Items that minted a lease.
    pub granted: usize,
    /// Denied items whose requestable scopes name a human escalation.
    pub needs_human: usize,
    /// Denied items with no human escalation on offer.
    pub refused: usize,
}

/// The identifier of a branch, if there is one.
pub open spec fn id_of(branch: Option<&Branch>) -> Option<Seq<char>> {
    match branch {
        Some(b) => Some(b.id@),
        None => None,
    }
}

/// What the events of a request on a branch are attributed to.
pub open spec fn request_attribution(branch: Branch, principal: Seq<char>) -> Attribution {
    Attribution { episode: branch.episode@, branch: Some(branch.id@), step: None, principal }
}

/// The events after a request was granted; without a branch nothing is
/// recorded.
pub open spec fn granted_log(
    events: Seq<EventView>,
    branch: Option<&Branch>,
    principal: Seq<char>,
    operation: Seq<char>,
    params: Json,
    rule_id: Seq<char>,
    lease: Seq<char>,
    now: Timestamp,
) -> Seq<EventView> {
    match branch {
        Some(b) => grown(
            grown(
                events,
                request_attribution(*b, principal),
                EventKind::CapabilityRequest,
                Json::Object(map!["operation"@ => Json::Text(operation), "params"@ => params]),
                Seq::empty(),
                now,
            ),
            request_attribution(*b, principal),
            EventKind::PolicyDecision,
            Json::Object(
                map![
                    "decision"@ => Json::Text("allow"@),
                    "rule_id"@ => Json::Text(rule_id),
                    "lease"@ => Json::Text(lease)
                ],
            ),
            seq![next_seq(events) as i64],
            now,
        ),
        None => events,
    }
}

/// The denial of a request, or `None` when it is granted.
pub open spec fn request_denial(d: DecisionView) -> Option<DenialView> {
    match d {
        DecisionView::Allow { .. } => None,
        DecisionView::RequireApproval { rule_id, operation, constraints, policy_epoch } => Some(
            request_approval_denial(operation, rule_id, constraints, policy_epoch),
        ),
        DecisionView::Deny { denial } => Some(denial),
    }
}

/// The rule that a decision rests on.
pub open spec fn rule_of(d: DecisionView) -> Seq<char> {
    match d {
        DecisionView::Allow { rule_id, .. } => rule_id,
        DecisionView::RequireApproval { rule_id, .. } => rule_id,
        DecisionView::Deny { .. } => Seq::empty(),
    }
}

/// The decision grants exactly this lease.
pub open spec fn grants(d: DecisionView, lease: LeaseView) -> bool {
    d matches DecisionView::Allow { lease: l, .. } && l == lease && generated(lease.id, "lease-"@)
}

/// Every request of an envelope is for a lease whose expiry the calendar holds.
pub open spec fn expiries_in_range(
    doc: &PolicyDocument,
    who: &Principal,
    requests: Seq<EnvelopeRequest>,
    now: Timestamp,
) -> bool {
    forall|i: int|
        0 <= i < requests.len() ==> expiry_in_range(
            doc,
            who,
            (#[trigger] requests[i]).operation@,
            params_of(requests[i]),
            now,
        )
}

/// The parameters of a request; none count as empty.
pub open spec fn params_of(q: EnvelopeRequest) -> Json {
    if q.params@ == Json::Null {
        Json::Object(Map::empty())
    } else {
        q.params@
    }
}

/// The decision on one request of an envelope.
pub open spec fn item_decision(
    doc: &PolicyDocument,
    who: &Principal,
    branch: Option<&Branch>,
    q: EnvelopeRequest,
    now: Timestamp,
    lease: Seq<char>,
) -> DecisionView {
    decide(doc, who, q.operation@, params_of(q), id_of(branch), now, lease)
}

/// The report on one request says what the policy decides on it.
pub open spec fn reports(
    item: EnvelopeItemReport,
    doc: &PolicyDocument,
    who: &Principal,
    branch: Option<&Branch>,
    q: EnvelopeRequest,
    now: Timestamp,
) -> bool {
    &&& item.operation@ == q.operation@
    &&& match item.lease {
        Some(l) => item.denial is None && grants(
            item_decision(doc, who, branch, q, now, l@.id),
            l@,
        ),
        None => item.denial matches Some(d) && request_denial(
            item_decision(doc, who, branch, q, now, Seq::empty()),
        ) == Some(d@),
    }
}

/// The leases with those of the first `n` items.
pub open spec fn leases_with(
    leases: Map<Seq<char>, LeaseView>,
    items: Seq<EnvelopeItemReport>,
    n: nat,
) -> Map<Seq<char>, LeaseView>
    decreases n,
{
    if n == 0 {
        leases
    } else {
        let m = leases_with(leases, items, (n - 1) as nat);
        match items[n - 1].lease {
            Some(l) => m.insert(l@.id, l@),
            None => m,
        }
    }
}

/// The events after the first `n` requests of an envelope.
pub open spec fn envelope_log(
    events: Seq<EventView>,
    doc: &PolicyDocument,
    who: &Principal,
    branch: Option<&Branch>,
    principal: Seq<char>,
    requests: Seq<EnvelopeRequest>,
    items: Seq<EnvelopeItemReport>,
    now: Timestamp,
    n: nat,
) -> Seq<EventView>
    decreases n,
{
    if n == 0 {
        events
    } else {
        let e = envelope_log(
            events,
            doc,
            who,
            branch,
            principal,
            requests,
            items,
            now,
            (n - 1) as nat,
        );
        match items[n - 1].lease {
            Some(l) => granted_log(
                e,
                branch,
                principal,
                requests[n - 1].operation@,
                params_of(requests[n - 1]),
                rule_of(item_decision(doc, who, branch, requests[n - 1], now, l@.id)),
                l@.id,
                now,
            ),
            None => e,
        }
    }
}

/// The denial names a human escalation.
pub open spec fn offers_human(d: DenialView) -> bool {
    exists|i: int|
        0 <= i < d.requestable_scopes.len() && (#[trigger] d.requestable_scopes[i]).requires_human
}

/// How many of the first `n` items minted a lease.
pub open spec fn count_granted(items: Seq<EnvelopeItemReport>, n: nat) -> nat
    decreases n,
{
    if n == 0 {
        0
    } else {
        count_granted(items, (n - 1) as nat) + if items[n - 1].lease is Some {
            1nat
        } else {
            0nat
        }
    }
}

/// How many of the first `n` items were denied with a human escalation.
pub open spec fn count_human(items: Seq<EnvelopeItemReport>, n: nat) -> nat
    decreases n,
{
    if n == 0 {
        0
    } else {
        count_human(items, (n - 1) as nat) + match items[n - 1].denial {
            Some(d) => if offers_human(d@) {
                1nat
            } else {
                0nat
            },
            None => 0nat,
        }
    }
}

/// How many of the first `n` items were denied without a human escalation.
pub open spec fn count_refused(items: Seq<EnvelopeItemReport>, n: nat) -> nat
    decreases n,
{
    if n == 0 {
        0
    } else {
        count_refused(items, (n - 1) as nat) + match items[n - 1].denial {
            Some(d) => if offers_human(d@) {
                0nat
            } else {
                1nat
            },
            None => 0nat,
        }
    }
}

fn names_human(d: &Denial) -> (r: bool)
    ensures
        r == offers_human(d@),
{
    let mut i: usize = 0;
    while i < d.requestable_scopes.len()
        invariant
            i <= d.requestable_scopes.len(),
            forall|j: int|
                0 <= j < i ==> !(#[trigger] d@.requestable_scopes[j]).requires_human,
        decreases d.requestable_scopes.len() - i,
    {
        proof {
            assert(d@.requestable_scopes[i as int] == d.requestable_scopes@[i as int]@);
        }
        if d.requestable_scopes[i].requires_human {
            return true;
        }
        i = i + 1;
    }
    false
}

proof fn lemma_prefix(
    leases: Map<Seq<char>, LeaseView>,
    events: Seq<EventView>,
    doc: &PolicyDocument,
    who: &Principal,
    branch: Option<&Branch>,
    principal: Seq<char>,
    requests: Seq<EnvelopeRequest>,
    a: Seq<EnvelopeItemReport>,
    item: EnvelopeItemReport,
    now: Timestamp,
    n: nat,
)
    requires
        n <= a.len(),
    ensures
        leases_with(leases, a.push(item), n) == leases_with(leases, a, n),
        envelope_log(events, doc, who, branch, principal, requests, a.push(item), now, n)
            == envelope_log(events, doc, who, branch, principal, requests, a, now, n),
        count_granted(a.push(item), n) == count_granted(a, n),
        count_human(a.push(item), n) == count_human(a, n),
        count_refused(a.push(item), n) == count_refused(a, n),
    decreases n,
{
    if n > 0 {
        lemma_prefix(
            leases,
            events,
            doc,
            who,
            branch,
            principal,
            requests,
            a,
            item,
            now,
            (n - 1) as nat,
        );
        assert(a.push(item)[n - 1] == a[n - 1]);
    }
}

/// What comes of a capability request.
pub open spec fn requested(
    before: Kernel,
    after: Kernel,
    principal: Seq<char>,
    operation: Seq<char>,
    params: Json,
    branch: Option<&Branch>,
    now: Timestamp,
    r: KernelResult<CapabilityLease>,
) -> bool {
    &&& same_but_leases_and_ledger(after, before)
    &&& after.ledger.raw() == before.ledger.raw()
    &&& after.ledger.receipts() == before.ledger.receipts()
    &&& if !before.registry@.contains_key(principal) {
        &&& r matches Err(e) && (e matches KernelError::NotFound { kind, id } && kind@
            == "principal"@ && id@ == principal)
        &&& after.leases@ == before.leases@
        &&& after.ledger.events() == before.ledger.events()
    } else {
        let doc = &before.policy.spec_document();
        let who = &before.registry@[principal];
        match r {
            Ok(l) => {
                let d = decide(
                    doc,
                    who,
                    operation,
                    params,
                    id_of(branch),
                    now,
                    l@.id,
                );
                &&& grants(d, l@)
                &&& after.leases@ == before.leases@.insert(l@.id, l@)
                &&& after.ledger.events() == granted_log(
                    before.ledger.events(),
                    branch,
                    principal,
                    operation,
                    params,
                    rule_of(d),
                    l@.id,
                    now,
                )
            },
            Err(e) => {
                &&& e matches KernelError::Denied(x) && request_denial(
                    decide(
                        doc,
                        who,
                        operation,
                        params,
                        id_of(branch),
                        now,
                        Seq::empty(),
                    ),
                ) == Some(x@)
                &&& after.leases@ == before.leases@
                &&& after.ledger.events() == before.ledger.events()
            },
        }
    }
}

impl Kernel {
    /// Request a capability: deterministic policy evaluation. When it is allowed
    /// the compiled lease is issued and returned; everything else is a denial
    /// (one that waits for an approval carries
    /// [`DenialCode::EffectRequiresApproval`](crate::denial::DenialCode)).
    pub fn request_capability(
        &mut self,
        principal: &PrincipalId,
        operation: &Operation,
        params: &Value,
        branch: Option<&Branch>,
        now: Timestamp,
    ) -> (r: KernelResult<CapabilityLease>)
        requires
            old(self).wf(),
            branch is Some ==> room_for(old(self).ledger.events(), 2),
            old(self).registry@.contains_key(principal@) ==> expiry_in_range(
                &old(self).policy.spec_document(),
                &old(self).registry@[principal@],
                operation@,
                params@,
                now,
            ),
        ensures
            final(self).wf(),
            requested(
                *old(self),
                *final(self),
                principal@,
                operation@,
                params@,
                branch,
                now,
                r,
            ),
    {
        let who = match self.registry.get(principal) {
            Ok(w) => w,
            Err(e) => {
                return Err(e.into_kernel());
            },
        };
        let on = match branch {
            Some(b) => Some(&b.id),
            None => None,
        };
        match self.policy.evaluate(&who, operation, params, on, now) {
            Decision::Allow { rule_id, grant } => {
                let lease = grant.lease;
                self.leases.issue(&lease);
                if let Some(b) = branch {
                    let ghost ev = self.ledger.events();
                    let writer = EventWriter {
                        episode: b.episode.clone(),
                        branch: Some(b.id.clone()),
                        step: None,
                        principal: principal.clone(),
                    };
                    let asked = writer.record(
                        &mut self.ledger,
                        EventKind::CapabilityRequest,
                        object2(
                            "operation",
                            Value::text(operation.0.as_str()),
                            "params",
                            params.clone(),
                        ),
                        now,
                    );
                    let mut causes: Vec<i64> = Vec::new();
                    causes.push(asked.body.seq);
                    proof {
                        assert(causes@ =~= seq![next_seq(ev) as i64]);
                    }
                    writer.record_caused_by(
                        &mut self.ledger,
                        EventKind::PolicyDecision,
                        object3(
                            "decision",
                            Value::text("allow"),
                            "rule_id",
                            Value::text(rule_id.as_str()),
                            "lease",
                            Value::text(lease.id.as_str()),
                        ),
                        causes,
                        now,
                    );
                }
                Ok(lease)
            },
            Decision::RequireApproval { rule_id, operation, constraints, policy_epoch } => Err(
                KernelError::Denied(
                    Box::new(
                        denial_of_unapproved_request(
                            &operation,
                            rule_id.as_str(),
                            &constraints,
                            policy_epoch,
                        ),
                    ),
                ),
            ),
            Decision::Deny { denial } => Err(KernelError::Denied(Box::new(denial))),
        }
    }

    /// Whether the calendar holds the expiry of every lease that an envelope of
    /// these requests may grant.
    pub fn expiries_fit(
        &self,
        principal: &PrincipalId,
        requests: &Vec<EnvelopeRequest>,
        now: Timestamp,
    ) -> (r: bool)
        ensures
            r == (self.registry@.contains_key(principal@) ==> expiries_in_range(
                &self.policy.spec_document(),
                &self.registry@[principal@],
                requests@,
                now,
            )),
    {
        let who = match self.registry.get(principal) {
            Ok(who) => who,
            Err(_) => {
                return true;
            },
        };
        let mut i: usize = 0;
        while i < requests.len()
            invariant
                i <= requests.len(),
                self.registry@.contains_key(principal@),
                who == self.registry@[principal@],
                forall|j: int|
                    0 <= j < i ==> expiry_in_range(
                        &self.policy.spec_document(),
                        &who,
                        (#[trigger] requests@[j]).operation@,
                        params_of(requests@[j]),
                        now,
                    ),
            decreases requests.len() - i,
        {
            let req = &requests[i];
            let operation = Operation::new(req.operation.as_str());
            let params = if req.params.is_null() {
                Value::Object(JsonMap::new())
            } else {
                req.params.clone()
            };
            proof {
                assert(params@ == params_of(requests@[i as int]));
            }
            if !self.policy.expiry_fits(&who, &operation, &params, now) {
                proof {
                    assert(!expiry_in_range(
                        &self.policy.spec_document(),
                        &who,
                        requests@[i as int].operation@,
                        params_of(requests@[i as int]),
                        now,
                    ));
                }
                return false;
            }
            i = i + 1;
        }
        true
    }

    /// Compile an autonomy envelope: request every capability a task needs in
    /// one call, before the first step.
    ///
    /// Items are evaluated independently. Policy-allowed items mint leases
    /// immediately; items requiring out-of-band approval or refused outright
    /// come back as structured denials with their requestable scopes. The result
    /// is explicit partial autonomy: the agent knows exactly which subset of its
    /// plan it holds. An unknown principal fails the whole call; policy outcomes
    /// never do.
    pub fn compile_envelope(
        &mut self,
        principal: &PrincipalId,
        branch: Option<&Branch>,
        requests: &Vec<EnvelopeRequest>,
        now: Timestamp,
    ) -> (r: KernelResult<EnvelopeReport>)
        requires
            old(self).wf(),
            branch is Some && requests@.len() <= MAX_ENVELOPE_ITEMS ==> room_for(
                old(self).ledger.events(),
                2 * requests@.len() as int,
            ),
            old(self).registry@.contains_key(principal@) ==> expiries_in_range(
                &old(self).policy.spec_document(),
                &old(self).registry@[principal@],
                requests@,
                now,
            ),
        ensures
            final(self).wf(),
            same_but_leases_and_ledger(*final(self), *old(self)),
            final(self).ledger.raw() == old(self).ledger.raw(),
            final(self).ledger.receipts() == old(self).ledger.receipts(),
            match r {
                Ok(report) => {
                    let doc = &old(self).policy.spec_document();
                    let who = &old(self).registry@[principal@];
                    let n = requests@.len();
                    &&& 0 < n <= MAX_ENVELOPE_ITEMS
                    &&& old(self).registry@.contains_key(principal@)
                    &&& report.items@.len() == n
                    &&& forall|i: int|
                        0 <= i < n ==> reports(
                            #[trigger] report.items@[i],
                            doc,
                            who,
                            branch,
                            requests@[i],
                            now,
                        )
                    &&& report.granted == count_granted(report.items@, n)
                    &&& report.needs_human == count_human(report.items@, n)
                    &&& report.refused == count_refused(report.items@, n)
                    &&& final(self).leases@ == leases_with(old(self).leases@, report.items@, n)
                    &&& final(self).ledger.events() == envelope_log(
                        old(self).ledger.events(),
                        doc,
                        who,
                        branch,
                        principal@,
                        requests@,
                        report.items@,
                        now,
                        n,
                    )
                },
                Err(e) => {
                    &&& final(self).leases@ == old(self).leases@
                    &&& final(self).ledger.events() == old(self).ledger.events()
                    &&& if requests@.len() == 0 {
                        e matches KernelError::Other(m) && m@
                            == "an autonomy envelope needs at least one capability request"@
                    } else if requests@.len() > MAX_ENVELOPE_ITEMS {
                        e matches KernelError::Other(m) && m@ == "envelope has "@ + text::decimal(
                            requests@.len(),
                        ) + " requests; the maximum is 64"@
                    } else {
                        &&& !old(self).registry@.contains_key(principal@)
                        &&& e matches KernelError::NotFound { kind, id } && kind@ == "principal"@
                            && id@ == principal@
                    }
                },
            },
    {
        if requests.len() == 0 {
            return Err(
                KernelError::Other(
                    "an autonomy envelope needs at least one capability request".to_owned(),
                ),
            );
        }
        if requests.len() > MAX_ENVELOPE_ITEMS {
            let count = text::to_decimal(requests.len() as u64);
            return Err(
                KernelError::Other(
                    text::cat3("envelope has ", count.as_str(), " requests; the maximum is 64"),
                ),
            );
        }
        let ghost doc = &self.policy.spec_document();
        let ghost who = &self.registry@[principal@];
        let ghost leases = self.leases@;
        let ghost events = self.ledger.events();
        let n = requests.len();
        let mut items: Vec<EnvelopeItemReport> = Vec::new();
        let mut granted: usize = 0;
        let mut needs_human: usize = 0;
        let mut refused: usize = 0;
        let mut i: usize = 0;
        while i < n
            invariant
                n == requests@.len(),
                0 < n <= MAX_ENVELOPE_ITEMS,
                i <= n,
                items@.len() == i,
                granted <= i,
                needs_human <= i,
                refused <= i,
                self.wf(),
                same_but_leases_and_ledger(*self, *old(self)),
                self.ledger.raw() == old(self).ledger.raw(),
                self.ledger.receipts() == old(self).ledger.receipts(),
                *doc == old(self).policy.spec_document(),
                *who == old(self).registry@[principal@],
                leases == old(self).leases@,
                events == old(self).ledger.events(),
                i > 0 ==> old(self).registry@.contains_key(principal@),
                branch is Some ==> room_for(events, 2 * n as int),
                branch is Some ==> next_seq(self.ledger.events()) <= next_seq(events) + 2 * i,
                old(self).registry@.contains_key(principal@) ==> expiries_in_range(
                    doc,
                    who,
                    requests@,
                    now,
                ),
                forall|j: int|
                    0 <= j < i ==> reports(
                        #[trigger] items@[j],
                        doc,
                        who,
                        branch,
                        requests@[j],
                        now,
                    ),
                granted == count_granted(items@, i as nat),
                needs_human == count_human(items@, i as nat),
                refused == count_refused(items@, i as nat),
                self.leases@ == leases_with(leases, items@, i as nat),
                self.ledger.events() == envelope_log(
                    events,
                    doc,
                    who,
                    branch,
                    principal@,
                    requests@,
                    items@,
                    now,
                    i as nat,
                ),
            decreases n - i,
        {
            let req = &requests[i];
            let operation = Operation::new(req.operation.as_str());
            let params = if req.params.is_null() {
                Value::Object(JsonMap::new())
            } else {
                req.params.clone()
            };
            proof {
                assert(params@ == params_of(requests@[i as int]));
            }
            let ghost before = items@;
            let item = match self.request_capability(principal, &operation, &params, branch, now) {
                Ok(lease) => {
                    granted = granted + 1;
                    EnvelopeItemReport {
                        operation: req.operation.clone(),
                        lease: Some(lease),
                        denial: None,
                    }
                },
                Err(KernelError::Denied(denial)) => {
                    if names_human(&*denial) {
                        needs_human = needs_human + 1;
                    } else {
                        refused = refused + 1;
                    }
                    EnvelopeItemReport {
                        operation: req.operation.clone(),
                        lease: None,
                        denial: Some(*denial),
                    }
                },
                Err(other) => {
                    return Err(other);
                },
            };
            proof {
                lemma_prefix(
                    leases,
                    events,
                    doc,
                    who,
                    branch,
                    principal@,
                    requests@,
                    before,
                    item,
                    now,
                    i as nat,
                );
            }
            items.push(item);
            proof {
                assert(items@[i as int] == item);
                assert(reports(items@[i as int], doc, who, branch, requests@[i as int], now));
            }
            i = i + 1;
        }
        Ok(EnvelopeReport { items, granted, needs_human, refused })
    }

    /// Delegate (attenuate) a lease from `delegator` to `delegatee`.
    pub fn delegate(
        &mut self,
        delegation: &mut DelegationService,
        delegator: &PrincipalId,
        parent_lease: &LeaseId,
        delegatee: &PrincipalId,
        constraints: &IndexMap<String, Constraint>,
        uses: u32,
        expires_at: Timestamp,
        budget: ResourceBudget,
        now: Timestamp,
    ) -> (r: KernelResult<CapabilityLease>)
        requires
            old(self).wf(),
        ensures
            final(self).wf(),
            same_but_leases_and_ledger(*final(self), *old(self)),
            final(self).ledger == old(self).ledger,
            ({
                let share = ShareView {
                    principal: delegatee@,
                    constraints: constraints_view(*constraints),
                    uses,
                    expires_at,
                    budget,
                };
                match (
                    r,
                    delegation_refusal(
                        old(self).registry@,
                        old(self).leases@,
                        delegator@,
                        parent_lease@,
                        share,
                        now,
                    ),
                ) {
                    (Ok(child), None) => {
                        &&& generated(child.id@, "lease-"@)
                        &&& child@ == old(self).leases@[parent_lease@].attenuated(
                            share,
                            child.id@,
                            now,
                        )
                        &&& final(self).leases@ == old(self).leases@.insert(child.id@, child@)
                        &&& final(delegation)@ == old(delegation)@.push(
                            (DelegationRecord {
                                parent_lease: *parent_lease,
                                child_lease: child.id,
                                delegator: *delegator,
                                delegatee: *delegatee,
                                delegated_at: now,
                            }),
                        )
                    },
                    (Err(e), Some(why)) => {
                        &&& exists|i: IdentityError| #[trigger]
                            delegation_error(i, why, delegator@, parent_lease@, delegatee@)
                                && i.becomes(e)
                        &&& final(self).leases@ == old(self).leases@
                        &&& final(delegation)@ == old(delegation)@
                    },
                    _ => false,
                }
            }),
    {
        match delegation.delegate(
            &self.registry,
            &mut self.leases,
            delegator,
            parent_lease,
            delegatee,
            constraints,
            uses,
            expires_at,
            budget,
            now,
        ) {
            Ok(child) => Ok(child),
            Err(i) => {
                let ghost cause = i;
                let e = i.into_kernel();
                assert(cause.becomes(e));
                Err(e)
            },
        }
    }

    /// Revoke a lease and everything transitively attenuated from it.
    pub fn revoke(&mut self, lease: &LeaseId) -> (r: KernelResult<Vec<LeaseId>>)
        requires
            old(self).wf(),
        ensures
            final(self).wf(),
            same_but_leases_and_ledger(*final(self), *old(self)),
            final(self).ledger == old(self).ledger,
            match r {
                Ok(ids) => {
                    &&& old(self).leases@.contains_key(lease@)
                    &&& final(self).leases@ == revoked_under(old(self).leases@, lease@)
                    &&& forall|id: Seq<char>| #[trigger]
                        ids.deep_view().contains(id) <==> old(self).leases@.contains_key(id)
                            && derived(old(self).leases@, lease@, id)
                            && !old(self).leases@[id].revoked
                    &&& ids.deep_view().no_duplicates()
                    &&& !old(self).leases@[lease@].revoked ==> ids.deep_view().len() > 0
                        && ids.deep_view()[0] == lease@
                    &&& acyclic(old(self).leases@) ==> ancestors_first(
                        old(self).leases@,
                        ids.deep_view(),
                    )
                },
                Err(e) => {
                    &&& !old(self).leases@.contains_key(lease@)
                    &&& final(self).leases@ == old(self).leases@
                    &&& e matches KernelError::NotFound { kind, id } && kind@ == "lease"@ && id@
                        == lease@
                },
            },
    {
        match self.leases.revoke_cascading(lease) {
            Ok(ids) => Ok(ids),
            Err(e) => Err(e.into_kernel()),
        }
    }
}

/// Every request of an envelope is counted once.
pub proof fn law_envelope_counts_add_up(
    items: Seq<EnvelopeItemReport>,
    n: nat,
)
    requires
        n <= items.len(),
        forall|i: int|
            0 <= i < items.len() ==> ((#[trigger] items[i]).lease is Some <==> items[i].denial
                is None),
    ensures
        count_granted(items, n) + count_human(items, n) + count_refused(items, n) == n,
    decreases n,
{
    if n > 0 {
        law_envelope_counts_add_up(items, (n - 1) as nat);
        assert(items[n - 1].lease is Some <==> items[n - 1].denial is None);
    }
}

/// A decision denies a request exactly if it does not allow it: an approval that is
/// missing is a denial that names the rule and asks for a human.
pub proof fn law_requests_are_granted_only_when_allowed(d: DecisionView)
    ensures
        request_denial(d) is None <==> d is Allow,
        d matches DecisionView::Deny { denial } ==> request_denial(d) == Some(denial),
        d matches DecisionView::RequireApproval { rule_id, operation, constraints, policy_epoch }
            ==> (request_denial(d) matches Some(x) && x.code is EffectRequiresApproval
            && x.attempted_operation == operation && offers_human(x)),
        d matches DecisionView::Allow { rule_id, .. } ==> rule_of(d) == rule_id,
        d matches DecisionView::RequireApproval { rule_id, .. } ==> rule_of(d) == rule_id,
{
    if let DecisionView::RequireApproval { rule_id, operation, constraints, policy_epoch } = d {
        let x = request_approval_denial(operation, rule_id, constraints, policy_epoch);
        assert(x.requestable_scopes[0].requires_human);
    }
}

/// A granted request leaves on its branch the request and the decision that it caused,
/// with the rule and the lease; without a branch it leaves nothing.
pub proof fn law_grants_are_recorded(
    events: Seq<EventView>,
    branch: Branch,
    principal: Seq<char>,
    operation: Seq<char>,
    params: Json,
    rule_id: Seq<char>,
    lease: Seq<char>,
    now: Timestamp,
)
    ensures
        granted_log(events, None, principal, operation, params, rule_id, lease, now) == events,
        ({
            let after = granted_log(
                events,
                Some(&branch),
                principal,
                operation,
                params,
                rule_id,
                lease,
                now,
            );
            let n = events.len() as int;
            &&& after.len() == n + 2
            &&& after.take(n) == events
            &&& after[n].body.kind == EventKind::CapabilityRequest
            &&& after[n].body.payload == Json::Object(
                map!["operation"@ => Json::Text(operation), "params"@ => params],
            )
            &&& after[n].body.principal == principal
            &&& after[n].body.branch == Some(branch.id@)
            &&& after[n].body.episode == branch.episode@
            &&& after[n + 1].body.kind == EventKind::PolicyDecision
            &&& after[n + 1].body.payload == Json::Object(
                map![
                    "decision"@ => Json::Text("allow"@),
                    "rule_id"@ => Json::Text(rule_id),
                    "lease"@ => Json::Text(lease)
                ],
            )
            &&& after[n + 1].body.caused_by == seq![after[n].body.seq]
            &&& after[n + 1].body.principal == principal
        }),
{
    let after = granted_log(
        events,
        Some(&branch),
        principal,
        operation,
        params,
        rule_id,
        lease,
        now,
    );
    assert(after.take(events.len() as int) =~= events);
}

/// Every request is counted by its outcome: one that minted a lease as granted, one
/// whose denial names a human as waiting, and any other denial as refused.
pub proof fn law_each_item_is_counted_by_its_outcome(items: Seq<EnvelopeItemReport>, n: nat)
    requires
        n < items.len(),
    ensures
        count_granted(items, 0) == 0 && count_human(items, 0) == 0 && count_refused(items, 0) == 0,
        items[n as int].lease is Some ==> count_granted(items, n + 1) == count_granted(items, n) + 1,
        items[n as int].lease is None ==> count_granted(items, n + 1) == count_granted(items, n),
        items[n as int].denial is None ==> count_human(items, n + 1) == count_human(items, n)
            && count_refused(items, n + 1) == count_refused(items, n),
        items[n as int].denial matches Some(d) ==> {
            let human = exists|i: int|
                0 <= i < d@.requestable_scopes.len() && (
                #[trigger] d@.requestable_scopes[i]).requires_human;
            &&& human ==> count_human(items, n + 1) == count_human(items, n) + 1 && count_refused(
                items,
                n + 1,
            ) == count_refused(items, n)
            &&& !human ==> count_human(items, n + 1) == count_human(items, n) && count_refused(
                items,
                n + 1,
            ) == count_refused(items, n) + 1
        },
{
}

/// An envelope adds exactly the leases it reports, and takes none away.
pub proof fn law_envelopes_add_the_leases_they_report(
    leases: Map<Seq<char>, LeaseView>,
    items: Seq<EnvelopeItemReport>,
    n: nat,
    id: Seq<char>,
)
    requires
        n <= items.len(),
    ensures
        leases_with(leases, items, n).contains_key(id) <==> leases.contains_key(id) || exists|i: int|
            0 <= i < n && ((#[trigger] items[i]).lease matches Some(l) && l@.id == id),
        (forall|i: int|
            0 <= i < n ==> ((#[trigger] items[i]).lease matches Some(l) ==> l@.id != id))
            && leases.contains_key(id) ==> leases_with(leases, items, n)[id] == leases[id],
        n > 0 ==> (items[n - 1].lease matches Some(l) ==> leases_with(leases, items, n)[l@.id]
            == l@),
    decreases n,
{
    if n > 0 {
        law_envelopes_add_the_leases_they_report(leases, items, (n - 1) as nat, id);
        if items[n - 1].lease is Some && items[n - 1].lease->0@.id == id {
            assert(items[n - 1].lease matches Some(l) && l@.id == id);
        }
    }
}

/// A request without parameters is judged as one with an empty object of them.
pub proof fn law_missing_parameters_are_none(q: EnvelopeRequest)
    ensures
        q.params@ is Null ==> params_of(q) == Json::Object(Map::empty()),
        !(q.params@ is Null) ==> params_of(q) == q.params@,
{
}

/// A capability request that is granted stores the very lease the policy grants, and
/// one that is not stores and records nothing.
pub proof fn law_requests_store_what_is_granted(
    before: Kernel,
    after: Kernel,
    principal: Seq<char>,
    operation: Seq<char>,
    params: Json,
    branch: Option<&Branch>,
    now: Timestamp,
    r: KernelResult<CapabilityLease>,
    other: Seq<char>,
)
    requires
        requested(before, after, principal, operation, params, branch, now, r),
    ensures
        r matches Ok(l) ==> {
            &&& before.registry@.contains_key(principal)
            &&& after.leases@.contains_key(l@.id) && after.leases@[l@.id] == l@
            &&& other != l@.id ==> (after.leases@.contains_key(other)
                <==> before.leases@.contains_key(other))
            &&& other != l@.id && before.leases@.contains_key(other) ==> after.leases@[other]
                == before.leases@[other]
            &&& decide(
                &before.policy.spec_document(),
                &before.registry@[principal],
                operation,
                params,
                id_of(branch),
                now,
                l@.id,
            ) matches DecisionView::Allow { lease, .. } && lease == l@
            &&& branch is Some ==> after.ledger.events().len() == before.ledger.events().len() + 2
            &&& branch is None ==> after.ledger.events() == before.ledger.events()
        },
        r is Err ==> after.leases@ == before.leases@ && after.ledger.events()
            == before.ledger.events(),
        after.broker == before.broker && after.policy == before.policy && after.registry
            == before.registry,
{
    if r is Ok && branch is Some {
        let l = r->Ok_0;
        let d = decide(
            &before.policy.spec_document(),
            &before.registry@[principal],
            operation,
            params,
            id_of(branch),
            now,
            l@.id,
        );
        law_grants_are_recorded(
            before.ledger.events(),
            *branch->0,
            principal,
            operation,
            params,
            rule_of(d),
            l@.id,
            now,
        );
    }
}

/// The report on a request names its operation, and either the lease that the policy
/// grants or the denial that it gives, never both.
pub proof fn law_reports_say_what_the_policy_decides(
    item: EnvelopeItemReport,
    doc: &PolicyDocument,
    who: &Principal,
    branch: Option<&Branch>,
    q: EnvelopeRequest,
    now: Timestamp,
)
    requires
        reports(item, doc, who, branch, q, now),
    ensures
        item.operation@ == q.operation@,
        item.lease is Some <==> item.denial is None,
        item.lease matches Some(l) ==> (decide(
            doc,
            who,
            q.operation@,
            params_of(q),
            id_of(branch),
            now,
            l@.id,
        ) matches DecisionView::Allow { lease, .. } && lease == l@),
        item.denial matches Some(x) ==> !(decide(
            doc,
            who,
            q.operation@,
            params_of(q),
            id_of(branch),
            now,
            Seq::empty(),
        ) is Allow),
{
}

} // verus!
