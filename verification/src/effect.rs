//! External effects: proposed changes to the real world, their transaction
//! lifecycle, and non-repudiable receipts.
//!
//! OS snapshots are not a transaction for the external world. Anything that
//! leaves the sandbox goes through: propose, canonicalize, prepare, authorize,
//! commit-time revalidation, commit, signed receipt.
use vstd::prelude::*;
use crate::hash::{ContentHash, canonical_hash, hash_canonical};
use crate::ids::{BranchId, EffectId, LeaseId, PrincipalId, ReceiptId, StepId, generated};
use crate::json::{Json, JsonMap, NumberView, Value};
use crate::time::Timestamp;

verus! {

/// Honest classification of an effect's reversibility, in ascending order of
/// severity.
#[derive(Debug, Clone, Copy, PartialEq, Eq, PartialOrd, Ord, Structural)]
pub enum EffectClass {
    /// No observable side effect.
    Pure,
    /// Reversible by rolling back local state.
    LocalReversible,
    /// The remote system offers a true undo.
    RemoteReversible,
    /// Reversible only via a compensating action (e.g. close the PR).
    Compensatable,
    /// Cannot be undone (e.g. an email that has been read).
    Irreversible,
    /// Semantics unknown; treated as irreversible and maximally restricted.
    OpaqueExternal,
}

impl EffectClass {
    /// The effect can be committed only from an explicit approval.
    pub open spec fn spec_needs_approval(self) -> bool {
        self == EffectClass::Irreversible || self == EffectClass::OpaqueExternal
    }

    /// The class on the wire.
    pub open spec fn spec_wire(self) -> Seq<char> {
        match self {
            EffectClass::Pure => "pure"@,
            EffectClass::LocalReversible => "local_reversible"@,
            EffectClass::RemoteReversible => "remote_reversible"@,
            EffectClass::Compensatable => "compensatable"@,
            EffectClass::Irreversible => "irreversible"@,
            EffectClass::OpaqueExternal => "opaque_external"@,
        }
    }

    /// Whether the effect can be committed only from an explicit approval.
    pub fn needs_approval(&self) -> (r: bool)
        ensures
            r == self.spec_needs_approval(),
    {
        match self {
            EffectClass::Irreversible => true,
            EffectClass::OpaqueExternal => true,
            _ => false,
        }
    }

    /// The class on the wire.
    pub fn wire(&self) -> (r: &'static str)
        ensures
            r@ == self.spec_wire(),
    {
        match self {
            EffectClass::Pure => "pure",
            EffectClass::LocalReversible => "local_reversible",
            EffectClass::RemoteReversible => "remote_reversible",
            EffectClass::Compensatable => "compensatable",
            EffectClass::Irreversible => "irreversible",
            EffectClass::OpaqueExternal => "opaque_external",
        }
    }
}

/// Lifecycle of a pending effect.
#[derive(Debug)]
pub enum EffectPhase {
    Proposed,
    Prepared { preview: Value },
    Approved { approver: PrincipalId, approved_at: Timestamp, policy_epoch: u64 },
    /// Claimed by exactly one committer; the external call is (or may be) in
    /// flight. An effect stuck here after a crash is in doubt until the
    /// connector's idempotency protocol resolves what really happened.
    Committing { claimed_at: Timestamp },
    Committed { receipt: ReceiptId },
    Aborted { reason: String },
    Compensated { compensating_receipt: ReceiptId },
}

/// What an [`EffectPhase`] says.
pub enum PhaseView {
    Proposed,
    Prepared { preview: Json },
    Approved { approver: Seq<char>, approved_at: Timestamp, policy_epoch: u64 },
    Committing { claimed_at: Timestamp },
    Committed { receipt: Seq<char> },
    Aborted { reason: Seq<char> },
    Compensated { compensating_receipt: Seq<char> },
}

impl PhaseView {
    /// The name of the phase.
    pub open spec fn name(self) -> Seq<char> {
        match self {
            PhaseView::Proposed => "proposed"@,
            PhaseView::Prepared { .. } => "prepared"@,
            PhaseView::Approved { .. } => "approved"@,
            PhaseView::Committing { .. } => "committing"@,
            PhaseView::Committed { .. } => "committed"@,
            PhaseView::Aborted { .. } => "aborted"@,
            PhaseView::Compensated { .. } => "compensated"@,
        }
    }
}

impl EffectPhase {
    pub open spec fn view(&self) -> PhaseView {
        match self {
            EffectPhase::Proposed => PhaseView::Proposed,
            EffectPhase::Prepared { preview } => PhaseView::Prepared { preview: preview@ },
            EffectPhase::Approved { approver, approved_at, policy_epoch } => PhaseView::Approved {
                approver: approver@,
                approved_at: *approved_at,
                policy_epoch: *policy_epoch,
            },
            EffectPhase::Committing { claimed_at } => PhaseView::Committing {
                claimed_at: *claimed_at,
            },
            EffectPhase::Committed { receipt } => PhaseView::Committed { receipt: receipt@ },
            EffectPhase::Aborted { reason } => PhaseView::Aborted { reason: reason@ },
            EffectPhase::Compensated { compensating_receipt } => PhaseView::Compensated {
                compensating_receipt: compensating_receipt@,
            },
        }
    }

    /// The name of the phase.
    pub fn name(&self) -> (r: &'static str)
        ensures
            r@ == self@.name(),
    {
        match self {
            EffectPhase::Proposed => "proposed",
            EffectPhase::Prepared { .. } => "prepared",
            EffectPhase::Approved { .. } => "approved",
            EffectPhase::Committing { .. } => "committing",
            EffectPhase::Committed { .. } => "committed",
            EffectPhase::Aborted { .. } => "aborted",
            EffectPhase::Compensated { .. } => "compensated",
        }
    }
}

impl Clone for EffectPhase {
    fn clone(&self) -> (r: Self)
        ensures
            r@ == self@,
    {
        match self {
            EffectPhase::Proposed => EffectPhase::Proposed,
            EffectPhase::Prepared { preview } => EffectPhase::Prepared { preview: preview.clone() },
            EffectPhase::Approved { approver, approved_at, policy_epoch } => EffectPhase::Approved {
                approver: approver.clone(),
                approved_at: *approved_at,
                policy_epoch: *policy_epoch,
            },
            EffectPhase::Committing { claimed_at } => EffectPhase::Committing {
                claimed_at: *claimed_at,
            },
            EffectPhase::Committed { receipt } => EffectPhase::Committed {
                receipt: receipt.clone(),
            },
            EffectPhase::Aborted { reason } => EffectPhase::Aborted { reason: reason.clone() },
            EffectPhase::Compensated { compensating_receipt } => EffectPhase::Compensated {
                compensating_receipt: compensating_receipt.clone(),
            },
        }
    }
}

/// The canonical, immutable description of what will be done to the world. The
/// hash of this structure is what humans approve and what commit-time
/// revalidation re-checks: approving an effect means approving exactly this.
#[derive(Debug)]
pub struct EffectContract {
    /// e.g. `github.create_pull_request`.
    pub operation: String,
    /// Target resource, e.g. `org/repo`.
    pub resource: String,
    /// Full canonical arguments.
    pub arguments: Value,
    /// Deterministic preconditions on the external world, revalidated at
    /// commit, e.g. `{"base_head_sha": "abc123"}`.
    pub preconditions: Value,
    /// Exactly-once key: `episode-<n>-step-<m>` by convention.
    pub idempotency_key: String,
    pub class: EffectClass,
}

/// What an [`EffectContract`] says.
pub struct ContractView {
    pub operation: Seq<char>,
    pub resource: Seq<char>,
    pub arguments: Json,
    pub preconditions: Json,
    pub idempotency_key: Seq<char>,
    pub class: EffectClass,
}

impl ContractView {
    /// The contract in JSON.
    pub open spec fn json(self) -> Json {
        Json::Object(
            map![
                "operation"@ => Json::Text(self.operation),
                "resource"@ => Json::Text(self.resource),
                "arguments"@ => self.arguments,
                "preconditions"@ => self.preconditions,
                "idempotency_key"@ => Json::Text(self.idempotency_key),
                "class"@ => Json::Text(self.class.spec_wire())
            ],
        )
    }

    /// The hash of the contract over its canonical JSON.
    pub open spec fn hash(self) -> Seq<char> {
        canonical_hash(self.json())
    }
}

impl EffectContract {
    pub open spec fn view(&self) -> ContractView {
        ContractView {
            operation: self.operation@,
            resource: self.resource@,
            arguments: self.arguments@,
            preconditions: self.preconditions@,
            idempotency_key: self.idempotency_key@,
            class: self.class,
        }
    }

    /// The contract in JSON.
    pub fn to_value(&self) -> (r: Value)
        ensures
            r@ == self@.json(),
    {
        let mut m = JsonMap::new();
        m.insert("operation".to_owned(), Value::text(self.operation.as_str()));
        m.insert("resource".to_owned(), Value::text(self.resource.as_str()));
        m.insert("arguments".to_owned(), self.arguments.clone());
        m.insert("preconditions".to_owned(), self.preconditions.clone());
        m.insert("idempotency_key".to_owned(), Value::text(self.idempotency_key.as_str()));
        m.insert("class".to_owned(), Value::text(self.class.wire()));
        Value::Object(m)
    }

    /// The hash of the contract over its canonical JSON.
    pub fn contract_hash(&self) -> (r: ContentHash)
        ensures
            r@ == self@.hash(),
    {
        let v = self.to_value();
        hash_canonical(&v)
    }
}

impl Clone for EffectContract {
    fn clone(&self) -> (r: Self)
        ensures
            r@ == self@,
    {
        EffectContract {
            operation: self.operation.clone(),
            resource: self.resource.clone(),
            arguments: self.arguments.clone(),
            preconditions: self.preconditions.clone(),
            idempotency_key: self.idempotency_key.clone(),
            class: self.class,
        }
    }
}

/// A pending (not yet committed) external effect.
#[derive(Debug)]
pub struct PendingEffect {
    pub id: EffectId,
    pub contract: EffectContract,
    pub contract_hash: ContentHash,
    pub proposer: PrincipalId,
    pub branch: BranchId,
    pub step: StepId,
    pub lease: LeaseId,
    pub phase: EffectPhase,
    pub proposed_at: Timestamp,
}

/// What a [`PendingEffect`] says.
pub struct EffectView {
    pub id: Seq<char>,
    pub contract: ContractView,
    pub contract_hash: Seq<char>,
    pub proposer: Seq<char>,
    pub branch: Seq<char>,
    pub step: Seq<char>,
    pub lease: Seq<char>,
    pub phase: PhaseView,
    pub proposed_at: Timestamp,
}

impl PendingEffect {
    pub open spec fn view(&self) -> EffectView {
        EffectView {
            id: self.id@,
            contract: self.contract@,
            contract_hash: self.contract_hash@,
            proposer: self.proposer@,
            branch: self.branch@,
            step: self.step@,
            lease: self.lease@,
            phase: self.phase@,
            proposed_at: self.proposed_at,
        }
    }

    /// A freshly proposed effect; its hash is that of its contract.
    pub fn new(
        contract: EffectContract,
        proposer: PrincipalId,
        branch: BranchId,
        step: StepId,
        lease: LeaseId,
        now: Timestamp,
    ) -> (r: Self)
        ensures
            generated(r.id@, "fx-"@),
            r@ == (EffectView {
                id: r.id@,
                contract: contract@,
                contract_hash: contract@.hash(),
                proposer: proposer@,
                branch: branch@,
                step: step@,
                lease: lease@,
                phase: PhaseView::Proposed,
                proposed_at: now,
            }),
    {
        let contract_hash = contract.contract_hash();
        PendingEffect {
            id: EffectId::generate(),
            contract,
            contract_hash,
            proposer,
            branch,
            step,
            lease,
            phase: EffectPhase::Proposed,
            proposed_at: now,
        }
    }
}

impl DeepView for PendingEffect {
    type V = EffectView;

    open spec fn deep_view(&self) -> EffectView {
        self@
    }
}

impl Clone for PendingEffect {
    fn clone(&self) -> (r: Self)
        ensures
            r@ == self@,
    {
        PendingEffect {
            id: self.id.clone(),
            contract: self.contract.clone(),
            contract_hash: self.contract_hash.clone(),
            proposer: self.proposer.clone(),
            branch: self.branch.clone(),
            step: self.step.clone(),
            lease: self.lease.clone(),
            phase: self.phase.clone(),
            proposed_at: self.proposed_at,
        }
    }
}

/// A non-repudiable record of a committed effect. Signed by the kernel's
/// receipt key; the signature covers the canonical JSON of `body`.
#[derive(Debug)]
pub struct Receipt {
    pub id: ReceiptId,
    pub body: ReceiptBody,
    /// Ed25519 signature over the canonical JSON of `body`, hex-encoded.
    pub signature: String,
    /// Identifier of the signing key.
    pub key_id: String,
}

/// What a receipt attests.
#[derive(Debug)]
pub struct ReceiptBody {
    pub effect: EffectId,
    pub who: PrincipalId,
    pub operation: String,
    pub resource: String,
    pub contract_hash: ContentHash,
    pub branch: BranchId,
    pub step: StepId,
    pub policy_epoch: u64,
    /// Hash of the approval decision (who approved what, when).
    pub authorization_witness: ContentHash,
    /// Digest of the external system's response.
    pub external_response_digest: ContentHash,
    pub committed_at: Timestamp,
}

/// What a [`ReceiptBody`] says.
pub struct BodyView {
    pub effect: Seq<char>,
    pub who: Seq<char>,
    pub operation: Seq<char>,
    pub resource: Seq<char>,
    pub contract_hash: Seq<char>,
    pub branch: Seq<char>,
    pub step: Seq<char>,
    pub policy_epoch: u64,
    pub authorization_witness: Seq<char>,
    pub external_response_digest: Seq<char>,
    pub committed_at: Timestamp,
}

/// What a [`Receipt`] says.
pub struct ReceiptView {
    pub id: Seq<char>,
    pub body: BodyView,
    pub signature: Seq<char>,
    pub key_id: Seq<char>,
}

impl BodyView {
    /// The body in JSON.
    pub open spec fn json(self) -> Json {
        Json::Object(
            map![
                "effect"@ => Json::Text(self.effect),
                "who"@ => Json::Text(self.who),
                "operation"@ => Json::Text(self.operation),
                "resource"@ => Json::Text(self.resource),
                "contract_hash"@ => Json::Text(self.contract_hash),
                "branch"@ => Json::Text(self.branch),
                "step"@ => Json::Text(self.step),
                "policy_epoch"@ => Json::Number(NumberView::PosInt(self.policy_epoch)),
                "authorization_witness"@ => Json::Text(self.authorization_witness),
                "external_response_digest"@ => Json::Text(self.external_response_digest),
                "committed_at"@ => Json::Text(self.committed_at.wire_text())
            ],
        )
    }
}

impl ReceiptBody {
    pub open spec fn view(&self) -> BodyView {
        BodyView {
            effect: self.effect@,
            who: self.who@,
            operation: self.operation@,
            resource: self.resource@,
            contract_hash: self.contract_hash@,
            branch: self.branch@,
            step: self.step@,
            policy_epoch: self.policy_epoch,
            authorization_witness: self.authorization_witness@,
            external_response_digest: self.external_response_digest@,
            committed_at: self.committed_at,
        }
    }

    /// The body in JSON.
    pub fn to_value(&self) -> (r: Value)
        ensures
            r@ == self@.json(),
    {
        let mut m = JsonMap::new();
        m.insert("effect".to_owned(), Value::text(self.effect.as_str()));
        m.insert("who".to_owned(), Value::text(self.who.as_str()));
        m.insert("operation".to_owned(), Value::text(self.operation.as_str()));
        m.insert("resource".to_owned(), Value::text(self.resource.as_str()));
        m.insert("contract_hash".to_owned(), Value::text(self.contract_hash.as_str()));
        m.insert("branch".to_owned(), Value::text(self.branch.as_str()));
        m.insert("step".to_owned(), Value::text(self.step.as_str()));
        m.insert("policy_epoch".to_owned(), Value::from_u64(self.policy_epoch));
        m.insert(
            "authorization_witness".to_owned(),
            Value::text(self.authorization_witness.as_str()),
        );
        m.insert(
            "external_response_digest".to_owned(),
            Value::text(self.external_response_digest.as_str()),
        );
        m.insert("committed_at".to_owned(), Value::Text(self.committed_at.to_wire()));
        Value::Object(m)
    }
}

impl Clone for ReceiptBody {
    fn clone(&self) -> (r: Self)
        ensures
            r == *self,
    {
        ReceiptBody {
            effect: self.effect.clone(),
            who: self.who.clone(),
            operation: self.operation.clone(),
            resource: self.resource.clone(),
            contract_hash: self.contract_hash.clone(),
            branch: self.branch.clone(),
            step: self.step.clone(),
            policy_epoch: self.policy_epoch,
            authorization_witness: self.authorization_witness.clone(),
            external_response_digest: self.external_response_digest.clone(),
            committed_at: self.committed_at,
        }
    }
}

impl Receipt {
    pub open spec fn view(&self) -> ReceiptView {
        ReceiptView {
            id: self.id@,
            body: self.body@,
            signature: self.signature@,
            key_id: self.key_id@,
        }
    }
}

impl DeepView for Receipt {
    type V = ReceiptView;

    open spec fn deep_view(&self) -> ReceiptView {
        self@
    }
}

impl Clone for Receipt {
    fn clone(&self) -> (r: Self)
        ensures
            r == *self,
    {
        Receipt {
            id: self.id.clone(),
            body: self.body.clone(),
            signature: self.signature.clone(),
            key_id: self.key_id.clone(),
        }
    }
}

/// The hash of a contract covers all of it: two contracts that read the same in JSON
/// do the same, to the same, with the same arguments, under the same preconditions,
/// key and class.
pub proof fn law_every_term_of_a_contract_is_hashed(a: ContractView, b: ContractView)
    requires
        a.json() == b.json(),
    ensures
        a.operation == b.operation,
        a.resource == b.resource,
        a.arguments == b.arguments,
        a.preconditions == b.preconditions,
        a.idempotency_key == b.idempotency_key,
        a.class == b.class,
        a.hash() == canonical_hash(a.json()),
{
    reveal_strlit("operation");
    reveal_strlit("resource");
    reveal_strlit("arguments");
    reveal_strlit("preconditions");
    reveal_strlit("idempotency_key");
    reveal_strlit("class");
    assert("operation"@.len() == 9 && "resource"@.len() == 8 && "arguments"@.len() == 9);
    assert("preconditions"@.len() == 13 && "idempotency_key"@.len() == 15 && "class"@.len() == 5);
    assert("operation"@[0] != "arguments"@[0]);
    let m = a.json()->Object_0;
    let n = b.json()->Object_0;
    assert(m["operation"@] == Json::Text(a.operation) && n["operation"@] == Json::Text(
        b.operation,
    ));
    assert(m["resource"@] == Json::Text(a.resource) && n["resource"@] == Json::Text(b.resource));
    assert(m["arguments"@] == a.arguments && n["arguments"@] == b.arguments);
    assert(m["preconditions"@] == a.preconditions && n["preconditions"@] == b.preconditions);
    assert(m["idempotency_key"@] == Json::Text(a.idempotency_key) && n["idempotency_key"@]
        == Json::Text(b.idempotency_key));
    assert(m["class"@] == Json::Text(a.class.spec_wire()) && n["class"@] == Json::Text(
        b.class.spec_wire(),
    ));
    law_classes_are_told_apart(a.class, b.class);
}

/// Each class has a name of its own on the wire.
pub proof fn law_classes_are_told_apart(a: EffectClass, b: EffectClass)
    ensures
        a.spec_wire() == b.spec_wire() ==> a == b,
        a is Irreversible ==> a.spec_wire() == "irreversible"@,
        a is OpaqueExternal ==> a.spec_wire() == "opaque_external"@,
        a.spec_needs_approval() <==> a is Irreversible || a is OpaqueExternal,
{
    reveal_strlit("pure");
    reveal_strlit("local_reversible");
    reveal_strlit("remote_reversible");
    reveal_strlit("compensatable");
    reveal_strlit("irreversible");
    reveal_strlit("opaque_external");
    assert("pure"@.len() == 4 && "local_reversible"@.len() == 16 && "remote_reversible"@.len()
        == 17);
    assert("compensatable"@.len() == 13 && "irreversible"@.len() == 12
        && "opaque_external"@.len() == 15);
}

/// What is signed of a receipt covers all of it: two bodies that read the same in
/// JSON say the same in every field.
pub proof fn law_every_term_of_a_receipt_is_signed(a: BodyView, b: BodyView)
    requires
        a.json() == b.json(),
    ensures
        a.effect == b.effect,
        a.who == b.who,
        a.operation == b.operation,
        a.resource == b.resource,
        a.contract_hash == b.contract_hash,
        a.branch == b.branch,
        a.step == b.step,
        a.policy_epoch == b.policy_epoch,
        a.authorization_witness == b.authorization_witness,
        a.external_response_digest == b.external_response_digest,
        a.committed_at.wire_text() == b.committed_at.wire_text(),
{
    reveal_strlit("effect");
    reveal_strlit("who");
    reveal_strlit("operation");
    reveal_strlit("resource");
    reveal_strlit("contract_hash");
    reveal_strlit("branch");
    reveal_strlit("step");
    reveal_strlit("policy_epoch");
    reveal_strlit("authorization_witness");
    reveal_strlit("external_response_digest");
    reveal_strlit("committed_at");
    assert("effect"@.len() == 6 && "who"@.len() == 3 && "operation"@.len() == 9);
    assert("resource"@.len() == 8 && "contract_hash"@.len() == 13 && "branch"@.len() == 6);
    assert("step"@.len() == 4 && "policy_epoch"@.len() == 12);
    assert("authorization_witness"@.len() == 21 && "external_response_digest"@.len() == 24);
    assert("committed_at"@.len() == 12);
    assert("effect"@[0] != "branch"@[0]);
    assert("policy_epoch"@[0] != "committed_at"@[0]);
    let m = a.json()->Object_0;
    let n = b.json()->Object_0;
    assert(m["effect"@] == Json::Text(a.effect) && n["effect"@] == Json::Text(b.effect));
    assert(m["who"@] == Json::Text(a.who) && n["who"@] == Json::Text(b.who));
    assert(m["operation"@] == Json::Text(a.operation) && n["operation"@] == Json::Text(
        b.operation,
    ));
    assert(m["resource"@] == Json::Text(a.resource) && n["resource"@] == Json::Text(b.resource));
    assert(m["contract_hash"@] == Json::Text(a.contract_hash) && n["contract_hash"@] == Json::Text(
        b.contract_hash,
    ));
    assert(m["branch"@] == Json::Text(a.branch) && n["branch"@] == Json::Text(b.branch));
    assert(m["step"@] == Json::Text(a.step) && n["step"@] == Json::Text(b.step));
    assert(m["policy_epoch"@] == Json::Number(NumberView::PosInt(a.policy_epoch))
        && n["policy_epoch"@] == Json::Number(NumberView::PosInt(b.policy_epoch)));
    assert(m["authorization_witness"@] == Json::Text(a.authorization_witness)
        && n["authorization_witness"@] == Json::Text(b.authorization_witness));
    assert(m["external_response_digest"@] == Json::Text(a.external_response_digest)
        && n["external_response_digest"@] == Json::Text(b.external_response_digest));
    assert(m["committed_at"@] == Json::Text(a.committed_at.wire_text()) && n["committed_at"@]
        == Json::Text(b.committed_at.wire_text()));
}

/// Each phase has its name.
pub proof fn law_phases_have_their_names(p: PhaseView)
    ensures
        p is Proposed ==> p.name() == "proposed"@,
        p is Prepared ==> p.name() == "prepared"@,
        p is Approved ==> p.name() == "approved"@,
        p is Committing ==> p.name() == "committing"@,
        p is Committed ==> p.name() == "committed"@,
        p is Aborted ==> p.name() == "aborted"@,
        p is Compensated ==> p.name() == "compensated"@,
{
}

/// In JSON every term of a contract stands under its own name.
pub proof fn law_contract_terms_have_their_names(c: ContractView)
    ensures
        c.json() matches Json::Object(m) && {
            &&& m.contains_key("operation"@) && m["operation"@] == Json::Text(c.operation)
            &&& m.contains_key("resource"@) && m["resource"@] == Json::Text(c.resource)
            &&& m.contains_key("arguments"@) && m["arguments"@] == c.arguments
            &&& m.contains_key("preconditions"@) && m["preconditions"@] == c.preconditions
            &&& m.contains_key("idempotency_key"@) && m["idempotency_key"@] == Json::Text(
                c.idempotency_key,
            )
            &&& m.contains_key("class"@) && m["class"@] == Json::Text(c.class.spec_wire())
            &&& m.dom() == set![
                "operation"@,
                "resource"@,
                "arguments"@,
                "preconditions"@,
                "idempotency_key"@,
                "class"@,
            ]
        },
        c.class is Pure ==> c.class.spec_wire() == "pure"@,
        c.class is LocalReversible ==> c.class.spec_wire() == "local_reversible"@,
        c.class is RemoteReversible ==> c.class.spec_wire() == "remote_reversible"@,
        c.class is Compensatable ==> c.class.spec_wire() == "compensatable"@,
{
    reveal_strlit("operation");
    reveal_strlit("resource");
    reveal_strlit("arguments");
    reveal_strlit("preconditions");
    reveal_strlit("idempotency_key");
    reveal_strlit("class");
    assert("operation"@.len() == 9 && "resource"@.len() == 8 && "arguments"@.len() == 9);
    assert("preconditions"@.len() == 13 && "idempotency_key"@.len() == 15 && "class"@.len() == 5);
    assert("operation"@[0] != "arguments"@[0]);
    let m = c.json()->Object_0;
    assert(m.dom() =~= set![
        "operation"@,
        "resource"@,
        "arguments"@,
        "preconditions"@,
        "idempotency_key"@,
        "class"@,
    ]);
}

/// In JSON every term of a receipt stands under its own name.
pub proof fn law_receipt_terms_have_their_names(b: BodyView)
    ensures
        b.json() matches Json::Object(m) && {
            &&& m.contains_key("effect"@) && m["effect"@] == Json::Text(b.effect)
            &&& m.contains_key("who"@) && m["who"@] == Json::Text(b.who)
            &&& m.contains_key("operation"@) && m["operation"@] == Json::Text(b.operation)
            &&& m.contains_key("resource"@) && m["resource"@] == Json::Text(b.resource)
            &&& m.contains_key("contract_hash"@) && m["contract_hash"@] == Json::Text(
                b.contract_hash,
            )
            &&& m.contains_key("branch"@) && m["branch"@] == Json::Text(b.branch)
            &&& m.contains_key("step"@) && m["step"@] == Json::Text(b.step)
            &&& m.contains_key("policy_epoch"@) && m["policy_epoch"@] == Json::Number(
                NumberView::PosInt(b.policy_epoch),
            )
            &&& m.contains_key("authorization_witness"@) && m["authorization_witness"@]
                == Json::Text(b.authorization_witness)
            &&& m.contains_key("external_response_digest"@) && m["external_response_digest"@]
                == Json::Text(b.external_response_digest)
            &&& m.contains_key("committed_at"@) && m["committed_at"@] == Json::Text(
                b.committed_at.wire_text(),
            )
        },
{
    reveal_strlit("effect");
    reveal_strlit("who");
    reveal_strlit("operation");
    reveal_strlit("resource");
    reveal_strlit("contract_hash");
    reveal_strlit("branch");
    reveal_strlit("step");
    reveal_strlit("policy_epoch");
    reveal_strlit("authorization_witness");
    reveal_strlit("external_response_digest");
    reveal_strlit("committed_at");
    assert("effect"@.len() == 6 && "who"@.len() == 3 && "operation"@.len() == 9);
    assert("resource"@.len() == 8 && "contract_hash"@.len() == 13 && "branch"@.len() == 6);
    assert("step"@.len() == 4 && "policy_epoch"@.len() == 12);
    assert("authorization_witness"@.len() == 21 && "external_response_digest"@.len() == 24);
    assert("committed_at"@.len() == 12);
    assert("effect"@[0] != "branch"@[0]);
    assert("policy_epoch"@[0] != "committed_at"@[0]);
}

} // verus!
