//! The kernel's state: who acts, under which leases and policy, what was
//! recorded, and which effects are pending.
use vstd::prelude::*;
use crate::broker::effects::EffectBroker;
use crate::broker::model::BrokerView;
use crate::capability::Operation;
use crate::effect::EffectClass;
use crate::error::{KernelError, KernelResult};
use crate::identity::keys::{KernelKeypair, VerifyingKey, public_of};
use crate::identity::lease_store::LeaseStore;
use crate::identity::registry::{PrincipalRegistry, parent_of};
use crate::ids::PrincipalId;
use crate::json::Value;
use crate::ledger::store::Ledger;
use crate::policy::engine::{PolicyEngine, expiry_in_range};
use crate::principal::Principal;
use crate::sorted::Sorted;
use crate::text;
use crate::time::Timestamp;

verus! {

/// The kernel's stores. Whoever holds it mutably decides alone; everything that
/// waits (backends, connectors, the workspace) is done outside, between two
/// calls.
pub struct Kernel {
    pub registry: PrincipalRegistry,
    pub leases: LeaseStore,
    pub policy: PolicyEngine,
    pub ledger: Ledger,
    pub broker: EffectBroker<KernelKeypair>,
    /// The public half of the key that receipts are signed with.
    pub public_key: VerifyingKey,
    /// The declared effect classes by operation.
    pub op_classes: Sorted<EffectClass>,
    /// The names of the registered connectors, in the order of registration.
    pub connector_names: Vec<String>,
}

/// The declared class of an operation, or the most severe one.
pub open spec fn class_of(declared: Map<Seq<char>, EffectClass>, operation: Seq<char>) -> EffectClass {
    if declared.contains_key(operation) {
        declared[operation]
    } else {
        EffectClass::OpaqueExternal
    }
}

/// The declared classes with those of a connector added; of two for one
/// operation the later counts.
pub open spec fn declared_with(
    declared: Map<Seq<char>, EffectClass>,
    operations: Seq<(String, EffectClass)>,
) -> Map<Seq<char>, EffectClass>
    decreases operations.len(),
{
    if operations.len() == 0 {
        declared
    } else {
        declared_with(declared, operations.drop_last()).insert(
            operations.last().0@,
            operations.last().1,
        )
    }
}

/// Nothing changed but leases and ledger.
pub open spec fn same_but_leases_and_ledger(a: Kernel, b: Kernel) -> bool {
    &&& a.registry == b.registry
    &&& a.policy == b.policy
    &&& a.broker == b.broker
    &&& a.op_classes == b.op_classes
    &&& a.connector_names == b.connector_names
    &&& a.public_key == b.public_key
}

/// Nothing changed but the ledger.
pub open spec fn same_but_ledger(a: Kernel, b: Kernel) -> bool {
    &&& same_but_leases_and_ledger(a, b)
    &&& a.leases == b.leases
}

/// Nothing changed but broker and ledger.
pub open spec fn same_but_broker_and_ledger(a: Kernel, b: Kernel) -> bool {
    &&& a.registry == b.registry
    &&& a.leases == b.leases
    &&& a.policy == b.policy
    &&& a.op_classes == b.op_classes
    &&& a.connector_names == b.connector_names
    &&& a.public_key == b.public_key
}

impl Kernel {
    /// Every store is well-formed.
    pub open spec fn wf(&self) -> bool {
        &&& self.leases.wf()
        &&& self.ledger.wf()
        &&& self.broker@.wf()
        &&& self.public_key@ == public_of(self.broker.spec_signer().seed())
    }

    /// A kernel without principals, leases or events.
    pub fn new(policy: PolicyEngine, signer: KernelKeypair) -> (r: Self)
        ensures
            r.wf(),
            r.policy == policy,
            r.registry@ == Map::<Seq<char>, crate::principal::Principal>::empty(),
            r.leases@ == Map::<Seq<char>, crate::capability::LeaseView>::empty(),
            r.ledger.events() == Seq::<crate::ledger::event::EventView>::empty(),
            r.ledger.raw() == Map::<Seq<char>, Seq<u8>>::empty(),
            r.ledger.receipts() == Map::<Seq<char>, crate::effect::ReceiptView>::empty(),
            r.broker.spec_signer() == signer,
            r.broker@.connectors == Set::<Seq<char>>::empty(),
            r.broker@.effects == Map::<Seq<char>, crate::broker::model::RowView>::empty(),
            r.broker@.receipts == Map::<Seq<char>, crate::broker::model::ReceiptRowView>::empty(),
            r.broker@.claims == Map::<Seq<char>, Seq<char>>::empty(),
            r.op_classes@ == Map::<Seq<char>, EffectClass>::empty(),
            r.connector_names@.len() == 0,
    {
        let public_key = signer.public_key();
        Kernel {
            registry: PrincipalRegistry::new(),
            leases: LeaseStore::new(),
            policy,
            ledger: Ledger::open_in_memory(),
            broker: EffectBroker::in_memory(signer),
            public_key,
            op_classes: Sorted::new(),
            connector_names: Vec::new(),
        }
    }

    /// The declared effect class for a connector operation; undeclared
    /// operations classify as [`EffectClass::OpaqueExternal`].
    pub fn effect_class_of(&self, operation: &str) -> (r: EffectClass)
        ensures
            r == class_of(self.op_classes@, operation@),
    {
        match self.op_classes.get(operation) {
            Some(c) => *c,
            None => EffectClass::OpaqueExternal,
        }
    }

    /// The current policy epoch.
    pub fn policy_epoch(&self) -> (r: u64)
        ensures
            r == self.policy.spec_document().policy_epoch,
    {
        self.policy.document().policy_epoch
    }

    /// Whether the calendar holds the expiry of the lease that the policy may grant
    /// the principal for the operation.
    pub fn expiry_fits(
        &self,
        principal: &PrincipalId,
        operation: &Operation,
        params: &Value,
        now: Timestamp,
    ) -> (r: bool)
        ensures
            r == (self.registry@.contains_key(principal@) ==> expiry_in_range(
                &self.policy.spec_document(),
                &self.registry@[principal@],
                operation@,
                params@,
                now,
            )),
    {
        match self.registry.get(principal) {
            Ok(who) => self.policy.expiry_fits(&who, operation, params, now),
            Err(_) => true,
        }
    }

    /// Register a principal in the identity registry.
    pub fn register_principal(&mut self, principal: &Principal) -> (r: KernelResult<()>)
        requires
            old(self).wf(),
        ensures
            final(self).wf(),
            final(self).leases == old(self).leases,
            final(self).policy == old(self).policy,
            final(self).ledger == old(self).ledger,
            final(self).broker == old(self).broker,
            final(self).op_classes == old(self).op_classes,
            final(self).connector_names == old(self).connector_names,
            final(self).public_key == old(self).public_key,
            match r {
                Ok(_) => {
                    &&& !old(self).registry@.contains_key(principal.id@)
                    &&& parent_of(*principal) matches Some(q) ==> old(self).registry@.contains_key(
                        q,
                    )
                    &&& final(self).registry@ == old(self).registry@.insert(
                        principal.id@,
                        *principal,
                    )
                },
                Err(e) => {
                    &&& final(self).registry@ == old(self).registry@
                    &&& match parent_of(*principal) {
                        Some(q) if !old(self).registry@.contains_key(
                            q,
                        ) => e matches KernelError::Other(m) && m@ == "parent principal `"@ + q
                            + "` is not registered"@,
                        _ => old(self).registry@.contains_key(principal.id@)
                            && (e matches KernelError::Other(m) && m@ == "principal `"@
                            + principal.id@ + "` is already registered"@),
                    }
                },
            },
    {
        match self.registry.register(principal) {
            Ok(_) => Ok(()),
            Err(e) => Err(e.into_kernel()),
        }
    }

    /// Register a connector with the effect broker, recording its declared
    /// operation classes so proposals can be classified.
    pub fn register_connector(&mut self, name: &str, operations: Vec<(String, EffectClass)>)
        requires
            old(self).wf(),
        ensures
            final(self).wf(),
            final(self).registry == old(self).registry,
            final(self).leases == old(self).leases,
            final(self).policy == old(self).policy,
            final(self).ledger == old(self).ledger,
            final(self).public_key == old(self).public_key,
            final(self).broker.spec_signer() == old(self).broker.spec_signer(),
            final(self).broker@ == (BrokerView {
                connectors: old(self).broker@.connectors.insert(name@),
                ..old(self).broker@
            }),
            final(self).op_classes@ == declared_with(old(self).op_classes@, operations@),
            final(self).connector_names.deep_view() == old(self).connector_names.deep_view().push(
                name@,
            ),
    {
        let ghost declared = self.op_classes@;
        let ghost names = self.connector_names.deep_view();
        let mut i: usize = 0;
        while i < operations.len()
            invariant
                i <= operations.len(),
                self.op_classes@ == declared_with(declared, operations@.take(i as int)),
                self.registry == old(self).registry,
                self.leases == old(self).leases,
                self.policy == old(self).policy,
                self.ledger == old(self).ledger,
                self.broker == old(self).broker,
                self.connector_names == old(self).connector_names,
                self.public_key == old(self).public_key,
            decreases operations.len() - i,
        {
            self.op_classes.insert(operations[i].0.clone(), operations[i].1);
            proof {
                assert(operations@.take(i + 1).drop_last() =~= operations@.take(i as int));
                assert(operations@.take(i + 1).last() == operations@[i as int]);
            }
            i = i + 1;
        }
        self.connector_names.push(name.to_owned());
        self.broker.register_connector(name);
        proof {
            assert(operations@.take(operations@.len() as int) =~= operations@);
            assert(self.connector_names.deep_view() =~= names.push(name@));
        }
    }

    /// Whether a connector of that name is registered.
    pub fn has_connector(&self, name: &str) -> (r: bool)
        ensures
            r == self.connector_names.deep_view().contains(name@),
    {
        let mut i: usize = 0;
        while i < self.connector_names.len()
            invariant
                i <= self.connector_names.len(),
                forall|j: int| 0 <= j < i ==> (#[trigger] self.connector_names@[j])@ != name@,
            decreases self.connector_names.len() - i,
        {
            if text::str_eq(self.connector_names[i].as_str(), name) {
                proof {
                    assert(self.connector_names.deep_view()[i as int] == name@);
                }
                return true;
            }
            i = i + 1;
        }
        false
    }
}

/// An operation that nobody declared is of the class that is trusted least; one that
/// was declared is of the class declared last, and the others keep theirs.
pub proof fn law_last_declaration_counts(
    declared: Map<Seq<char>, EffectClass>,
    operations: Seq<(String, EffectClass)>,
    operation: (String, EffectClass),
    other: Seq<char>,
)
    ensures
        !declared.contains_key(other) ==> class_of(declared, other) is OpaqueExternal,
        declared.contains_key(other) ==> class_of(declared, other) == declared[other],
        declared_with(declared, Seq::empty()) == declared,
        class_of(declared_with(declared, operations.push(operation)), operation.0@) == operation.1,
        other != operation.0@ ==> class_of(
            declared_with(declared, operations.push(operation)),
            other,
        ) == class_of(declared_with(declared, operations), other),
{
    assert(operations.push(operation).drop_last() =~= operations);
}

/// What says that only some stores changed says that every other is as it was.
pub proof fn law_other_stores_stay(a: Kernel, b: Kernel)
    ensures
        same_but_ledger(a, b) ==> a.leases == b.leases && a.broker == b.broker && a.registry
            == b.registry && a.policy == b.policy && a.op_classes == b.op_classes
            && a.connector_names == b.connector_names && a.public_key == b.public_key,
        same_but_broker_and_ledger(a, b) ==> a.leases == b.leases && a.registry == b.registry
            && a.policy == b.policy && a.op_classes == b.op_classes && a.connector_names
            == b.connector_names && a.public_key == b.public_key,
        same_but_leases_and_ledger(a, b) ==> a.broker == b.broker && a.registry == b.registry
            && a.policy == b.policy && a.op_classes == b.op_classes && a.connector_names
            == b.connector_names && a.public_key == b.public_key,
{
}

} // verus!
