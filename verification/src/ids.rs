//! Strongly-typed identifiers for every object in the world-state DAG.
//!
//! Each is a newtype over a string, so that they cannot be confused with one
//! another and read as plain strings on the wire.
use vstd::prelude::*;
use crate::error::KernelError;
use crate::text;

verus! {

/// A lowercase hexadecimal digit.
pub open spec fn hex_digit(c: char) -> bool {
    ('0' <= c && c <= '9') || ('a' <= c && c <= 'f')
}

/// The text of a UUID: thirty-two lowercase hexadecimal digits in groups of
/// eight, four, four, four and twelve, with hyphens between the groups.
pub open spec fn uuid_text(s: Seq<char>) -> bool {
    &&& s.len() == 36
    &&& forall|i: int|
        0 <= i < 36 ==> if i == 8 || i == 13 || i == 18 || i == 23 {
            #[trigger] s[i] == '-'
        } else {
            hex_digit(s[i])
        }
}

/// The identifiers of one type: the prefix, a hyphen and a UUID.
pub open spec fn generated(id: Seq<char>, prefix: Seq<char>) -> bool {
    exists|u: Seq<char>| uuid_text(u) && id == #[trigger] (prefix + u)
}

/// The error for a text that lacks the prefix of its type.
pub open spec fn invalid_id(e: KernelError, prefix: Seq<char>, text: Seq<char>) -> bool {
    e matches KernelError::InvalidId { expected_prefix, got } && expected_prefix@ == prefix && got@
        == text
}

/// `uuid::Uuid::new_v4` and its `Display`: a random UUID as text. Nothing is
/// said of which one.
#[verifier::external_body]
fn random_uuid() -> (r: String)
    ensures
        uuid_text(r@),
{
    uuid::Uuid::new_v4().to_string()
}

fn fresh(prefix: &str) -> (r: String)
    ensures
        generated(r@, prefix@),
{
    let u = random_uuid();
    text::cat2(prefix, u.as_str())
}

/// A long-running task: the root of a state DAG.
#[derive(Debug, Hash)]
pub struct EpisodeId(pub String);

impl EpisodeId {
    pub open spec fn view(&self) -> Seq<char> {
        self.0@
    }

    /// Create a new random identifier with the canonical prefix.
    pub fn generate() -> (r: Self)
        ensures
            generated(r@, "ep-"@),
    {
        EpisodeId(fresh("ep-"))
    }

    /// Wrap an existing identifier string, validating its prefix.
    pub fn parse(s: &str) -> (r: Result<Self, KernelError>)
        ensures
            match r {
                Ok(id) => "ep-"@.is_prefix_of(s@) && id@ == s@,
                Err(e) => !"ep-"@.is_prefix_of(s@) && invalid_id(e, "ep"@, s@),
            },
    {
        if text::starts_with(s, "ep-") {
            Ok(EpisodeId(s.to_owned()))
        } else {
            Err(KernelError::InvalidId { expected_prefix: "ep", got: s.to_owned() })
        }
    }

    /// The identifier as text.
    pub fn as_str(&self) -> (r: &str)
        ensures
            r@ == self@,
    {
        self.0.as_str()
    }
}

impl Clone for EpisodeId {
    fn clone(&self) -> (r: Self)
        ensures
            r == *self,
    {
        EpisodeId(self.0.clone())
    }
}

impl PartialEq for EpisodeId {
    fn eq(&self, other: &Self) -> (r: bool) {
        self.0 == other.0
    }
}

impl Eq for EpisodeId {

}

impl vstd::std_specs::cmp::PartialEqSpecImpl for EpisodeId {
    open spec fn obeys_eq_spec() -> bool {
        true
    }

    open spec fn eq_spec(&self, other: &Self) -> bool {
        self@ == other@
    }
}

impl DeepView for EpisodeId {
    type V = Seq<char>;

    open spec fn deep_view(&self) -> Seq<char> {
        self@
    }
}

/// One decision-and-execution unit inside an episode.
#[derive(Debug, Hash)]
pub struct StepId(pub String);

impl StepId {
    pub open spec fn view(&self) -> Seq<char> {
        self.0@
    }

    /// Create a new random identifier with the canonical prefix.
    pub fn generate() -> (r: Self)
        ensures
            generated(r@, "step-"@),
    {
        StepId(fresh("step-"))
    }

    /// Wrap an existing identifier string, validating its prefix.
    pub fn parse(s: &str) -> (r: Result<Self, KernelError>)
        ensures
            match r {
                Ok(id) => "step-"@.is_prefix_of(s@) && id@ == s@,
                Err(e) => !"step-"@.is_prefix_of(s@) && invalid_id(e, "step"@, s@),
            },
    {
        if text::starts_with(s, "step-") {
            Ok(StepId(s.to_owned()))
        } else {
            Err(KernelError::InvalidId { expected_prefix: "step", got: s.to_owned() })
        }
    }

    /// The identifier as text.
    pub fn as_str(&self) -> (r: &str)
        ensures
            r@ == self@,
    {
        self.0.as_str()
    }
}

impl Clone for StepId {
    fn clone(&self) -> (r: Self)
        ensures
            r == *self,
    {
        StepId(self.0.clone())
    }
}

impl PartialEq for StepId {
    fn eq(&self, other: &Self) -> (r: bool) {
        self.0 == other.0
    }
}

impl Eq for StepId {

}

impl vstd::std_specs::cmp::PartialEqSpecImpl for StepId {
    open spec fn obeys_eq_spec() -> bool {
        true
    }

    open spec fn eq_spec(&self, other: &Self) -> bool {
        self@ == other@
    }
}

impl DeepView for StepId {
    type V = Seq<char>;

    open spec fn deep_view(&self) -> Seq<char> {
        self@
    }
}

/// A speculative world branch forked from a state node.
#[derive(Debug, Hash)]
pub struct BranchId(pub String);

impl BranchId {
    pub open spec fn view(&self) -> Seq<char> {
        self.0@
    }

    /// Create a new random identifier with the canonical prefix.
    pub fn generate() -> (r: Self)
        ensures
            generated(r@, "br-"@),
    {
        BranchId(fresh("br-"))
    }

    /// Wrap an existing identifier string, validating its prefix.
    pub fn parse(s: &str) -> (r: Result<Self, KernelError>)
        ensures
            match r {
                Ok(id) => "br-"@.is_prefix_of(s@) && id@ == s@,
                Err(e) => !"br-"@.is_prefix_of(s@) && invalid_id(e, "br"@, s@),
            },
    {
        if text::starts_with(s, "br-") {
            Ok(BranchId(s.to_owned()))
        } else {
            Err(KernelError::InvalidId { expected_prefix: "br", got: s.to_owned() })
        }
    }

    /// The identifier as text.
    pub fn as_str(&self) -> (r: &str)
        ensures
            r@ == self@,
    {
        self.0.as_str()
    }
}

impl Clone for BranchId {
    fn clone(&self) -> (r: Self)
        ensures
            r == *self,
    {
        BranchId(self.0.clone())
    }
}

impl PartialEq for BranchId {
    fn eq(&self, other: &Self) -> (r: bool) {
        self.0 == other.0
    }
}

impl Eq for BranchId {

}

impl vstd::std_specs::cmp::PartialEqSpecImpl for BranchId {
    open spec fn obeys_eq_spec() -> bool {
        true
    }

    open spec fn eq_spec(&self, other: &Self) -> bool {
        self@ == other@
    }
}

impl DeepView for BranchId {
    type V = Seq<char>;

    open spec fn deep_view(&self) -> Seq<char> {
        self@
    }
}

/// A content-addressed, immutable world-state node.
#[derive(Debug, Hash)]
pub struct StateId(pub String);

impl StateId {
    pub open spec fn view(&self) -> Seq<char> {
        self.0@
    }

    /// Create a new random identifier with the canonical prefix.
    pub fn generate() -> (r: Self)
        ensures
            generated(r@, "st-"@),
    {
        StateId(fresh("st-"))
    }

    /// Wrap an existing identifier string, validating its prefix.
    pub fn parse(s: &str) -> (r: Result<Self, KernelError>)
        ensures
            match r {
                Ok(id) => "st-"@.is_prefix_of(s@) && id@ == s@,
                Err(e) => !"st-"@.is_prefix_of(s@) && invalid_id(e, "st"@, s@),
            },
    {
        if text::starts_with(s, "st-") {
            Ok(StateId(s.to_owned()))
        } else {
            Err(KernelError::InvalidId { expected_prefix: "st", got: s.to_owned() })
        }
    }

    /// The identifier as text.
    pub fn as_str(&self) -> (r: &str)
        ensures
            r@ == self@,
    {
        self.0.as_str()
    }
}

impl Clone for StateId {
    fn clone(&self) -> (r: Self)
        ensures
            r == *self,
    {
        StateId(self.0.clone())
    }
}

impl PartialEq for StateId {
    fn eq(&self, other: &Self) -> (r: bool) {
        self.0 == other.0
    }
}

impl Eq for StateId {

}

impl vstd::std_specs::cmp::PartialEqSpecImpl for StateId {
    open spec fn obeys_eq_spec() -> bool {
        true
    }

    open spec fn eq_spec(&self, other: &Self) -> bool {
        self@ == other@
    }
}

impl DeepView for StateId {
    type V = Seq<char>;

    open spec fn deep_view(&self) -> Seq<char> {
        self@
    }
}

/// An agent, sub-agent, tool or human identity.
#[derive(Debug, Hash)]
pub struct PrincipalId(pub String);

impl PrincipalId {
    pub open spec fn view(&self) -> Seq<char> {
        self.0@
    }

    /// Create a new random identifier with the canonical prefix.
    pub fn generate() -> (r: Self)
        ensures
            generated(r@, "pr-"@),
    {
        PrincipalId(fresh("pr-"))
    }

    /// Wrap an existing identifier string, validating its prefix.
    pub fn parse(s: &str) -> (r: Result<Self, KernelError>)
        ensures
            match r {
                Ok(id) => "pr-"@.is_prefix_of(s@) && id@ == s@,
                Err(e) => !"pr-"@.is_prefix_of(s@) && invalid_id(e, "pr"@, s@),
            },
    {
        if text::starts_with(s, "pr-") {
            Ok(PrincipalId(s.to_owned()))
        } else {
            Err(KernelError::InvalidId { expected_prefix: "pr", got: s.to_owned() })
        }
    }

    /// The identifier as text.
    pub fn as_str(&self) -> (r: &str)
        ensures
            r@ == self@,
    {
        self.0.as_str()
    }
}

impl Clone for PrincipalId {
    fn clone(&self) -> (r: Self)
        ensures
            r == *self,
    {
        PrincipalId(self.0.clone())
    }
}

impl PartialEq for PrincipalId {
    fn eq(&self, other: &Self) -> (r: bool) {
        self.0 == other.0
    }
}

impl Eq for PrincipalId {

}

impl vstd::std_specs::cmp::PartialEqSpecImpl for PrincipalId {
    open spec fn obeys_eq_spec() -> bool {
        true
    }

    open spec fn eq_spec(&self, other: &Self) -> bool {
        self@ == other@
    }
}

impl DeepView for PrincipalId {
    type V = Seq<char>;

    open spec fn deep_view(&self) -> Seq<char> {
        self@
    }
}

/// A capability lease grant.
#[derive(Debug, Hash)]
pub struct LeaseId(pub String);

impl LeaseId {
    pub open spec fn view(&self) -> Seq<char> {
        self.0@
    }

    /// Create a new random identifier with the canonical prefix.
    pub fn generate() -> (r: Self)
        ensures
            generated(r@, "lease-"@),
    {
        LeaseId(fresh("lease-"))
    }

    /// Wrap an existing identifier string, validating its prefix.
    pub fn parse(s: &str) -> (r: Result<Self, KernelError>)
        ensures
            match r {
                Ok(id) => "lease-"@.is_prefix_of(s@) && id@ == s@,
                Err(e) => !"lease-"@.is_prefix_of(s@) && invalid_id(e, "lease"@, s@),
            },
    {
        if text::starts_with(s, "lease-") {
            Ok(LeaseId(s.to_owned()))
        } else {
            Err(KernelError::InvalidId { expected_prefix: "lease", got: s.to_owned() })
        }
    }

    /// The identifier as text.
    pub fn as_str(&self) -> (r: &str)
        ensures
            r@ == self@,
    {
        self.0.as_str()
    }
}

impl Clone for LeaseId {
    fn clone(&self) -> (r: Self)
        ensures
            r == *self,
    {
        LeaseId(self.0.clone())
    }
}

impl PartialEq for LeaseId {
    fn eq(&self, other: &Self) -> (r: bool) {
        self.0 == other.0
    }
}

impl Eq for LeaseId {

}

impl vstd::std_specs::cmp::PartialEqSpecImpl for LeaseId {
    open spec fn obeys_eq_spec() -> bool {
        true
    }

    open spec fn eq_spec(&self, other: &Self) -> bool {
        self@ == other@
    }
}

impl DeepView for LeaseId {
    type V = Seq<char>;

    open spec fn deep_view(&self) -> Seq<char> {
        self@
    }
}

/// A proposed-but-uncommitted external effect.
#[derive(Debug, Hash)]
pub struct EffectId(pub String);

impl EffectId {
    pub open spec fn view(&self) -> Seq<char> {
        self.0@
    }

    /// Create a new random identifier with the canonical prefix.
    pub fn generate() -> (r: Self)
        ensures
            generated(r@, "fx-"@),
    {
        EffectId(fresh("fx-"))
    }

    /// Wrap an existing identifier string, validating its prefix.
    pub fn parse(s: &str) -> (r: Result<Self, KernelError>)
        ensures
            match r {
                Ok(id) => "fx-"@.is_prefix_of(s@) && id@ == s@,
                Err(e) => !"fx-"@.is_prefix_of(s@) && invalid_id(e, "fx"@, s@),
            },
    {
        if text::starts_with(s, "fx-") {
            Ok(EffectId(s.to_owned()))
        } else {
            Err(KernelError::InvalidId { expected_prefix: "fx", got: s.to_owned() })
        }
    }

    /// The identifier as text.
    pub fn as_str(&self) -> (r: &str)
        ensures
            r@ == self@,
    {
        self.0.as_str()
    }
}

impl Clone for EffectId {
    fn clone(&self) -> (r: Self)
        ensures
            r == *self,
    {
        EffectId(self.0.clone())
    }
}

impl PartialEq for EffectId {
    fn eq(&self, other: &Self) -> (r: bool) {
        self.0 == other.0
    }
}

impl Eq for EffectId {

}

impl vstd::std_specs::cmp::PartialEqSpecImpl for EffectId {
    open spec fn obeys_eq_spec() -> bool {
        true
    }

    open spec fn eq_spec(&self, other: &Self) -> bool {
        self@ == other@
    }
}

impl DeepView for EffectId {
    type V = Seq<char>;

    open spec fn deep_view(&self) -> Seq<char> {
        self@
    }
}

/// A signed receipt for a committed external effect.
#[derive(Debug, Hash)]
pub struct ReceiptId(pub String);

impl ReceiptId {
    pub open spec fn view(&self) -> Seq<char> {
        self.0@
    }

    /// Create a new random identifier with the canonical prefix.
    pub fn generate() -> (r: Self)
        ensures
            generated(r@, "rcpt-"@),
    {
        ReceiptId(fresh("rcpt-"))
    }

    /// Wrap an existing identifier string, validating its prefix.
    pub fn parse(s: &str) -> (r: Result<Self, KernelError>)
        ensures
            match r {
                Ok(id) => "rcpt-"@.is_prefix_of(s@) && id@ == s@,
                Err(e) => !"rcpt-"@.is_prefix_of(s@) && invalid_id(e, "rcpt"@, s@),
            },
    {
        if text::starts_with(s, "rcpt-") {
            Ok(ReceiptId(s.to_owned()))
        } else {
            Err(KernelError::InvalidId { expected_prefix: "rcpt", got: s.to_owned() })
        }
    }

    /// The identifier as text.
    pub fn as_str(&self) -> (r: &str)
        ensures
            r@ == self@,
    {
        self.0.as_str()
    }
}

impl Clone for ReceiptId {
    fn clone(&self) -> (r: Self)
        ensures
            r == *self,
    {
        ReceiptId(self.0.clone())
    }
}

impl PartialEq for ReceiptId {
    fn eq(&self, other: &Self) -> (r: bool) {
        self.0 == other.0
    }
}

impl Eq for ReceiptId {

}

impl vstd::std_specs::cmp::PartialEqSpecImpl for ReceiptId {
    open spec fn obeys_eq_spec() -> bool {
        true
    }

    open spec fn eq_spec(&self, other: &Self) -> bool {
        self@ == other@
    }
}

impl DeepView for ReceiptId {
    type V = Seq<char>;

    open spec fn deep_view(&self) -> Seq<char> {
        self@
    }
}

/// An effect identifier while its effect is pending.
pub type PendingEffectId = EffectId;

/// A receipt identifier once its effect is committed.
pub type CommittedReceiptId = ReceiptId;

/// An identifier tells its type: it is the prefix of the type and the thirty-six
/// characters of a UUID, so what was generated for one prefix starts with it.
pub proof fn law_identifiers_tell_their_type(id: Seq<char>, prefix: Seq<char>)
    requires
        generated(id, prefix),
    ensures
        id.len() == prefix.len() + 36,
        id.take(prefix.len() as int) == prefix,
        forall|i: int|
            0 <= i < 36 && i != 8 && i != 13 && i != 18 && i != 23 ==> {
                let c = #[trigger] id.skip(prefix.len() as int)[i];
                ('0' <= c && c <= '9') || ('a' <= c && c <= 'f')
            },
        ({
            let u = id.skip(prefix.len() as int);
            u[8] == '-' && u[13] == '-' && u[18] == '-' && u[23] == '-'
        }),
{
    let u = choose|u: Seq<char>| uuid_text(u) && id == #[trigger] (prefix + u);
    assert(id.take(prefix.len() as int) =~= prefix);
    assert(id.skip(prefix.len() as int) =~= u);
    assert(u[8] == '-' && u[13] == '-' && u[18] == '-' && u[23] == '-');
}

/// An identifier of the wrong type is refused with the prefix it should have had.
pub proof fn law_wrong_prefixes_are_named(e: KernelError, prefix: Seq<char>, got: Seq<char>)
    requires
        invalid_id(e, prefix, got),
    ensures
        e is InvalidId,
        e.spec_message() == "invalid id: expected prefix `"@ + prefix + "`, got `"@ + got + "`"@,
{
}

} // verus!
