//! Error type of the identity layer.
use vstd::prelude::*;
use crate::capability::AttenuationError;
use crate::error::KernelError;
use crate::text;

verus! {

/// The result of an identity operation.
pub type IdentityResult<T> = Result<T, IdentityError>;

/// Everything that can go wrong in the identity layer.
#[derive(Debug)]
pub enum IdentityError {
    /// A principal id was not found in the registry.
    UnknownPrincipal(String),
    /// A lease id was not found in the store.
    UnknownLease(String),
    /// A principal with this id is already registered.
    DuplicatePrincipal(String),
    /// The declared parent of a principal is not registered.
    UnknownParent(String),
    /// The lease exists but cannot be used (revoked / expired / exhausted).
    LeaseUnusable { lease: String, reason: String },
    /// Delegation was rejected by registry-level checks.
    DelegationRejected(String),
    /// Attenuation was rejected by the core lease algebra.
    Attenuation(AttenuationError),
    /// The database failed; the text is the database's.
    Storage(String),
    /// A persisted row could not be written or read; the text is the
    /// serializer's.
    Serde(String),
    /// Key material could not be loaded or parsed.
    Key(String),
    /// Filesystem failure while loading/saving key material; the text is the
    /// system's.
    Io(String),
}

impl IdentityError {
    /// The error as people read it.
    pub open spec fn spec_message(&self) -> Seq<char> {
        match self {
            IdentityError::UnknownPrincipal(id) => "unknown principal `"@ + id@ + "`"@,
            IdentityError::UnknownLease(id) => "unknown lease `"@ + id@ + "`"@,
            IdentityError::DuplicatePrincipal(id) => "principal `"@ + id@
                + "` is already registered"@,
            IdentityError::UnknownParent(id) => "parent principal `"@ + id@
                + "` is not registered"@,
            IdentityError::LeaseUnusable { lease, reason } => "lease `"@ + lease@
                + "` is unusable: "@ + reason@,
            IdentityError::DelegationRejected(m) => "delegation rejected: "@ + m@,
            IdentityError::Attenuation(m) => "attenuation rejected: "@ + m.spec_message(),
            IdentityError::Storage(m) => "storage error: "@ + m@,
            IdentityError::Serde(m) => "serialization error: "@ + m@,
            IdentityError::Key(m) => "key error: "@ + m@,
            IdentityError::Io(m) => "io error: "@ + m@,
        }
    }

    /// The error as people read it.
    pub fn message(&self) -> (r: String)
        ensures
            r@ == self.spec_message(),
    {
        match self {
            IdentityError::UnknownPrincipal(id) => text::cat3(
                "unknown principal `",
                id.as_str(),
                "`",
            ),
            IdentityError::UnknownLease(id) => text::cat3("unknown lease `", id.as_str(), "`"),
            IdentityError::DuplicatePrincipal(id) => text::cat3(
                "principal `",
                id.as_str(),
                "` is already registered",
            ),
            IdentityError::UnknownParent(id) => text::cat3(
                "parent principal `",
                id.as_str(),
                "` is not registered",
            ),
            IdentityError::LeaseUnusable { lease, reason } => text::cat4(
                "lease `",
                lease.as_str(),
                "` is unusable: ",
                reason.as_str(),
            ),
            IdentityError::DelegationRejected(m) => text::cat2(
                "delegation rejected: ",
                m.as_str(),
            ),
            IdentityError::Attenuation(m) => {
                let why = m.message();
                text::cat2("attenuation rejected: ", why.as_str())
            },
            IdentityError::Storage(m) => text::cat2("storage error: ", m.as_str()),
            IdentityError::Serde(m) => text::cat2("serialization error: ", m.as_str()),
            IdentityError::Key(m) => text::cat2("key error: ", m.as_str()),
            IdentityError::Io(m) => text::cat2("io error: ", m.as_str()),
        }
    }

    /// The kernel error says what this error says.
    pub open spec fn becomes(self, e: KernelError) -> bool {
        match self {
            IdentityError::UnknownPrincipal(id) => e matches KernelError::NotFound { kind, id: got }
                && kind@ == "principal"@ && got == id,
            IdentityError::UnknownLease(id) => e matches KernelError::NotFound { kind, id: got }
                && kind@ == "lease"@ && got == id,
            IdentityError::Storage(m) => e == KernelError::Storage(m),
            IdentityError::Serde(m) => e == KernelError::Serde(m),
            IdentityError::Io(m) => e == KernelError::Io(m),
            _ => e matches KernelError::Other(m) && m@ == self.spec_message(),
        }
    }

    /// The error at the kernel's boundary: unknown ids are not found, failures
    /// of storage, serialization and input or output keep their kind, and
    /// everything else is carried as its message.
    pub fn into_kernel(self) -> (e: KernelError)
        ensures
            self.becomes(e),
    {
        match self {
            IdentityError::UnknownPrincipal(id) => KernelError::NotFound { kind: "principal", id },
            IdentityError::UnknownLease(id) => KernelError::NotFound { kind: "lease", id },
            IdentityError::Storage(m) => KernelError::Storage(m),
            IdentityError::Serde(m) => KernelError::Serde(m),
            IdentityError::Io(m) => KernelError::Io(m),
            other => KernelError::Other(other.message()),
        }
    }
}

/// What is not known is not found, what failed below is told as it failed, and
/// everything else with its words.
pub proof fn law_identity_errors_keep_their_meaning(e: IdentityError, k: KernelError)
    requires
        e.becomes(k),
    ensures
        e matches IdentityError::UnknownPrincipal(id) ==> (k matches KernelError::NotFound {
            kind,
            id: got,
        } && kind@ == "principal"@ && got@ == id@),
        e matches IdentityError::UnknownLease(id) ==> (k matches KernelError::NotFound {
            kind,
            id: got,
        } && kind@ == "lease"@ && got@ == id@),
        e is Storage ==> k is Storage,
        e is Serde ==> k is Serde,
        e is Io ==> k is Io,
        e is LeaseUnusable || e is DelegationRejected || e is Attenuation || e is Key || e
            is DuplicatePrincipal || e is UnknownParent ==> (k matches KernelError::Other(m) && m@
            == e.spec_message()),
        k is NotFound ==> e is UnknownPrincipal || e is UnknownLease,
{
}

} // verus!
