//! Error type of the policy modules.
use vstd::prelude::*;
use crate::text;

verus! {

/// Everything that can go wrong while loading or compiling policy.
#[derive(Debug)]
pub enum PolicyError {
    /// The YAML text could not be parsed; the text is the parser's.
    Yaml(String),
    /// A document failed semantic validation after parsing.
    Invalid(String),
    /// A grant could not be compiled into a lease and confinement.
    GrantRejected(String),
    /// An envelope entry was rejected (e.g. it collides with a forbid rule).
    EnvelopeRejected(String),
    /// Filesystem failure while loading a policy file.
    Io(String),
    /// JSON conversion failure.
    Serde(String),
}

/// The result of a policy operation.
pub type PolicyResult<T> = Result<T, PolicyError>;

impl PolicyError {
    /// The human-readable message.
    pub open spec fn spec_message(&self) -> Seq<char> {
        match self {
            PolicyError::Yaml(m) => "invalid policy yaml: "@ + m@,
            PolicyError::Invalid(m) => "invalid policy document: "@ + m@,
            PolicyError::GrantRejected(m) => "grant rejected: "@ + m@,
            PolicyError::EnvelopeRejected(m) => "envelope rejected: "@ + m@,
            PolicyError::Io(m) => "io error: "@ + m@,
            PolicyError::Serde(m) => "serialization error: "@ + m@,
        }
    }

    /// The human-readable message.
    pub fn message(&self) -> (r: String)
        ensures
            r@ == self.spec_message(),
    {
        match self {
            PolicyError::Yaml(m) => text::cat2("invalid policy yaml: ", m.as_str()),
            PolicyError::Invalid(m) => text::cat2("invalid policy document: ", m.as_str()),
            PolicyError::GrantRejected(m) => text::cat2("grant rejected: ", m.as_str()),
            PolicyError::EnvelopeRejected(m) => text::cat2("envelope rejected: ", m.as_str()),
            PolicyError::Io(m) => text::cat2("io error: ", m.as_str()),
            PolicyError::Serde(m) => text::cat2("serialization error: ", m.as_str()),
        }
    }
}

} // verus!
