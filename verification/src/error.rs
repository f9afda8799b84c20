//! Kernel-wide error type.
use vstd::prelude::*;
use crate::denial::Denial;
use crate::json::{Json, JsonMap, Value};
use crate::text;

verus! {

/// What can go wrong in the kernel.
#[derive(Debug)]
pub enum KernelError {
    InvalidId { expected_prefix: &'static str, got: String },
    NotFound { kind: &'static str, id: String },
    Denied(Box<Denial>),
    WrongEffectPhase { effect: String, phase: String, expected: &'static str },
    StaleAuthorization { reason: String },
    DuplicateCommit { key: String, receipt: String },
    CommitInDoubt { effect: String, reason: String },
    BackendUnavailable { backend: String, reason: String },
    BranchDiscarded { branch: String },
    MergeConflict { paths: Vec<String> },
    Storage(String),
    Connector(String),
    /// Serialization failed; the text is the serializer's.
    Serde(String),
    /// Input or output failed; the text is the system's.
    Io(String),
    Other(String),
}

/// The result of a kernel operation.
pub type KernelResult<T> = Result<T, KernelError>;

/// How a list of texts reads in debug form: each in double quotes with
/// escapes, separated by commas, in square brackets.
pub uninterp spec fn debug_list(texts: Seq<Seq<char>>) -> Seq<char>;

/// `std`'s `Debug` for a vector of strings.
#[verifier::external_body]
pub(crate) fn format_debug_list(texts: &Vec<String>) -> (r: String)
    ensures
        r@ == debug_list(texts.deep_view()),
{
    format!("{:?}", texts)
}

impl KernelError {
    /// Stable machine-readable code for the wire protocol.
    pub open spec fn spec_code(&self) -> Seq<char> {
        match self {
            KernelError::InvalidId { .. } => "INVALID_ID"@,
            KernelError::NotFound { .. } => "NOT_FOUND"@,
            KernelError::Denied(_) => "DENIED"@,
            KernelError::WrongEffectPhase { .. } => "WRONG_EFFECT_PHASE"@,
            KernelError::StaleAuthorization { .. } => "STALE_AUTHORIZATION"@,
            KernelError::DuplicateCommit { .. } => "DUPLICATE_COMMIT"@,
            KernelError::CommitInDoubt { .. } => "COMMIT_IN_DOUBT"@,
            KernelError::BackendUnavailable { .. } => "BACKEND_UNAVAILABLE"@,
            KernelError::BranchDiscarded { .. } => "BRANCH_DISCARDED"@,
            KernelError::MergeConflict { .. } => "MERGE_CONFLICT"@,
            KernelError::Storage(_) => "STORAGE"@,
            KernelError::Connector(_) => "CONNECTOR"@,
            KernelError::Serde(_) => "SERDE"@,
            KernelError::Io(_) => "IO"@,
            KernelError::Other(_) => "OTHER"@,
        }
    }

    /// The human-readable message.
    pub open spec fn spec_message(&self) -> Seq<char> {
        match self {
            KernelError::InvalidId { expected_prefix, got } => "invalid id: expected prefix `"@
                + expected_prefix@ + "`, got `"@ + got@ + "`"@,
            KernelError::NotFound { kind, id } => "unknown object: "@ + kind@ + " `"@ + id@ + "`"@,
            KernelError::Denied(d) => "action denied: "@ + d.reason@,
            KernelError::WrongEffectPhase { effect, phase, expected } => "effect `"@ + effect@
                + "` is in phase "@ + phase@ + " but `"@ + expected@ + "` was required"@,
            KernelError::StaleAuthorization { reason } => "commit-time revalidation failed: "@
                + reason@,
            KernelError::DuplicateCommit { key, receipt } => "idempotency key `"@ + key@
                + "` was already committed as receipt `"@ + receipt@ + "`"@,
            KernelError::CommitInDoubt { effect, reason } => "effect `"@ + effect@
                + "` is in doubt: a commit attempt failed indeterminately ("@ + reason@
                + "); the connector could not confirm whether the external effect happened. Resolve via recovery or operator decision — do NOT blindly retry."@,
            KernelError::BackendUnavailable { backend, reason } => "backend `"@ + backend@
                + "` unavailable: "@ + reason@,
            KernelError::BranchDiscarded { branch } => "branch `"@ + branch@
                + "` was already discarded"@,
            KernelError::MergeConflict { paths } => "merge conflict on "@ + debug_list(
                paths.deep_view(),
            ),
            KernelError::Storage(m) => "storage error: "@ + m@,
            KernelError::Connector(m) => "connector error: "@ + m@,
            KernelError::Serde(m) => "serialization error: "@ + m@,
            KernelError::Io(m) => "io error: "@ + m@,
            KernelError::Other(m) => m@,
        }
    }

    /// Stable machine-readable code for the wire protocol.
    pub fn code(&self) -> (r: &'static str)
        ensures
            r@ == self.spec_code(),
    {
        match self {
            KernelError::InvalidId { .. } => "INVALID_ID",
            KernelError::NotFound { .. } => "NOT_FOUND",
            KernelError::Denied(_) => "DENIED",
            KernelError::WrongEffectPhase { .. } => "WRONG_EFFECT_PHASE",
            KernelError::StaleAuthorization { .. } => "STALE_AUTHORIZATION",
            KernelError::DuplicateCommit { .. } => "DUPLICATE_COMMIT",
            KernelError::CommitInDoubt { .. } => "COMMIT_IN_DOUBT",
            KernelError::BackendUnavailable { .. } => "BACKEND_UNAVAILABLE",
            KernelError::BranchDiscarded { .. } => "BRANCH_DISCARDED",
            KernelError::MergeConflict { .. } => "MERGE_CONFLICT",
            KernelError::Storage(_) => "STORAGE",
            KernelError::Connector(_) => "CONNECTOR",
            KernelError::Serde(_) => "SERDE",
            KernelError::Io(_) => "IO",
            KernelError::Other(_) => "OTHER",
        }
    }

    /// The human-readable message.
    pub fn message(&self) -> (r: String)
        ensures
            r@ == self.spec_message(),
    {
        match self {
            KernelError::InvalidId { expected_prefix, got } => text::cat5(
                "invalid id: expected prefix `",
                expected_prefix,
                "`, got `",
                got.as_str(),
                "`",
            ),
            KernelError::NotFound { kind, id } => text::cat5(
                "unknown object: ",
                kind,
                " `",
                id.as_str(),
                "`",
            ),
            KernelError::Denied(d) => text::cat2("action denied: ", d.reason.as_str()),
            KernelError::WrongEffectPhase { effect, phase, expected } => text::cat7(
                "effect `",
                effect.as_str(),
                "` is in phase ",
                phase.as_str(),
                " but `",
                expected,
                "` was required",
            ),
            KernelError::StaleAuthorization { reason } => text::cat2(
                "commit-time revalidation failed: ",
                reason.as_str(),
            ),
            KernelError::DuplicateCommit { key, receipt } => text::cat5(
                "idempotency key `",
                key.as_str(),
                "` was already committed as receipt `",
                receipt.as_str(),
                "`",
            ),
            KernelError::CommitInDoubt { effect, reason } => text::cat5(
                "effect `",
                effect.as_str(),
                "` is in doubt: a commit attempt failed indeterminately (",
                reason.as_str(),
                "); the connector could not confirm whether the external effect happened. Resolve via recovery or operator decision — do NOT blindly retry.",
            ),
            KernelError::BackendUnavailable { backend, reason } => text::cat4(
                "backend `",
                backend.as_str(),
                "` unavailable: ",
                reason.as_str(),
            ),
            KernelError::BranchDiscarded { branch } => text::cat3(
                "branch `",
                branch.as_str(),
                "` was already discarded",
            ),
            KernelError::MergeConflict { paths } => {
                let list = format_debug_list(paths);
                text::cat2("merge conflict on ", list.as_str())
            },
            KernelError::Storage(m) => text::cat2("storage error: ", m.as_str()),
            KernelError::Connector(m) => text::cat2("connector error: ", m.as_str()),
            KernelError::Serde(m) => text::cat2("serialization error: ", m.as_str()),
            KernelError::Io(m) => text::cat2("io error: ", m.as_str()),
            KernelError::Other(m) => m.clone(),
        }
    }
}

/// Wire-serializable error envelope.
#[derive(Debug)]
pub struct ErrorEnvelope {
    pub code: String,
    pub message: String,
    pub denial: Option<Denial>,
}

impl ErrorEnvelope {
    /// The envelope in JSON. A denial that is not there is left out.
    pub open spec fn json(&self) -> Json {
        let m = map!["code"@ => Json::Text(self.code@), "message"@ => Json::Text(self.message@)];
        Json::Object(
            match self.denial {
                Some(d) => m.insert("denial"@, d@.json()),
                None => m,
            },
        )
    }

    /// The envelope in JSON. A denial that is not there is left out.
    pub fn to_value(&self) -> (r: Value)
        ensures
            r@ == self.json(),
    {
        let mut m = JsonMap::new();
        m.insert("code".to_owned(), Value::text(self.code.as_str()));
        m.insert("message".to_owned(), Value::text(self.message.as_str()));
        match &self.denial {
            Some(d) => m.insert("denial".to_owned(), d.to_value()),
            None => {},
        }
        Value::Object(m)
    }

    /// The envelope of an error: its code, its message and, for a denial, the
    /// denial itself.
    pub fn of(e: &KernelError) -> (r: ErrorEnvelope)
        ensures
            r.code@ == e.spec_code(),
            r.message@ == e.spec_message(),
            r.denial.deep_view() == match e {
                KernelError::Denied(d) => Some(d@),
                _ => None,
            },
    {
        let denial = match e {
            KernelError::Denied(d) => Some((**d).clone()),
            _ => None,
        };
        ErrorEnvelope { code: e.code().to_owned(), message: e.message(), denial }
    }

    /// The envelope of a refused step: the code `DENIED`, the denial's reason
    /// and the denial itself.
    pub fn of_denial(denial: &Denial) -> (r: ErrorEnvelope)
        ensures
            r.code@ == "DENIED"@,
            r.message@ == denial.reason@,
            r.denial.deep_view() == Some(denial@),
    {
        ErrorEnvelope {
            code: "DENIED".to_owned(),
            message: denial.reason.clone(),
            denial: Some(denial.clone()),
        }
    }
}

impl From<Denial> for KernelError {
    fn from(d: Denial) -> (r: KernelError) {
        KernelError::Denied(Box::new(d))
    }
}

impl vstd::std_specs::convert::FromSpecImpl<Denial> for KernelError {
    open spec fn obeys_from_spec() -> bool {
        true
    }

    open spec fn from_spec(d: Denial) -> KernelError {
        KernelError::Denied(Box::new(d))
    }
}

/// Every error has its code on the wire.
pub proof fn law_errors_have_their_codes(e: KernelError)
    ensures
        e is InvalidId ==> e.spec_code() == "INVALID_ID"@,
        e is NotFound ==> e.spec_code() == "NOT_FOUND"@,
        e is Denied ==> e.spec_code() == "DENIED"@,
        e is WrongEffectPhase ==> e.spec_code() == "WRONG_EFFECT_PHASE"@,
        e is StaleAuthorization ==> e.spec_code() == "STALE_AUTHORIZATION"@,
        e is DuplicateCommit ==> e.spec_code() == "DUPLICATE_COMMIT"@,
        e is CommitInDoubt ==> e.spec_code() == "COMMIT_IN_DOUBT"@,
        e is BackendUnavailable ==> e.spec_code() == "BACKEND_UNAVAILABLE"@,
        e is BranchDiscarded ==> e.spec_code() == "BRANCH_DISCARDED"@,
        e is MergeConflict ==> e.spec_code() == "MERGE_CONFLICT"@,
        e is Storage ==> e.spec_code() == "STORAGE"@,
        e is Connector ==> e.spec_code() == "CONNECTOR"@,
        e is Serde ==> e.spec_code() == "SERDE"@,
        e is Io ==> e.spec_code() == "IO"@,
        e is Other ==> e.spec_code() == "OTHER"@,
{
}

/// What an error says names what it is about: the object, the effect, the key, the
/// branch or the backend, and the reason.
pub proof fn law_errors_name_what_they_are_about(e: KernelError)
    ensures
        e matches KernelError::NotFound { kind, id } ==> e.spec_message() == "unknown object: "@
            + kind@ + " `"@ + id@ + "`"@,
        e matches KernelError::InvalidId { expected_prefix, got } ==> e.spec_message()
            == "invalid id: expected prefix `"@ + expected_prefix@ + "`, got `"@ + got@ + "`"@,
        e matches KernelError::Denied(d) ==> e.spec_message() == "action denied: "@ + d.reason@,
        e matches KernelError::WrongEffectPhase { effect, phase, expected } ==> e.spec_message()
            == "effect `"@ + effect@ + "` is in phase "@ + phase@ + " but `"@ + expected@
            + "` was required"@,
        e matches KernelError::StaleAuthorization { reason } ==> e.spec_message()
            == "commit-time revalidation failed: "@ + reason@,
        e matches KernelError::DuplicateCommit { key, receipt } ==> e.spec_message()
            == "idempotency key `"@ + key@ + "` was already committed as receipt `"@ + receipt@
            + "`"@,
        e matches KernelError::BackendUnavailable { backend, reason } ==> e.spec_message()
            == "backend `"@ + backend@ + "` unavailable: "@ + reason@,
        e matches KernelError::BranchDiscarded { branch } ==> e.spec_message() == "branch `"@
            + branch@ + "` was already discarded"@,
        e matches KernelError::Storage(m) ==> e.spec_message() == "storage error: "@ + m@,
        e matches KernelError::Connector(m) ==> e.spec_message() == "connector error: "@ + m@,
        e matches KernelError::Other(m) ==> e.spec_message() == m@,
{
}

/// An envelope tells code and message, and the denial where there is one.
pub proof fn law_envelopes_tell_the_denial(x: ErrorEnvelope)
    ensures
        x.json() matches Json::Object(m) && m.contains_key("code"@) && m["code"@] == Json::Text(
            x.code@,
        ) && m.contains_key("message"@) && m["message"@] == Json::Text(x.message@) && (
        m.contains_key("denial"@) <==> x.denial is Some) && (x.denial matches Some(d)
            ==> m["denial"@] == d@.json()),
{
    reveal_strlit("code");
    reveal_strlit("message");
    reveal_strlit("denial");
    assert("code"@.len() == 4 && "message"@.len() == 7 && "denial"@.len() == 6);
}

} // verus!
