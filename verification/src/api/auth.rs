//! Bearer-token authentication and per-resource authorization for the HTTP
//! control plane.
//!
//! - Every request (except `/healthz`) must carry `Authorization: Bearer
//!   <token>` when auth is enabled. Tokens are compared by SHA-256 digest in
//!   constant time.
//! - A token maps to an authenticated [`PrincipalId`] plus a role set.
//!   Principals in request bodies are not trusted: they must match the
//!   authenticated principal unless the caller holds [`Role::Admin`].
//! - Effect approval requires [`Role::Approver`]; the approver recorded is the
//!   authenticated principal, never a body-supplied one.
//! - Ownership: episode- and branch-scoped operations are restricted to the
//!   episode's creator (or an admin).
//!
//! [`AuthConfig::disabled`] trusts the request body, for local development and
//! in-process tests.
use vstd::prelude::*;
use vstd::utf8::encode_utf8;
use crate::error::ErrorEnvelope;
use crate::hash::{digest, encode_hex, hex_text, sha256};
use crate::ids::PrincipalId;
use crate::lines::{trim, trimmed};
use crate::text;

verus! {

/// Coarse-grained roles carried by an API token.
#[derive(Debug, Clone, Copy, PartialEq, Eq, Structural)]
pub enum Role {
    /// Full control plane access, may act on behalf of any principal.
    Admin,
    /// May approve effects (a human or an approval service).
    Approver,
    /// May drive its own episodes, steps, and capability requests.
    Agent,
}

impl Role {
    /// The role's name.
    pub open spec fn spec_name(self) -> Seq<char> {
        match self {
            Role::Admin => "Admin"@,
            Role::Approver => "Approver"@,
            Role::Agent => "Agent"@,
        }
    }

    /// The role's name.
    pub fn name(&self) -> (r: &'static str)
        ensures
            r@ == self.spec_name(),
    {
        match self {
            Role::Admin => "Admin",
            Role::Approver => "Approver",
            Role::Agent => "Agent",
        }
    }
}

/// One token entry in the auth config file.
#[derive(Debug)]
pub struct TokenEntry {
    /// SHA-256 of the bearer token, lowercase hex. The plaintext token never
    /// appears in config.
    pub token_sha256: String,
    /// The principal this token authenticates as.
    pub principal: PrincipalId,
    /// Roles granted to the token.
    pub roles: Vec<Role>,
}

/// Authentication configuration.
#[derive(Debug)]
pub struct AuthConfig {
    /// When false, requests are anonymous and body principals are trusted
    /// (local-dev mode).
    pub enabled: bool,
    /// Registered tokens.
    pub tokens: Vec<TokenEntry>,
}

impl Default for AuthConfig {
    fn default() -> (r: Self)
        ensures
            !r.enabled,
            r.tokens@.len() == 0,
    {
        AuthConfig { enabled: false, tokens: Vec::new() }
    }
}

/// The last of the first `n` tokens whose digest it is. The case of the
/// configured digest does not matter.
pub open spec fn token_with(tokens: Seq<TokenEntry>, d: Seq<char>, n: nat) -> Option<int>
    decreases n,
{
    if n == 0 {
        None
    } else if text::ascii_lower(tokens[n - 1].token_sha256@) == d {
        Some(n - 1)
    } else {
        token_with(tokens, d, (n - 1) as nat)
    }
}

/// The config digest form of a bearer token.
pub open spec fn digest_of(token: Seq<char>) -> Seq<char> {
    hex_text(sha256(encode_utf8(token)))
}

/// The bearer token in a header value.
pub open spec fn bearer(header: Option<Seq<char>>) -> Option<Seq<char>> {
    match header {
        Some(v) => if "Bearer "@.is_prefix_of(v) {
            Some(trimmed(v.skip("Bearer "@.len() as int)))
        } else {
            None
        },
        None => None,
    }
}

impl AuthConfig {
    /// Trust-the-body mode for loopback development and tests.
    pub fn disabled() -> (r: Self)
        ensures
            !r.enabled,
            r.tokens@.len() == 0,
    {
        AuthConfig { enabled: false, tokens: Vec::new() }
    }

    /// Token-authenticated mode.
    pub fn with_tokens(tokens: Vec<TokenEntry>) -> (r: Self)
        ensures
            r.enabled,
            r.tokens == tokens,
    {
        AuthConfig { enabled: true, tokens }
    }

    /// Who a request comes from: anyone when auth is disabled or for the
    /// liveness probe; else the principal of the last configured token whose
    /// digest is that of the bearer token.
    pub open spec fn admits(
        &self,
        path: Seq<char>,
        header: Option<Seq<char>>,
        r: Result<AuthContext, AuthError>,
    ) -> bool {
        if !self.enabled || path == "/healthz"@ {
            r matches Ok(c) && c.trusting() && c.who() is None && c.roles().len() == 0
        } else {
            match bearer(header) {
                None => r == Err::<AuthContext, AuthError>(AuthError::Unauthenticated),
                Some(token) => match token_with(
                    self.tokens@,
                    digest_of(token),
                    self.tokens@.len(),
                ) {
                    None => r == Err::<AuthContext, AuthError>(AuthError::Unauthenticated),
                    Some(i) => r matches Ok(c) && !c.trusting() && c.who() == Some(
                        self.tokens@[i].principal,
                    ) && c.roles() == self.tokens@[i].roles@,
                },
            }
        }
    }

    /// Authenticates a request from its path and the value of its
    /// `Authorization` header, `None` when there is none that is text. Every
    /// entry is compared in constant time, so that timing does not reveal digest
    /// prefixes. The liveness probe is deliberately unauthenticated.
    pub fn require_auth(&self, path: &str, header: Option<&str>) -> (r: Result<
        AuthContext,
        AuthError,
    >)
        ensures
            self.admits(
                path@,
                match header {
                    Some(h) => Some(h@),
                    None => None,
                },
                r,
            ),
    {
        if !self.enabled {
            return Ok(AuthContext::anonymous());
        }
        if text::str_eq(path, "/healthz") {
            return Ok(AuthContext::anonymous());
        }
        let value = match header {
            Some(h) => h,
            None => {
                return Err(AuthError::Unauthenticated);
            },
        };
        if !text::starts_with(value, "Bearer ") {
            return Err(AuthError::Unauthenticated);
        }
        let chars = text::chars_of(value);
        proof {
            reveal_strlit("Bearer ");
        }
        let rest = text::slice(&chars, 7, chars.len());
        proof {
            assert(rest@ =~= value@.skip(7));
        }
        let token = text::string_of(&trim(&rest));
        let d = token_digest(token.as_str());
        let mut matched: Option<usize> = None;
        let mut i: usize = 0;
        while i < self.tokens.len()
            invariant
                i <= self.tokens.len(),
                match (matched, token_with(self.tokens@, d@, i as nat)) {
                    (Some(a), Some(b)) => a == b && a < i,
                    (None, None) => true,
                    _ => false,
                },
            decreases self.tokens.len() - i,
        {
            let entry = text::to_ascii_lower(self.tokens[i].token_sha256.as_str());
            if digest_eq(d.as_str(), entry.as_str()) {
                matched = Some(i);
            }
            i = i + 1;
        }
        match matched {
            Some(m) => Ok(
                AuthContext::authenticated(
                    self.tokens[m].principal.clone(),
                    clone_roles(&self.tokens[m].roles),
                ),
            ),
            None => Err(AuthError::Unauthenticated),
        }
    }
}

fn clone_roles(v: &Vec<Role>) -> (r: Vec<Role>)
    ensures
        r@ == v@,
{
    let mut out: Vec<Role> = Vec::new();
    let mut i: usize = 0;
    while i < v.len()
        invariant
            i <= v.len(),
            out@ == v@.take(i as int),
        decreases v.len() - i,
    {
        out.push(v[i]);
        proof {
            assert(v@.take(i + 1) =~= v@.take(i as int).push(v@[i as int]));
        }
        i = i + 1;
    }
    proof {
        assert(v@.take(v@.len() as int) =~= v@);
    }
    out
}

/// Hash a plaintext bearer token to its config digest form.
pub fn token_digest(token: &str) -> (r: String)
    ensures
        r@ == digest_of(token@),
{
    let d = digest(token.as_bytes());
    encode_hex(&d)
}

/// The caller of a request.
#[derive(Debug)]
pub struct AuthContext {
    /// Authenticated principal; `None` only in disabled mode.
    pub principal: Option<PrincipalId>,
    roles: Vec<Role>,
    disabled: bool,
}

impl AuthContext {
    /// The authenticated principal.
    pub closed spec fn who(&self) -> Option<PrincipalId> {
        self.principal
    }

    /// The roles of the caller's token.
    pub closed spec fn roles(&self) -> Seq<Role> {
        self.roles@
    }

    /// Auth is disabled for this caller.
    pub closed spec fn trusting(&self) -> bool {
        self.disabled
    }

    /// The caller holds the role, in its token, as an admin, or because auth is
    /// disabled.
    pub open spec fn holds(&self, role: Role) -> bool {
        self.trusting() || self.roles().contains(role) || self.roles().contains(Role::Admin)
    }

    /// The caller may act for the principal, and on what it owns.
    pub open spec fn speaks_for(&self, who: Seq<char>) -> bool {
        match self.who() {
            None => true,
            Some(p) => p@ == who || self.holds(Role::Admin),
        }
    }

    /// The caller of a request that nothing authenticated.
    pub fn anonymous() -> (r: Self)
        ensures
            r.who() is None,
            r.roles().len() == 0,
            r.trusting(),
    {
        AuthContext { principal: None, roles: Vec::new(), disabled: true }
    }

    /// The caller of a request that a token authenticated.
    pub fn authenticated(principal: PrincipalId, roles: Vec<Role>) -> (r: Self)
        ensures
            r.who() == Some(principal),
            r.roles() == roles@,
            !r.trusting(),
    {
        AuthContext { principal: Some(principal), roles, disabled: false }
    }

    /// True when the caller holds `role` (disabled mode grants everything).
    pub fn has_role(&self, role: Role) -> (r: bool)
        ensures
            r == self.holds(role),
    {
        self.disabled || has(&self.roles, role) || has(&self.roles, Role::Admin)
    }

    /// Resolve the principal a request acts as: in authenticated mode the body
    /// principal must equal the token principal unless the caller is an admin;
    /// in disabled mode the body is trusted.
    pub fn act_as(&self, body_principal: &PrincipalId) -> (r: Result<PrincipalId, AuthError>)
        ensures
            match r {
                Ok(p) => self.speaks_for(body_principal@) && p == *body_principal,
                Err(e) => !self.speaks_for(body_principal@) && e == AuthError::PrincipalMismatch,
            },
    {
        match &self.principal {
            None => Ok(body_principal.clone()),
            Some(p) => {
                if text::str_eq(p.as_str(), body_principal.as_str()) || self.has_role(
                    Role::Admin,
                ) {
                    Ok(body_principal.clone())
                } else {
                    Err(AuthError::PrincipalMismatch)
                }
            },
        }
    }

    /// Require that the caller owns `owner`'s resources or is an admin.
    pub fn require_owner(&self, owner: &PrincipalId) -> (r: Result<(), AuthError>)
        ensures
            match r {
                Ok(_) => self.speaks_for(owner@),
                Err(e) => !self.speaks_for(owner@) && e == AuthError::NotOwner,
            },
    {
        match &self.principal {
            None => Ok(()),
            Some(p) => {
                if text::str_eq(p.as_str(), owner.as_str()) || self.has_role(Role::Admin) {
                    Ok(())
                } else {
                    Err(AuthError::NotOwner)
                }
            },
        }
    }

    /// The principal that an approval is recorded under: the authenticated one,
    /// never one that the body names. Without authentication the body is
    /// trusted.
    pub fn approver(&self, body: PrincipalId) -> (r: PrincipalId)
        ensures
            r == match self.who() {
                Some(p) => p,
                None => body,
            },
    {
        match &self.principal {
            Some(p) => p.clone(),
            None => body,
        }
    }

    /// Require what a trace query needs: the owner of its episode, or an admin
    /// for a query over all episodes.
    pub fn require_trace(&self, owner: Option<&PrincipalId>) -> (r: Result<(), AuthError>)
        ensures
            match (owner, r) {
                (Some(o), Ok(_)) => self.speaks_for(o@),
                (Some(o), Err(e)) => !self.speaks_for(o@) && e == AuthError::NotOwner,
                (None, Ok(_)) => self.holds(Role::Admin),
                (None, Err(e)) => !self.holds(Role::Admin) && e == AuthError::MissingRole(
                    Role::Admin,
                ),
            },
    {
        match owner {
            Some(o) => self.require_owner(o),
            None => self.require_role(Role::Admin),
        }
    }

    /// Require a role outright.
    pub fn require_role(&self, role: Role) -> (r: Result<(), AuthError>)
        ensures
            match r {
                Ok(_) => self.holds(role),
                Err(e) => !self.holds(role) && e == AuthError::MissingRole(role),
            },
    {
        if self.has_role(role) {
            Ok(())
        } else {
            Err(AuthError::MissingRole(role))
        }
    }
}

fn has(roles: &Vec<Role>, role: Role) -> (r: bool)
    ensures
        r == roles@.contains(role),
{
    let mut i: usize = 0;
    while i < roles.len()
        invariant
            i <= roles.len(),
            forall|j: int| 0 <= j < i ==> #[trigger] roles@[j] != role,
        decreases roles.len() - i,
    {
        if roles[i] == role {
            return true;
        }
        i = i + 1;
    }
    false
}

/// Authorization failures surfaced as HTTP 401/403.
#[derive(Debug, Clone, Copy, PartialEq, Eq, Structural)]
pub enum AuthError {
    /// No/invalid bearer token.
    Unauthenticated,
    /// Body principal differs from the authenticated one.
    PrincipalMismatch,
    /// Caller does not own the target resource.
    NotOwner,
    /// Caller lacks a required role.
    MissingRole(Role),
}

impl AuthError {
    /// The HTTP status.
    pub open spec fn spec_status(self) -> u16 {
        match self {
            AuthError::Unauthenticated => 401,
            _ => 403,
        }
    }

    /// The machine-readable code.
    pub open spec fn spec_code(self) -> Seq<char> {
        match self {
            AuthError::Unauthenticated => "UNAUTHENTICATED"@,
            AuthError::PrincipalMismatch => "PRINCIPAL_MISMATCH"@,
            AuthError::NotOwner => "NOT_OWNER"@,
            AuthError::MissingRole(_) => "MISSING_ROLE"@,
        }
    }

    /// The error as people read it.
    pub open spec fn spec_message(self) -> Seq<char> {
        match self {
            AuthError::Unauthenticated => "missing or invalid bearer token"@,
            AuthError::PrincipalMismatch => {
                "request principal does not match the authenticated principal"@
            },
            AuthError::NotOwner => "caller does not own the target resource"@,
            AuthError::MissingRole(role) => "caller lacks required role "@ + role.spec_name(),
        }
    }

    /// The HTTP response: the status and the error envelope.
    pub fn into_response(self) -> (r: (u16, ErrorEnvelope))
        ensures
            r.0 == self.spec_status(),
            r.1.code@ == self.spec_code(),
            r.1.message@ == self.spec_message(),
            r.1.denial is None,
    {
        let (status, code, message) = match self {
            AuthError::Unauthenticated => (
                401u16,
                "UNAUTHENTICATED",
                "missing or invalid bearer token".to_owned(),
            ),
            AuthError::PrincipalMismatch => (
                403u16,
                "PRINCIPAL_MISMATCH",
                "request principal does not match the authenticated principal".to_owned(),
            ),
            AuthError::NotOwner => (
                403u16,
                "NOT_OWNER",
                "caller does not own the target resource".to_owned(),
            ),
            AuthError::MissingRole(role) => (
                403u16,
                "MISSING_ROLE",
                text::cat2("caller lacks required role ", role.name()),
            ),
        };
        (status, ErrorEnvelope { code: code.to_owned(), message, denial: None })
    }
}

/// Constant-time equality over the two digests' bytes.
pub fn digest_eq(a: &str, b: &str) -> (r: bool)
    ensures
        r == (a@ == b@),
{
    let x = a.as_bytes();
    let y = b.as_bytes();
    proof {
        vstd::utf8::encode_utf8_decode_utf8(a@);
        vstd::utf8::encode_utf8_decode_utf8(b@);
        assert(x@ == encode_utf8(a@));
        assert(y@ == encode_utf8(b@));
    }
    if x.len() != y.len() {
        return false;
    }
    let mut acc: u8 = 0;
    let mut i: usize = 0;
    while i < x.len()
        invariant
            i <= x@.len() == y@.len(),
            acc == 0 <==> forall|j: int| 0 <= j < i ==> #[trigger] x@[j] == y@[j],
        decreases x@.len() - i,
    {
        let p = x[i];
        let q = y[i];
        proof {
            assert((acc | (p ^ q)) == 0u8 <==> (acc == 0u8 && p == q)) by (bit_vector);
        }
        acc = acc | (p ^ q);
        i = i + 1;
    }
    proof {
        if acc == 0 {
            assert(x@ =~= y@);
        }
    }
    acc == 0
}

/// An admin may act for anyone and owns everything.
pub proof fn law_admins_speak_for_everyone(c: AuthContext, who: Seq<char>, role: Role)
    requires
        c.roles().contains(Role::Admin),
    ensures
        c.speaks_for(who),
        c.holds(role),
{
}

/// A caller that is neither an admin nor trusted acts for nobody else.
pub proof fn law_agents_speak_for_themselves_only(c: AuthContext, me: PrincipalId, who: Seq<char>)
    requires
        c.who() == Some(me),
        !c.trusting(),
        !c.roles().contains(Role::Admin),
    ensures
        c.speaks_for(who) <==> who == me@,
{
}

/// A bearer token is what follows `Bearer ` in the header, trimmed; no other header
/// carries one.
pub proof fn law_bearer_tokens_follow_their_scheme(token: Seq<char>, header: Seq<char>)
    ensures
        bearer(None) is None,
        bearer(Some("Bearer "@ + token)) == Some(trimmed(token)),
        bearer(Some(header)) is Some ==> header.len() >= 7 && header[0] == 'B' && header[1] == 'e'
            && header[2] == 'a' && header[3] == 'r' && header[4] == 'e' && header[5] == 'r'
            && header[6] == ' ',
{
    reveal_strlit("Bearer ");
    let p = "Bearer "@;
    assert(p.len() == 7);
    assert((p + token).subrange(0, 7) =~= p);
    assert((p + token).skip(7) =~= token);
    if bearer(Some(header)) is Some {
        assert(header.subrange(0, 7) == p);
        assert(header.subrange(0, 7)[0] == header[0] && header.subrange(0, 7)[1] == header[1]);
        assert(header.subrange(0, 7)[2] == header[2] && header.subrange(0, 7)[3] == header[3]);
        assert(header.subrange(0, 7)[4] == header[4] && header.subrange(0, 7)[5] == header[5]);
        assert(header.subrange(0, 7)[6] == header[6]);
    }
}

/// A digest finds the last token that is configured with it, in either case, and none
/// only where there is none.
pub proof fn law_last_token_counts(tokens: Seq<TokenEntry>, d: Seq<char>, n: nat)
    requires
        n <= tokens.len(),
    ensures
        token_with(tokens, d, n) matches Some(i) ==> {
            &&& 0 <= i < n
            &&& text::ascii_lower(tokens[i].token_sha256@) == d
            &&& forall|j: int|
                i < j < n ==> text::ascii_lower((#[trigger] tokens[j]).token_sha256@) != d
        },
        token_with(tokens, d, n) is None ==> forall|j: int|
            0 <= j < n ==> text::ascii_lower((#[trigger] tokens[j]).token_sha256@) != d,
    decreases n,
{
    if n > 0 && text::ascii_lower(tokens[n - 1].token_sha256@) != d {
        law_last_token_counts(tokens, d, (n - 1) as nat);
    }
}

/// With authentication on, a request is admitted exactly if its bearer token hashes to
/// a configured digest, and then as that token's principal with that token's roles;
/// only the liveness probe needs none.
pub proof fn law_requests_are_admitted_by_their_token(
    config: AuthConfig,
    path: Seq<char>,
    header: Option<Seq<char>>,
    r: Result<AuthContext, AuthError>,
)
    requires
        config.admits(path, header, r),
    ensures
        !config.enabled || path == "/healthz"@ ==> (r matches Ok(c) && c.trusting() && c.who() is None
            && c.roles().len() == 0),
        config.enabled && path != "/healthz"@ ==> {
            &&& r matches Err(e) ==> e is Unauthenticated
            &&& bearer(header) is None ==> r is Err
            &&& bearer(header) matches Some(token) ==> (r is Ok <==> exists|i: int|
                0 <= i < config.tokens@.len() && text::ascii_lower(
                    (#[trigger] config.tokens@[i]).token_sha256@,
                ) == hex_text(sha256(encode_utf8(token))))
            &&& r matches Ok(c) ==> !c.trusting() && exists|i: int|
                0 <= i < config.tokens@.len() && c.who() == Some(
                    (#[trigger] config.tokens@[i]).principal,
                ) && c.roles() == config.tokens@[i].roles@ && text::ascii_lower(
                    config.tokens@[i].token_sha256@,
                ) == hex_text(sha256(encode_utf8(bearer(header)->0)))
        },
{
    if config.enabled && path != "/healthz"@ && bearer(header) is Some {
        let d = digest_of(bearer(header)->0);
        law_last_token_counts(config.tokens@, d, config.tokens@.len());
        if token_with(config.tokens@, d, config.tokens@.len()) is Some {
            let i = token_with(config.tokens@, d, config.tokens@.len())->0;
            assert(text::ascii_lower(config.tokens@[i].token_sha256@) == d);
        }
    }
}

/// A role is held by whom the token gives it to, and by admins; with authentication
/// off by everyone, for anyone.
pub proof fn law_roles_are_held_as_given(c: AuthContext, role: Role, who: Seq<char>)
    ensures
        c.trusting() ==> c.holds(role),
        !c.trusting() ==> (c.holds(role) <==> exists|i: int|
            0 <= i < c.roles().len() && (#[trigger] c.roles()[i] == role || c.roles()[i]
                == Role::Admin)),
        c.who() is None ==> c.speaks_for(who),
{
    if !c.trusting() {
        if c.roles().contains(role) {
            let i = c.roles().index_of(role);
            assert(c.roles()[i] == role);
        }
        if c.roles().contains(Role::Admin) {
            let i = c.roles().index_of(Role::Admin);
            assert(c.roles()[i] == Role::Admin);
        }
    }
}

/// Who is not known is asked to authenticate; who is known and may not is forbidden.
pub proof fn law_status_tells_unknown_from_forbidden(e: AuthError)
    ensures
        e.spec_status() == 401 <==> e is Unauthenticated,
        e.spec_status() == 403 <==> e is PrincipalMismatch || e is NotOwner || e is MissingRole,
        e is Unauthenticated ==> e.spec_code() == "UNAUTHENTICATED"@,
        e is PrincipalMismatch ==> e.spec_code() == "PRINCIPAL_MISMATCH"@,
        e is NotOwner ==> e.spec_code() == "NOT_OWNER"@,
        e is MissingRole ==> e.spec_code() == "MISSING_ROLE"@,
        e matches AuthError::MissingRole(role) ==> e.spec_message()
            == "caller lacks required role "@ + (match role {
            Role::Admin => "Admin"@,
            Role::Approver => "Approver"@,
            Role::Agent => "Agent"@,
        }),
{
}

} // verus!
