//! The secret broker: named credentials that are readable only on host-side
//! connector code paths.
//!
//! The only read API is [`SecretVault::with_secret`], which lends the secret to
//! a closure and never returns an owned handle. For tools that genuinely need a
//! network credential, [`SecretVault::mint_scoped_token`] gives a random opaque
//! token with an expiry and exactly one redemption: the guest sees only the
//! token, never the underlying credential.
use rand::RngCore;
use vstd::prelude::*;
use crate::error::{KernelError, KernelResult};
use crate::hash::{encode_hex, hex_text};
use crate::table::Table;
use crate::text;
use crate::time::Timestamp;

verus! {

/// A minted single-use token: guest-visible handle to a vault secret.
#[derive(Debug)]
pub struct ScopedToken {
    /// The opaque random token string handed to the guest.
    pub token: String,
    /// When the token stops being redeemable.
    pub expires_at: Timestamp,
}

/// What a token stands for.
#[derive(Debug)]
pub struct TokenState {
    pub secret_name: String,
    pub expires_at: Timestamp,
}

/// In-memory store of named secrets.
pub struct SecretVault {
    secrets: Table<String>,
    tokens: Table<TokenState>,
}

/// `rand::thread_rng` and its `fill_bytes`: as many random bytes as asked for.
/// Nothing is said of which ones.
#[verifier::external_body]
fn random_bytes(n: usize) -> (r: Vec<u8>)
    ensures
        r@.len() == n,
{
    let mut bytes = vec![0u8; n];
    rand::thread_rng().fill_bytes(&mut bytes);
    bytes
}

/// A scoped token reads as its prefix and 32 bytes in hexadecimal.
pub open spec fn token_text(t: Seq<char>) -> bool {
    exists|bytes: Seq<u8>| bytes.len() == 32 && t == #[trigger] ("akst-"@ + hex_text(bytes))
}

/// The error for a token that is not known, or no longer: it does not show the
/// token.
pub open spec fn unknown_token(e: KernelError) -> bool {
    e matches KernelError::NotFound { kind, id } && kind@ == "scoped_token"@ && id@
        == "<redacted>"@
}

/// A token lends its secret: it is known, it has not expired, and its secret is
/// in the vault.
pub open spec fn lends(
    tokens: Map<Seq<char>, (Seq<char>, Timestamp)>,
    secrets: Map<Seq<char>, Seq<char>>,
    token: Seq<char>,
    now: Timestamp,
) -> bool {
    &&& tokens.contains_key(token)
    &&& !tokens[token].1.before(now)
    &&& secrets.contains_key(tokens[token].0)
}

/// The error for a secret that is not in the vault.
pub open spec fn unknown_secret(e: KernelError, name: Seq<char>) -> bool {
    e matches KernelError::NotFound { kind, id } && kind@ == "secret"@ && id@ == name
}

spec fn secret_views(m: Map<Seq<char>, String>) -> Map<Seq<char>, Seq<char>> {
    m.map_values(|s: String| s@)
}

spec fn token_views(m: Map<Seq<char>, TokenState>) -> Map<Seq<char>, (Seq<char>, Timestamp)> {
    m.map_values(|t: TokenState| (t.secret_name@, t.expires_at))
}

impl SecretVault {
    /// The secrets by name.
    pub closed spec fn secrets(&self) -> Map<Seq<char>, Seq<char>> {
        secret_views(self.secrets@)
    }

    /// The tokens that can still be redeemed: for each the secret's name and
    /// the expiry.
    pub closed spec fn tokens(&self) -> Map<Seq<char>, (Seq<char>, Timestamp)> {
        token_views(self.tokens@)
    }

    /// An empty vault.
    pub fn in_memory() -> (r: Self)
        ensures
            r.secrets() == Map::<Seq<char>, Seq<char>>::empty(),
            r.tokens() == Map::<Seq<char>, (Seq<char>, Timestamp)>::empty(),
    {
        let r = SecretVault { secrets: Table::new(), tokens: Table::new() };
        proof {
            assert(r.secrets() =~= Map::<Seq<char>, Seq<char>>::empty());
            assert(r.tokens() =~= Map::<Seq<char>, (Seq<char>, Timestamp)>::empty());
        }
        r
    }

    /// Store (or replace) a named secret.
    pub fn insert(&mut self, name: &str, value: &str)
        ensures
            final(self).secrets() == old(self).secrets().insert(name@, value@),
            final(self).tokens() == old(self).tokens(),
    {
        let ghost before = self.secrets@;
        let v = value.to_owned();
        let ghost v0 = v;
        self.secrets.put(name.to_owned(), v);
        proof {
            assert(secret_views(before.insert(name@, v0)) =~= secret_views(before).insert(
                name@,
                value@,
            ));
        }
    }

    /// Remove a named secret.
    pub fn remove(&mut self, name: &str)
        ensures
            final(self).secrets() == old(self).secrets().remove(name@),
            final(self).tokens() == old(self).tokens(),
    {
        let ghost before = self.secrets@;
        self.secrets.remove(name);
        proof {
            assert(secret_views(before.remove(name@)) =~= secret_views(before).remove(name@));
        }
    }

    /// Lend the named secret to `f`. This is the only way to read a secret;
    /// connector code paths call this and must not persist the value.
    pub fn with_secret<R, F: FnOnce(&str) -> R>(&self, name: &str, f: F) -> (r: KernelResult<R>)
        requires
            forall|s: &str| #[trigger] call_requires(f, (s,)),
        ensures
            match r {
                Ok(x) => self.secrets().contains_key(name@) && exists|s: &str|
                    s@ == self.secrets()[name@] && #[trigger] call_ensures(f, (s,), x),
                Err(e) => !self.secrets().contains_key(name@) && unknown_secret(e, name@),
            },
    {
        match self.secrets.get(name) {
            Some(value) => {
                let s = value.as_str();
                let x = f(s);
                let r: KernelResult<R> = Ok(x);
                proof {
                    assert(s@ == self.secrets()[name@] && call_ensures(f, (s,), r->Ok_0));
                }
                r
            },
            None => Err(KernelError::NotFound { kind: "secret", id: name.to_owned() }),
        }
    }

    /// Mint a single-use token bound to `secret_name`, valid until
    /// `expires_at`. The returned token is safe to hand to a guest: it reveals
    /// nothing about the credential and can be redeemed exactly once, by the
    /// host.
    pub fn mint_scoped_token(&mut self, secret_name: &str, expires_at: Timestamp) -> (r:
        KernelResult<ScopedToken>)
        ensures
            final(self).secrets() == old(self).secrets(),
            match r {
                Ok(t) => {
                    &&& old(self).secrets().contains_key(secret_name@)
                    &&& token_text(t.token@)
                    &&& t.expires_at == expires_at
                    &&& final(self).tokens() == old(self).tokens().insert(
                        t.token@,
                        (secret_name@, expires_at),
                    )
                },
                Err(e) => {
                    &&& !old(self).secrets().contains_key(secret_name@)
                    &&& unknown_secret(e, secret_name@)
                    &&& final(self).tokens() == old(self).tokens()
                },
            },
    {
        if self.secrets.get(secret_name).is_none() {
            return Err(KernelError::NotFound { kind: "secret", id: secret_name.to_owned() });
        }
        let bytes = random_bytes(32);
        let digits = encode_hex(&bytes);
        let token = text::cat2("akst-", digits.as_str());
        proof {
            assert(token@ == "akst-"@ + hex_text(bytes@));
        }
        let ghost before = self.tokens@;
        let state = TokenState { secret_name: secret_name.to_owned(), expires_at };
        let ghost s0 = state;
        self.tokens.put(token.clone(), state);
        proof {
            assert(token_views(before.insert(token@, s0)) =~= token_views(before).insert(
                token@,
                (secret_name@, expires_at),
            ));
        }
        Ok(ScopedToken { token, expires_at })
    }

    /// Redeem a scoped token exactly once, lending the underlying secret to
    /// `f`. Expired, unknown, or already-redeemed tokens are refused. Whatever
    /// comes of it, the token is spent.
    pub fn redeem_scoped_token<R, F: FnOnce(&str) -> R>(
        &mut self,
        token: &str,
        now: Timestamp,
        f: F,
    ) -> (r: KernelResult<R>)
        requires
            forall|s: &str| #[trigger] call_requires(f, (s,)),
        ensures
            final(self).secrets() == old(self).secrets(),
            final(self).tokens() == old(self).tokens().remove(token@),
            r is Ok <==> lends(old(self).tokens(), old(self).secrets(), token@, now),
            if !old(self).tokens().contains_key(token@) {
                r matches Err(e) && unknown_token(e)
            } else if old(self).tokens()[token@].1.before(now) {
                r matches Err(e) && (e matches KernelError::StaleAuthorization { reason }
                    && reason@ == "scoped token expired before redemption"@)
            } else {
                match r {
                    Ok(x) => old(self).secrets().contains_key(old(self).tokens()[token@].0)
                        && exists|s: &str|
                        s@ == old(self).secrets()[old(self).tokens()[token@].0]
                            && #[trigger] call_ensures(f, (s,), x),
                    Err(e) => !old(self).secrets().contains_key(old(self).tokens()[token@].0)
                        && unknown_secret(e, old(self).tokens()[token@].0),
                }
            },
    {
        let found: Option<(String, Timestamp)> = match self.tokens.get(token) {
            Some(state) => Some((state.secret_name.clone(), state.expires_at)),
            None => None,
        };
        let ghost before = self.tokens@;
        self.tokens.remove(token);
        proof {
            assert(token_views(before.remove(token@)) =~= token_views(before).remove(token@));
        }
        match found {
            None => Err(
                KernelError::NotFound { kind: "scoped_token", id: "<redacted>".to_owned() },
            ),
            Some((name, expires_at)) => {
                if expires_at.is_before(&now) {
                    return Err(
                        KernelError::StaleAuthorization {
                            reason: "scoped token expired before redemption".to_owned(),
                        },
                    );
                }
                self.with_secret(name.as_str(), f)
            },
        }
    }
}

/// A token is redeemed at most once: whatever its first redemption came to, it
/// lends nothing afterwards.
pub proof fn law_tokens_are_redeemed_once(
    tokens: Map<Seq<char>, (Seq<char>, Timestamp)>,
    secrets: Map<Seq<char>, Seq<char>>,
    token: Seq<char>,
    later: Timestamp,
)
    ensures
        !lends(tokens.remove(token), secrets, token, later),
{
}

/// A token lends exactly the secret it was minted for, up to the instant it expires
/// at.
pub proof fn law_tokens_lend_until_they_expire(
    tokens: Map<Seq<char>, (Seq<char>, Timestamp)>,
    secrets: Map<Seq<char>, Seq<char>>,
    token: Seq<char>,
    now: Timestamp,
)
    requires
        tokens.contains_key(token),
        secrets.contains_key(tokens[token].0),
    ensures
        lends(tokens, secrets, token, now) <==> now.secs < tokens[token].1.secs || (now.secs
            == tokens[token].1.secs && now.nanos <= tokens[token].1.nanos),
        !lends(tokens, secrets.remove(tokens[token].0), token, now),
{
}

/// A token is its prefix and 64 hexadecimal digits, and says nothing of its secret.
pub proof fn law_tokens_are_opaque(t: Seq<char>)
    requires
        token_text(t),
    ensures
        t.len() == 69,
        t.take(5) == "akst-"@,
{
    reveal_strlit("akst-");
    assert("akst-"@.len() == 5);
    let bytes = choose|bytes: Seq<u8>| bytes.len() == 32 && t == #[trigger] ("akst-"@ + hex_text(
        bytes,
    ));
    assert(hex_text(bytes).len() == 64);
    assert(t.take(5) =~= "akst-"@);
}

/// A token that is not known is not shown in the error; a secret that is not known is
/// named.
pub proof fn law_tokens_are_not_shown(e: KernelError, name: Seq<char>)
    ensures
        unknown_token(e) ==> e is NotFound && e.spec_message() == "unknown object: "@
            + "scoped_token"@ + " `"@ + "<redacted>"@ + "`"@,
        unknown_secret(e, name) ==> e is NotFound && e.spec_message() == "unknown object: "@
            + "secret"@ + " `"@ + name + "`"@,
{
}

} // verus!
