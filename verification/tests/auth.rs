//! Authentication and authorization of requests.
use agent_kernel::api::auth::{
    digest_eq, token_digest, AuthConfig, AuthContext, AuthError, Role, TokenEntry,
};
use agent_kernel::ids::PrincipalId;

fn ctx(principal: &str, roles: Vec<Role>) -> AuthContext {
    AuthContext::authenticated(PrincipalId::parse(principal).unwrap(), roles)
}

#[test]
fn digest_comparison_is_length_and_content_sensitive() {
    assert!(digest_eq("abc", "abc"));
    assert!(!digest_eq("abc", "abd"));
    assert!(!digest_eq("abc", "abcd"));
}

#[test]
fn body_principal_must_match_token_principal() {
    let c = ctx("pr-aaaaaaaaaaaaaaaaaaaaaaaaaa", vec![Role::Agent]);
    let me = PrincipalId::parse("pr-aaaaaaaaaaaaaaaaaaaaaaaaaa").unwrap();
    let other = PrincipalId::parse("pr-bbbbbbbbbbbbbbbbbbbbbbbbbb").unwrap();
    assert!(c.act_as(&me).is_ok());
    assert!(matches!(c.act_as(&other), Err(AuthError::PrincipalMismatch)));
}

#[test]
fn admin_may_act_for_anyone_and_owns_everything() {
    let c = ctx("pr-aaaaaaaaaaaaaaaaaaaaaaaaaa", vec![Role::Admin]);
    let other = PrincipalId::parse("pr-bbbbbbbbbbbbbbbbbbbbbbbbbb").unwrap();
    assert!(c.act_as(&other).is_ok());
    assert!(c.require_owner(&other).is_ok());
    assert!(c.require_role(Role::Approver).is_ok());
}

#[test]
fn approver_role_is_required_for_approval() {
    let c = ctx("pr-aaaaaaaaaaaaaaaaaaaaaaaaaa", vec![Role::Agent]);
    assert!(matches!(
        c.require_role(Role::Approver),
        Err(AuthError::MissingRole(Role::Approver))
    ));
}

#[test]
fn disabled_mode_trusts_the_body() {
    let c = AuthContext::anonymous();
    let p = PrincipalId::parse("pr-cccccccccccccccccccccccccc").unwrap();
    assert!(c.act_as(&p).is_ok());
    assert!(c.require_owner(&p).is_ok());
    assert!(c.require_role(Role::Approver).is_ok());
}

const SECRET: &str = "a-token";

fn config() -> AuthConfig {
    AuthConfig::with_tokens(vec![TokenEntry {
        token_sha256: token_digest(SECRET).to_uppercase(),
        principal: PrincipalId::parse("pr-aaaaaaaaaaaaaaaaaaaaaaaaaa").unwrap(),
        roles: vec![Role::Agent],
    }])
}

#[test]
fn token_digest_is_sha256_in_hex() {
    assert_eq!(
        token_digest("abc"),
        "ba7816bf8f01cfea414140de5dae2223b00361a396177a9cb410ff61f20015ad"
    );
}

#[test]
fn bearer_tokens_are_required_where_authentication_is_on() {
    let c = config();
    let header = format!("Bearer {SECRET}");
    let who = c.require_auth("/v1/episodes", Some(&header)).unwrap();
    assert!(who.has_role(Role::Agent));
    assert!(!who.has_role(Role::Admin));
    let me = PrincipalId::parse("pr-aaaaaaaaaaaaaaaaaaaaaaaaaa").unwrap();
    assert_eq!(who.act_as(&me).unwrap().as_str(), me.as_str());
    for bad in [None, Some("Bearer wrong"), Some(SECRET), Some("Basic a-token")] {
        assert!(matches!(c.require_auth("/v1/episodes", bad), Err(AuthError::Unauthenticated)));
    }
    // The liveness probe is open, and so is everything where authentication is off.
    assert!(c.require_auth("/healthz", None).is_ok());
    assert!(AuthConfig::disabled().require_auth("/v1/episodes", None).is_ok());
}

#[test]
fn auth_errors_have_their_status() {
    assert_eq!(AuthError::Unauthenticated.into_response().0, 401);
    assert_eq!(AuthError::NotOwner.into_response().0, 403);
    assert_eq!(AuthError::PrincipalMismatch.into_response().0, 403);
    assert_eq!(AuthError::MissingRole(Role::Approver).into_response().0, 403);
}

#[test]
fn owners_and_admins_pass_only() {
    let owner = PrincipalId::parse("pr-aaaaaaaaaaaaaaaaaaaaaaaaaa").unwrap();
    let c = ctx("pr-bbbbbbbbbbbbbbbbbbbbbbbbbb", vec![Role::Agent]);
    assert!(matches!(c.require_owner(&owner), Err(AuthError::NotOwner)));
    assert!(c.require_trace(Some(&owner)).is_err());
    let mine = ctx("pr-aaaaaaaaaaaaaaaaaaaaaaaaaa", vec![Role::Agent]);
    assert!(mine.require_owner(&owner).is_ok());
    assert!(mine.require_trace(Some(&owner)).is_ok());
    assert!(mine.require_trace(None).is_err());
}
