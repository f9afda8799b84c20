//! Identity: principals, leases, signing keys, sealed files and secrets.
use agent_kernel::broker::secrets::SecretVault;
use agent_kernel::budget::ResourceBudget;
use agent_kernel::capability::{AttenuationError, CapabilityLease, Constraint, Operation};
use agent_kernel::error::KernelError;
use agent_kernel::hash::hash_bytes;
use agent_kernel::identity::delegation::DelegationService;
use agent_kernel::identity::error::IdentityError;
use agent_kernel::identity::keys::KernelKeypair;
use agent_kernel::identity::lease_store::LeaseStore;
use agent_kernel::identity::registry::PrincipalRegistry;
use agent_kernel::identity::sealing::{is_sealed, seal, unseal, SealKey};
use agent_kernel::ids::{LeaseId, PrincipalId};
use agent_kernel::json::{object1, object2, JsonMap, Number, Value};
use agent_kernel::principal::{Principal, PrincipalKind, TrustLevel};
use agent_kernel::time::Timestamp;
use base64::Engine;
use indexmap::IndexMap;

const NOW: Timestamp = Timestamp { secs: 1_700_000_000, nanos: 0 };

fn after(secs: i64) -> Timestamp {
    Timestamp { secs: NOW.secs + secs, nanos: 0 }
}

fn lease(principal: &str, parent: Option<&LeaseId>, now: Timestamp) -> CapabilityLease {
    CapabilityLease {
        id: LeaseId::generate(),
        principal: PrincipalId(format!("pr-{principal}")),
        operation: Operation::new("fs.read"),
        constraints: IndexMap::new(),
        remaining_uses: 3,
        issued_at: now,
        expires_at: now.plus_seconds(600),
        bound_branch: None,
        budget: ResourceBudget::step_default(),
        parent_lease: parent.cloned(),
        preconditions: JsonMap::new(),
        revoked: false,
    }
}

fn num(v: u64) -> Value {
    Value::Number(Number::PosInt(v))
}

#[test]
fn issue_get_and_list() {
    let mut s = LeaseStore::new();
    let l = lease("a", None, NOW);
    s.issue(&l);
    let got = s.get(&l.id).unwrap();
    assert_eq!(got.id.as_str(), l.id.as_str());
    assert_eq!(got.principal.as_str(), "pr-a");
    assert_eq!(got.remaining_uses, 3);
    assert_eq!(got.expires_at, l.expires_at);
    let listed = s.list_for_principal(&l.principal);
    assert_eq!(listed.len(), 1);
    assert_eq!(listed[0].id.as_str(), l.id.as_str());
    assert_eq!(s.active_for_principal(&l.principal, NOW).len(), 1);
    assert!(matches!(
        s.get(&LeaseId("lease-missing".to_string())),
        Err(IdentityError::UnknownLease(_))
    ));
}

#[test]
fn cascading_revocation_is_transitive() {
    let mut s = LeaseStore::new();
    let root = lease("a", None, NOW);
    let child = lease("b", Some(&root.id), NOW);
    let grandchild = lease("c", Some(&child.id), NOW);
    let unrelated = lease("d", None, NOW);
    for l in [&root, &child, &grandchild, &unrelated] {
        s.issue(l);
    }
    let revoked = s.revoke_cascading(&root.id).unwrap();
    assert_eq!(revoked.len(), 3);
    assert!(s.get(&root.id).unwrap().revoked);
    assert!(s.get(&child.id).unwrap().revoked);
    assert!(s.get(&grandchild.id).unwrap().revoked);
    assert!(!s.get(&unrelated.id).unwrap().revoked);
    // Idempotent: revoking again revokes nothing new below the root.
    assert_eq!(s.revoke_cascading(&child.id).unwrap().len(), 0);
}

#[test]
fn a_cascade_revokes_parents_before_their_children() {
    let mut s = LeaseStore::new();
    let root = lease("a", None, NOW);
    let left = lease("b", Some(&root.id), NOW);
    let right = lease("c", Some(&root.id), NOW);
    let under_left = lease("d", Some(&left.id), NOW);
    let under_right = lease("e", Some(&right.id), NOW);
    // Children may be stored ahead of their parents.
    for l in [&under_right, &right, &under_left, &root, &left] {
        s.issue(l);
    }
    let revoked = s.revoke_cascading(&root.id).unwrap();
    let place = |l: &CapabilityLease| {
        revoked.iter().position(|id| id.as_str() == l.id.as_str()).unwrap()
    };
    assert_eq!(revoked.len(), 5);
    assert_eq!(place(&root), 0);
    assert!(place(&left) < place(&under_left));
    assert!(place(&right) < place(&under_right));
    // The walk goes into depth: a child stands right behind its only parent.
    assert_eq!(place(&under_left), place(&left) + 1);
    assert_eq!(place(&under_right), place(&right) + 1);
    assert!(s.revoke_cascading(&root.id).unwrap().is_empty());
}

#[test]
fn revoking_an_unknown_lease_fails() {
    let mut s = LeaseStore::new();
    assert!(matches!(
        s.revoke_cascading(&LeaseId::generate()),
        Err(IdentityError::UnknownLease(_))
    ));
}

#[test]
fn revocation_ends_on_a_cycle() {
    let mut s = LeaseStore::new();
    let mut a = lease("a", None, NOW);
    let b = lease("b", Some(&a.id), NOW);
    a.parent_lease = Some(b.id.clone());
    s.issue(&a);
    s.issue(&b);
    assert_eq!(s.revoke_cascading(&a.id).unwrap().len(), 2);
    assert!(s.get(&b.id).unwrap().revoked);
}

#[test]
fn consume_use_counts_down_and_refuses_dead_leases() {
    let mut s = LeaseStore::new();
    let mut l = lease("a", None, NOW);
    l.remaining_uses = 2;
    s.issue(&l);
    assert_eq!(s.consume_use(&l.id, NOW).unwrap().remaining_uses, 1);
    assert_eq!(s.consume_use(&l.id, NOW).unwrap().remaining_uses, 0);
    assert!(matches!(
        s.consume_use(&l.id, NOW),
        Err(IdentityError::LeaseUnusable { .. })
    ));
    // Expired lease also refuses.
    let l2 = lease("a", None, NOW);
    s.issue(&l2);
    assert!(matches!(
        s.consume_use(&l2.id, after(3600)),
        Err(IdentityError::LeaseUnusable { .. })
    ));
}

#[test]
fn a_lease_is_spent_as_often_as_it_has_uses() {
    for uses in [1u32, 5] {
        let mut s = LeaseStore::new();
        let mut l = lease("many", None, NOW);
        l.remaining_uses = uses;
        s.issue(&l);
        let mut won: u32 = 0;
        for _ in 0..64 {
            if s.consume_use(&l.id, NOW).is_ok() {
                won += 1;
            }
        }
        assert_eq!(won, uses);
        assert_eq!(s.get(&l.id).unwrap().remaining_uses, 0);
    }
}

#[test]
fn sweep_marks_only_expired() {
    let mut s = LeaseStore::new();
    let fresh = lease("a", None, NOW);
    let mut stale = lease("a", None, after(-3600));
    stale.expires_at = after(-1800);
    s.issue(&fresh);
    s.issue(&stale);
    let swept = s.sweep_expired(NOW);
    assert_eq!(swept.len(), 1);
    assert_eq!(swept[0].as_str(), stale.id.as_str());
    assert!(s.get(&stale.id).unwrap().revoked);
    assert!(!s.get(&fresh.id).unwrap().revoked);
}

#[test]
fn revocation_wins_over_later_consumption() {
    let mut s = LeaseStore::new();
    let mut l = lease("rv", None, NOW);
    l.remaining_uses = 100;
    s.issue(&l);
    s.revoke_cascading(&l.id).unwrap();
    let err = s.consume_use(&l.id, NOW).unwrap_err();
    assert!(matches!(err, IdentityError::LeaseUnusable { ref reason, .. } if reason == "revoked"));
    assert!(s.get(&l.id).unwrap().revoked);
}

#[test]
fn register_lookup_and_lineage() {
    let mut reg = PrincipalRegistry::new();
    let root = Principal::new_agent("root");
    let child = root.spawn_child(PrincipalKind::SubAgent, "worker");
    let grandchild = child.spawn_child(PrincipalKind::Tool, "grep-tool");
    reg.register(&root).unwrap();
    reg.register(&child).unwrap();
    reg.register(&grandchild).unwrap();

    let got = reg.get(&root.id).unwrap();
    assert_eq!(got.id.as_str(), root.id.as_str());
    assert_eq!(got.display_name, "root");
    assert_eq!(got.kind, root.kind);
    assert_eq!(got.trust, root.trust);
    assert!(got.parent.is_none());
    let children = reg.children(&root.id);
    assert_eq!(children.len(), 1);
    assert_eq!(children[0].id.as_str(), child.id.as_str());
    let lineage = reg.lineage(&grandchild.id).unwrap();
    assert_eq!(lineage.len(), 2);
    assert_eq!(lineage[0].id.as_str(), child.id.as_str());
    assert_eq!(lineage[1].id.as_str(), root.id.as_str());
    assert!(reg.is_self_or_descendant(&grandchild.id, &root.id).unwrap());
    assert!(reg.is_self_or_descendant(&root.id, &root.id).unwrap());
    assert!(!reg.is_self_or_descendant(&root.id, &child.id).unwrap());
    assert_eq!(reg.list().len(), 3);
}

#[test]
fn duplicate_and_orphan_registration_fail() {
    let mut reg = PrincipalRegistry::new();
    let root = Principal::new_agent("root");
    reg.register(&root).unwrap();
    assert!(matches!(
        reg.register(&root),
        Err(IdentityError::DuplicatePrincipal(_))
    ));
    let orphan = root.spawn_child(PrincipalKind::SubAgent, "orphan");
    let unregistered = Principal::new_agent("ghost");
    let mut bad = orphan;
    bad.parent = Some(unregistered.id);
    assert!(matches!(reg.register(&bad), Err(IdentityError::UnknownParent(_))));
}

#[test]
fn trust_updates_persist() {
    let mut reg = PrincipalRegistry::new();
    let root = Principal::new_agent("root");
    reg.register(&root).unwrap();
    reg.set_trust(&root.id, TrustLevel::Quarantined).unwrap();
    assert_eq!(reg.get(&root.id).unwrap().trust, TrustLevel::Quarantined);
    assert!(matches!(
        reg.set_trust(&PrincipalId::generate(), TrustLevel::Standard),
        Err(IdentityError::UnknownPrincipal(_))
    ));
}

#[test]
fn sign_verify_roundtrip_over_canonical_json() {
    let kp = KernelKeypair::generate();
    // Key order must not matter: both encode to the same canonical JSON.
    let a = object2("x", num(1), "y", object2("b", num(2), "a", num(3)));
    let b = object2("y", object2("a", num(3), "b", num(2)), "x", num(1));
    let sig = kp.sign_canonical(&a);
    assert!(KernelKeypair::verify_canonical(&kp.public_key(), &b, &sig).unwrap());
    assert!(!KernelKeypair::verify_canonical(&kp.public_key(), &object1("x", num(2)), &sig).unwrap());
}

#[test]
fn malformed_signatures_are_errors() {
    let kp = KernelKeypair::generate();
    let v = object1("x", num(1));
    assert!(matches!(
        KernelKeypair::verify_canonical(&kp.public_key(), &v, "zz"),
        Err(IdentityError::Key(_))
    ));
    assert!(matches!(
        KernelKeypair::verify_canonical(&kp.public_key(), &v, "00"),
        Err(IdentityError::Key(ref m)) if m == "signature must be 64 bytes"
    ));
}

#[test]
fn key_id_is_sha256_of_public_key() {
    let kp = KernelKeypair::generate();
    let id = kp.key_id();
    assert!(id.starts_with("ed25519:"));
    assert_eq!(id.len(), "ed25519:".len() + 64);
    assert_eq!(id, kp.key_id());
}

#[test]
fn key_id_of_a_known_seed() {
    // The first test vector of RFC 8032.
    let kp = KernelKeypair::load("9d61b19deffd5a60ba844af492ec2cc44449c5697b326919703bac031cae7f60\n")
        .unwrap();
    let public = hex::decode("d75a980182b10ab7d54bfed3c964073a0ee172f3daa62325af021a68f707511a")
        .unwrap();
    assert_eq!(kp.key_id(), format!("ed25519:{}", &hash_bytes(&public).as_str()[7..]));
}

#[test]
fn save_load_roundtrip() {
    let kp = KernelKeypair::generate();
    let saved = kp.save();
    let loaded = KernelKeypair::load(&saved).unwrap();
    assert_eq!(kp.key_id(), loaded.key_id());
    // An existing key is kept…
    let (again, text) = KernelKeypair::load_or_generate(Some(&saved)).unwrap();
    assert_eq!(again.key_id(), kp.key_id());
    assert!(text.is_none());
    // …and one is created when missing.
    let (fresh, text) = KernelKeypair::load_or_generate(None).unwrap();
    assert_eq!(KernelKeypair::load(&text.unwrap()).unwrap().key_id(), fresh.key_id());
    assert_ne!(fresh.key_id(), kp.key_id());
}

#[test]
fn bad_key_files_are_rejected() {
    assert!(matches!(KernelKeypair::load("not-hex!"), Err(IdentityError::Key(_))));
    assert!(matches!(
        KernelKeypair::load(&hex::encode([0u8; 16])),
        Err(IdentityError::Key(_))
    ));
}

#[test]
fn seal_unseal_round_trip_with_fresh_nonces() {
    let (key, persist) = SealKey::resolve_with_env(None, None, "k.key").unwrap();
    assert_eq!(persist.unwrap().len(), 32);
    let a = seal(&key, b"top-secret").unwrap();
    let b = seal(&key, b"top-secret").unwrap();
    assert!(is_sealed(&a));
    assert_ne!(a, b, "nonce must be random per encryption");
    assert_eq!(unseal(&key, &a).unwrap(), b"top-secret");
    assert_eq!(unseal(&key, &b).unwrap(), b"top-secret");
}

#[test]
fn wrong_key_fails_to_unseal() {
    let sealed = seal(&SealKey::from_bytes([1u8; 32]), b"top-secret").unwrap();
    assert!(matches!(
        unseal(&SealKey::from_bytes([2u8; 32]), &sealed),
        Err(IdentityError::Key(_))
    ));
}

#[test]
fn tampered_and_truncated_envelopes_are_refused() {
    let key = SealKey::from_bytes([1u8; 32]);
    let mut sealed = seal(&key, b"x").unwrap();
    let n = sealed.len();
    assert_eq!(n, 8 + 12 + 1 + 16);
    sealed[n - 1] ^= 1;
    assert!(unseal(&key, &sealed).is_err());
    assert!(matches!(
        unseal(&key, &sealed[..15]),
        Err(IdentityError::Key(ref m)) if m == "sealed file is truncated"
    ));
}

#[test]
fn a_generated_key_is_found_again_in_its_file() {
    let (k1, bytes) = SealKey::resolve_with_env(None, None, "seal.key").unwrap();
    let (k2, again) = SealKey::resolve_with_env(None, bytes, "seal.key").unwrap();
    assert!(again.is_none());
    let sealed = seal(&k1, b"x").unwrap();
    assert_eq!(unseal(&k2, &sealed).unwrap(), b"x");
    assert!(matches!(
        SealKey::resolve_with_env(None, Some(vec![0u8; 31]), "seal.key"),
        Err(IdentityError::Key(ref m)) if m == "key file seal.key must contain exactly 32 bytes"
    ));
}

#[test]
fn env_var_takes_precedence_and_is_validated() {
    let b64 = base64::engine::general_purpose::STANDARD.encode([7u8; 32]);
    let (key, persist) =
        SealKey::resolve_with_env(Some(&b64), Some(vec![1u8; 32]), "unused.key").unwrap();
    assert!(persist.is_none(), "env key must not touch the key file");
    let sealed = seal(&key, b"x").unwrap();
    assert_eq!(unseal(&SealKey::from_bytes([7u8; 32]), &sealed).unwrap(), b"x");
    assert!(SealKey::resolve_with_env(Some("!!"), None, "unused.key").is_err());
    let short = base64::engine::general_purpose::STANDARD.encode([7u8; 16]);
    assert!(SealKey::resolve_with_env(Some(&short), None, "unused.key").is_err());
}

#[test]
fn plaintext_is_not_sealed() {
    assert!(!is_sealed(b"{\"gh\":\"tok\"}"));
    assert!(unseal(&SealKey::from_bytes([0u8; 32]), b"plaintext").is_err());
}

#[test]
fn with_secret_lends_value() {
    let mut v = SecretVault::in_memory();
    v.insert("gh", "tok-123");
    let len = v.with_secret("gh", |s: &str| s.len()).expect("read");
    assert_eq!(len, 7);
    assert!(v.with_secret("missing", |_: &str| ()).is_err());
    v.remove("gh");
    assert!(v.with_secret("gh", |s: &str| s.len()).is_err());
}

#[test]
fn scoped_tokens_are_redeemed_once_and_in_time() {
    let mut v = SecretVault::in_memory();
    v.insert("gh", "tok-123");
    assert!(v.mint_scoped_token("missing", after(60)).is_err());
    let t = v.mint_scoped_token("gh", after(60)).unwrap();
    assert!(t.token.starts_with("akst-"));
    assert_eq!(t.token.len(), 5 + 64);
    assert!(!t.token.contains("tok-123"));
    let other = v.mint_scoped_token("gh", after(60)).unwrap();
    assert_ne!(t.token, other.token);
    assert_eq!(v.redeem_scoped_token(&t.token, NOW, |s: &str| s.to_string()).unwrap(), "tok-123");
    assert!(matches!(
        v.redeem_scoped_token(&t.token, NOW, |s: &str| s.to_string()),
        Err(KernelError::NotFound { kind: "scoped_token", .. })
    ));
    assert!(matches!(
        v.redeem_scoped_token(&other.token, after(61), |s: &str| s.to_string()),
        Err(KernelError::StaleAuthorization { .. })
    ));
}

#[test]
fn delegation_only_attenuates() {
    let mut reg = PrincipalRegistry::new();
    let root = Principal::new_agent("root");
    let child = root.spawn_child(PrincipalKind::SubAgent, "worker");
    let stranger = Principal::new_agent("stranger");
    for p in [&root, &child, &stranger] {
        reg.register(p).unwrap();
    }
    let mut leases = LeaseStore::new();
    let mut parent = lease("x", None, NOW);
    parent.principal = root.id.clone();
    parent
        .constraints
        .insert("path".to_string(), Constraint::Prefix { prefix: "src/".to_string() });
    leases.issue(&parent);
    let mut service = DelegationService::new();
    let narrow = |prefix: &str| {
        let mut m = IndexMap::new();
        m.insert("path".to_string(), Constraint::Prefix { prefix: prefix.to_string() });
        m
    };
    let zero = ResourceBudget::zero();
    let mut ask = |leases: &mut LeaseStore,
                   from: &PrincipalId,
                   to: &PrincipalId,
                   c: IndexMap<String, Constraint>,
                   uses: u32,
                   until: Timestamp,
                   budget: ResourceBudget| {
        service.delegate(&reg, leases, from, &parent.id, to, &c, uses, until, budget, NOW)
    };
    let given =
        ask(&mut leases, &root.id, &child.id, narrow("src/a/"), 2, after(60), zero).unwrap();
    assert_eq!(given.parent_lease.as_ref().unwrap().as_str(), parent.id.as_str());
    assert_eq!(given.remaining_uses, 2);
    let op = Operation::new("fs.read");
    let path = |p: &str| object1("path", Value::text(p));
    assert!(given.check(&child.id, &op, &path("src/a/x"), None, NOW).is_ok());
    assert!(given.check(&child.id, &op, &path("src/b"), None, NOW).is_err());
    // Nothing wider, longer, larger or more often than the parent.
    let wide = ask(&mut leases, &root.id, &child.id, narrow("s"), 2, after(60), zero);
    assert!(matches!(
        wide,
        Err(IdentityError::Attenuation(AttenuationError::Widened { .. }))
    ));
    let long = ask(&mut leases, &root.id, &child.id, narrow("src/"), 2, after(601), zero);
    assert!(matches!(long, Err(IdentityError::Attenuation(AttenuationError::LongerLife))));
    let often = ask(&mut leases, &root.id, &child.id, narrow("src/"), 4, after(60), zero);
    assert!(matches!(often, Err(IdentityError::Attenuation(AttenuationError::MoreUses))));
    let mut large = ResourceBudget::step_default();
    large.tokens += 1;
    let large = ask(&mut leases, &root.id, &child.id, narrow("src/"), 1, after(60), large);
    assert!(matches!(large, Err(IdentityError::Attenuation(AttenuationError::LargerBudget))));
    // Only the holder delegates, and only to its descendants.
    let theft = ask(&mut leases, &stranger.id, &stranger.id, narrow("src/"), 1, after(60), zero);
    assert!(matches!(theft, Err(IdentityError::DelegationRejected(_))));
    let sideways = ask(&mut leases, &root.id, &stranger.id, narrow("src/"), 1, after(60), zero);
    assert!(matches!(sideways, Err(IdentityError::DelegationRejected(_))));
    let nobody = PrincipalId::generate();
    let nobody = ask(&mut leases, &root.id, &nobody, narrow("src/"), 1, after(60), zero);
    assert!(matches!(nobody, Err(IdentityError::UnknownPrincipal(_))));
    // Revoking the parent reaches the child, and ends delegation.
    assert_eq!(leases.revoke_cascading(&parent.id).unwrap().len(), 2);
    assert!(leases.get(&given.id).unwrap().revoked);
    let late = ask(&mut leases, &root.id, &child.id, narrow("src/"), 1, after(60), zero);
    assert!(matches!(late, Err(IdentityError::LeaseUnusable { .. })));
    assert_eq!(service.records().len(), 1);
}
