//! The core types: identifiers, hashes, budgets, deltas, paths, observations.
use agent_kernel::action::ActionKind;
use agent_kernel::budget::ResourceBudget;
use agent_kernel::capability::Operation;
use agent_kernel::denial::{Denial, DenialCode, RequestableScope};
use agent_kernel::effect::{EffectClass, EffectContract};
use agent_kernel::hash::{canonical_json, hash_bytes, hash_canonical};
use agent_kernel::ids::EpisodeId;
use agent_kernel::json::{JsonMap, Number, Value};
use agent_kernel::net::{is_forbidden_ip, IpAddr};
use agent_kernel::observation::{distill_output, extract_causal_failure};
use agent_kernel::path::{matches_prefixes, normalize_relative};
use agent_kernel::principal::TrustLevel;
use agent_kernel::state::{FileChange, StateDelta};
use agent_kernel::sync::{push_plan, syncable_path, validate_manifest_shape, SyncEntry, SyncManifest};

fn n(v: u64) -> Value {
    Value::Number(Number::PosInt(v))
}

fn t(s: &str) -> Value {
    Value::text(s)
}

fn obj(members: Vec<(&str, Value)>) -> Value {
    let mut m = JsonMap::new();
    for (k, v) in members {
        m.insert(k.to_string(), v);
    }
    Value::Object(m)
}

#[test]
fn charge_reports_exhausted_dimensions() {
    let mut b = ResourceBudget { cpu_ms: 100, tokens: 10, ..ResourceBudget::zero() };
    let over = ResourceBudget { cpu_ms: 50, tokens: 20, ..ResourceBudget::zero() };
    assert_eq!(b.charge(&over), vec!["tokens"]);
    assert_eq!(b.cpu_ms, 50);
    assert_eq!(b.tokens, 0);
}

#[test]
fn fits_within_is_dimension_wise() {
    let outer = ResourceBudget::step_default();
    let mut inner = ResourceBudget::zero();
    assert!(inner.fits_within(&outer));
    inner.risk_units = 11;
    assert!(!inner.fits_within(&outer));
    assert_eq!(inner.exceeding_dimensions(&outer), vec!["risk_units"]);
}

#[test]
fn saturating_arithmetic_never_wraps() {
    let a = ResourceBudget { cpu_ms: 10, tokens: 5, ..ResourceBudget::zero() };
    let b = ResourceBudget { cpu_ms: 25, tokens: 2, ..ResourceBudget::zero() };
    let diff = a.saturating_sub(&b);
    assert_eq!(diff.cpu_ms, 0);
    assert_eq!(diff.tokens, 3);
    let sum = a.saturating_add(&b);
    assert_eq!(sum.cpu_ms, 35);
    assert_eq!(sum.tokens, 7);
    let max = ResourceBudget { cpu_ms: u64::MAX, ..ResourceBudget::zero() };
    assert_eq!(max.saturating_add(&max).cpu_ms, u64::MAX);
}

fn contract() -> EffectContract {
    EffectContract {
        operation: "github.create_pull_request".into(),
        resource: "org/repo".into(),
        arguments: obj(vec![
            ("base", t("main")),
            ("head", t("sandbox/fix")),
            ("draft", Value::Bool(true)),
        ]),
        preconditions: obj(vec![("base_head_sha", t("abc123"))]),
        idempotency_key: "ep-7-step-98".into(),
        class: EffectClass::Compensatable,
    }
}

#[test]
fn contract_hash_is_stable_and_content_sensitive() {
    let a = contract();
    let mut b = contract();
    assert_eq!(a.contract_hash(), b.contract_hash());
    b.arguments = obj(vec![
        ("base", t("main")),
        ("head", t("sandbox/fix")),
        ("draft", Value::Bool(false)),
    ]);
    assert_ne!(a.contract_hash(), b.contract_hash());
}

#[test]
fn effect_class_orders_by_severity() {
    assert!(EffectClass::Pure < EffectClass::Irreversible);
    assert!(EffectClass::Irreversible < EffectClass::OpaqueExternal);
}

#[test]
fn distill_bounds_output_and_keeps_full_hash() {
    let raw = vec![b'x'; 10_000];
    let d = distill_output(&raw, 512, 256);
    assert_eq!(d.head.unwrap().len(), 512);
    assert_eq!(d.tail.unwrap().len(), 256);
    assert!(d.truncated);
    assert_eq!(d.hash, hash_bytes(&raw));
}

#[test]
fn distill_small_output_has_no_tail() {
    let d = distill_output(b"hello", 512, 256);
    assert_eq!(d.head.as_deref(), Some("hello"));
    assert!(d.tail.is_none());
    assert!(!d.truncated);
}

#[test]
fn distill_empty_output() {
    let d = distill_output(b"", 512, 256);
    assert!(d.head.is_none());
    assert!(d.tail.is_none());
    assert!(!d.truncated);
}

#[test]
fn distill_head_and_tail_never_overlap() {
    // 600 bytes, head 512, tail 256: tail must start at 512, not 344.
    let raw: Vec<u8> = (0..600u32).map(|i| (i % 251) as u8).collect();
    let d = distill_output(&raw, 512, 256);
    assert_eq!(d.tail.unwrap().len(), 88);
}

#[test]
fn causal_failure_finds_mid_stream_errors() {
    let out = b"Compiling foo v0.1.0\nwarning: unused import\nerror[E0308]: mismatched types\n --> src/main.rs:3:5\nsome trailing noise";
    assert_eq!(extract_causal_failure(out).unwrap(), "error[E0308]: mismatched types");
}

#[test]
fn causal_failure_falls_back_to_first_nonempty_line() {
    assert_eq!(
        extract_causal_failure(b"\n\nsomething odd happened\nmore").unwrap(),
        "something odd happened"
    );
    assert!(extract_causal_failure(b"").is_none());
    assert!(extract_causal_failure(b"\n \n").is_none());
}

#[test]
fn causal_failure_caps_long_lines_on_char_boundary() {
    let mut line = "error: ".to_string();
    line.push_str(&"é".repeat(400));
    let got = extract_causal_failure(line.as_bytes()).unwrap();
    assert!(got.len() <= 400);
    assert!(got.starts_with("error: "));
}

#[test]
fn normalizes_and_rejects() {
    assert_eq!(normalize_relative("a/b.txt").unwrap(), "a/b.txt");
    assert_eq!(normalize_relative("./a/./b").unwrap(), "a/b");
    assert_eq!(normalize_relative(".").unwrap(), "");
    assert!(normalize_relative("").is_err());
    assert!(normalize_relative("a/../b").is_err());
    assert!(normalize_relative("/etc/passwd").is_err());
}

#[test]
fn prefix_matching() {
    let rel = "src/main.rs";
    assert!(matches_prefixes(rel, &vec![]));
    assert!(matches_prefixes(rel, &vec!["".into()]));
    assert!(matches_prefixes(rel, &vec!["./src/".into()]));
    assert!(matches_prefixes(rel, &vec!["docs".into(), "src".into()]));
    assert!(!matches_prefixes(rel, &vec!["docs".into()]));
    // Prefixes are path components, not string prefixes.
    assert!(!matches_prefixes("srcx/f.rs", &vec!["src".into()]));
}

fn entry(bytes: &[u8], mode: u32) -> SyncEntry {
    SyncEntry { blob: hash_bytes(bytes), mode }
}

#[test]
fn plan_covers_add_modify_chmod_delete() {
    let mut current = SyncManifest::new();
    current.insert("keep.txt".into(), entry(b"same", 0o644));
    current.insert("edit.txt".into(), entry(b"old", 0o644));
    current.insert("chmod.sh".into(), entry(b"run", 0o644));
    current.insert("gone.txt".into(), entry(b"bye", 0o644));

    let mut target = SyncManifest::new();
    target.insert("keep.txt".into(), entry(b"same", 0o644));
    target.insert("edit.txt".into(), entry(b"new", 0o644));
    target.insert("chmod.sh".into(), entry(b"run", 0o755));
    target.insert("fresh.txt".into(), entry(b"hi", 0o644));

    let plan = push_plan(&current, &target);
    let upserted: Vec<&str> = plan.upserts.iter().map(|(p, _)| p.as_str()).collect();
    assert_eq!(upserted, vec!["chmod.sh", "edit.txt", "fresh.txt"]);
    assert_eq!(plan.deletes, vec!["gone.txt"]);

    assert!(push_plan(&target, &target).is_empty());
}

#[test]
fn syncable_path_filters_hostile_and_cache_paths() {
    assert_eq!(syncable_path("./src/main.rs").unwrap(), "src/main.rs");
    assert!(syncable_path("../escape").is_err());
    assert!(syncable_path("/abs").is_err());
    assert!(syncable_path(".").is_err());
    assert!(syncable_path("node_modules/pkg/index.js").is_err());
    assert!(syncable_path("src/target").is_err());
}

#[test]
fn manifest_shape_rejects_file_ancestor_conflicts() {
    let mut manifest = SyncManifest::new();
    manifest.insert("a".into(), entry(b"file", 0o644));
    manifest.insert("a-b".into(), entry(b"unrelated", 0o644));
    manifest.insert("a/b/c".into(), entry(b"child", 0o644));
    assert!(validate_manifest_shape(&manifest).is_err());

    manifest.remove("a");
    validate_manifest_shape(&manifest).unwrap();
}

#[test]
fn canonicalization_sorts_keys_recursively() {
    let a = obj(vec![
        ("b", n(1)),
        (
            "a",
            obj(vec![
                ("z", Value::Bool(true)),
                ("y", Value::Array(vec![n(1), obj(vec![("q", n(2)), ("p", n(3))])])),
            ]),
        ),
    ]);
    assert_eq!(canonical_json(&a), r#"{"a":{"y":[1,{"p":3,"q":2}],"z":true},"b":1}"#);
}

#[test]
fn key_order_does_not_change_hash() {
    let a = obj(vec![("x", n(1)), ("y", n(2))]);
    let b = obj(vec![("y", n(2)), ("x", n(1))]);
    assert_eq!(hash_canonical(&a), hash_canonical(&b));
}

#[test]
fn ids_round_trip_and_validate_prefix() {
    let ep = EpisodeId::generate();
    assert!(ep.as_str().starts_with("ep-"));
    assert_eq!(EpisodeId::parse(ep.as_str()).unwrap(), ep);
    assert!(EpisodeId::parse("st-123").is_err());
}

#[test]
fn empty_delta_detection() {
    let mut d = StateDelta::default();
    assert!(d.is_empty());
    d.files.push(FileChange::Deleted { path: "a.txt".into(), old_blob: hash_bytes(b"x") });
    assert!(!d.is_empty());
}

#[test]
fn connector_ops_map_to_namespaced_operations() {
    let a = ActionKind::ConnectorOp {
        connector: "github".into(),
        operation: "create_pull_request".into(),
        params: obj(vec![]),
    };
    assert_eq!(a.required_operation().0, "github.create_pull_request");
    assert_eq!(a.required_operation().namespace(), "github");
}

fn denial() -> Denial {
    Denial {
        code: DenialCode::CapabilityDenied,
        attempted_operation: Operation::new("net.raw_socket"),
        reason: "credential may only be used by the typed GitHub connector".into(),
        safe_alternatives: vec![Operation::new("github.create_pull_request")],
        requestable_scopes: vec![RequestableScope {
            operation: Operation::new("net.http_read"),
            constraints: obj(vec![("domain", t("api.github.com"))]),
            requires_human: false,
        }],
        escalation_allowed: true,
    }
}

#[test]
fn quarantined_principals_get_redacted_denials() {
    let d = denial();
    let r = d.redact_for(TrustLevel::Quarantined);
    assert!(r.requestable_scopes.is_empty());
    assert!(!r.escalation_allowed);
    assert_eq!(r.safe_alternatives, d.safe_alternatives);
    // Standard principals see everything.
    assert_eq!(d.redact_for(TrustLevel::Standard), d);
}

#[test]
fn forbidden_ranges_are_refused() {
    for bad in [
        IpAddr::V4(127, 0, 0, 1),
        IpAddr::V4(10, 1, 2, 3),
        IpAddr::V4(172, 16, 9, 9),
        IpAddr::V4(192, 168, 1, 1),
        IpAddr::V4(169, 254, 169, 254),
        IpAddr::V4(169, 254, 0, 7),
        IpAddr::V4(100, 64, 0, 1),
        IpAddr::V4(100, 127, 255, 254),
        IpAddr::V4(0, 0, 0, 0),
        IpAddr::V4(255, 255, 255, 255),
        IpAddr::V6(0, 0, 0, 0, 0, 0, 0, 1),
        IpAddr::V6(0, 0, 0, 0, 0, 0, 0, 0),
        IpAddr::V6(0xfd00, 0xec2, 0, 0, 0, 0, 0, 0x254),
        IpAddr::V6(0xfc00, 0, 0, 0, 0, 0, 0, 1),
        IpAddr::V6(0xfe80, 0, 0, 0, 0, 0, 0, 1),
        IpAddr::V6(0, 0, 0, 0, 0, 0xffff, 0x0a00, 0x0001),
        IpAddr::V6(0, 0, 0, 0, 0, 0xffff, 0x7f00, 0x0001),
    ] {
        assert!(is_forbidden_ip(&bad), "{:?} must be forbidden", bad);
    }
}

#[test]
fn public_addresses_are_allowed() {
    for good in [
        IpAddr::V4(93, 184, 216, 34),
        IpAddr::V4(8, 8, 8, 8),
        IpAddr::V6(0x2606, 0x2800, 0x220, 1, 0, 0, 0, 1),
        IpAddr::V4(100, 63, 0, 1),
        IpAddr::V4(100, 128, 0, 1),
    ] {
        assert!(!is_forbidden_ip(&good), "{:?} must be allowed", good);
    }
}
