//! Policy: what a document decides, and what a grant compiles to.
use agent_kernel::capability::{CapabilityLease, Constraint, LeaseCheckFailure, Operation};
use agent_kernel::denial::DenialCode;
use agent_kernel::json::{object1, JsonMap, Number, Value};
use agent_kernel::policy::compiler::{compile_grant, SyscallProfile};
use agent_kernel::policy::document::{
    EscalationPolicy, PathPolicy, PolicyDocument, PolicyRule, PrincipalSelector,
    RequestableScopeSpec, RuleEffect,
};
use agent_kernel::policy::engine::{Decision, PolicyEngine};
use agent_kernel::principal::{Principal, PrincipalKind, TrustLevel};
use agent_kernel::time::Timestamp;
use indexmap::IndexMap;

const NOW: Timestamp = Timestamp { secs: 1_700_000_000, nanos: 0 };

fn empty() -> Value {
    Value::Object(JsonMap::new())
}

fn text(k: &str, v: &str) -> Value {
    object1(k, Value::text(v))
}

fn rule(id: &str, operations: Vec<&str>, effect: RuleEffect) -> PolicyRule {
    PolicyRule {
        id: id.to_string(),
        principals: PrincipalSelector::default(),
        operations: operations.into_iter().map(|s| s.to_string()).collect(),
        effect,
        constraints: IndexMap::new(),
        max_uses: 1,
        ttl_seconds: 600,
        budget: None,
        risk_weight: 0,
        note: None,
    }
}

fn engine() -> PolicyEngine {
    let mut doc = PolicyDocument::default();
    doc.set_paths(PathPolicy {
        readable_prefixes: vec!["".to_string()],
        writable_prefixes: vec!["src/".to_string()],
    });
    doc.set_egress_domains(vec!["api.github.com".to_string()]);
    doc.set_escalation(EscalationPolicy {
        allow_requests: true,
        requestable: vec![RequestableScopeSpec {
            operation: "net.http_read".to_string(),
            constraints: text("domain", "api.github.com"),
            requires_human: false,
        }],
    });
    let mut deny = rule("deny-shell-for-tools", vec!["proc.shell"], RuleEffect::Deny);
    deny.principals =
        PrincipalSelector { kinds: vec![PrincipalKind::Tool], ..Default::default() };
    deny.ttl_seconds = 60;
    doc.add_rule(deny);
    let mut allow = rule("allow-write-src", vec!["fs.write"], RuleEffect::Allow);
    allow
        .constraints
        .insert("path".to_string(), Constraint::Prefix { prefix: "src/".to_string() });
    allow.max_uses = 20;
    allow.risk_weight = 1;
    doc.add_rule(allow);
    let mut approve = rule("approve-pr", vec!["github.*"], RuleEffect::RequireApproval);
    approve.risk_weight = 5;
    doc.add_rule(approve);
    PolicyEngine::new(doc)
}

#[test]
fn allow_path_compiles_a_grant() {
    let e = engine();
    let p = Principal::new_agent("agent");
    let d = e.evaluate(&p, &Operation::new("fs.write"), &text("path", "src/main.rs"), None, NOW);
    match d {
        Decision::Allow { rule_id, grant } => {
            assert_eq!(rule_id, "allow-write-src");
            assert_eq!(grant.lease.remaining_uses, 20);
            assert!(grant
                .lease
                .check(&p.id, &Operation::new("fs.write"), &text("path", "src/x"), None, NOW)
                .is_ok());
        }
        other => panic!("expected allow, got {other:?}"),
    }
}

#[test]
fn constraint_violation_denies_with_correct_code() {
    let e = engine();
    let p = Principal::new_agent("agent");
    let d = e.evaluate(&p, &Operation::new("fs.write"), &text("path", "/etc/passwd"), None, NOW);
    match d {
        Decision::Deny { denial } => {
            assert_eq!(denial.code, DenialCode::ConstraintViolated);
            // No host paths leak in the reason.
            assert!(!denial.reason.contains("/etc"));
            assert!(!denial.reason.contains("src/"));
            assert!(denial.escalation_allowed);
        }
        other => panic!("expected deny, got {other:?}"),
    }
}

#[test]
fn unmatched_operation_default_denies_with_alternatives_and_scopes() {
    let e = engine();
    let p = Principal::new_agent("agent");
    let d = e.evaluate(&p, &Operation::new("net.raw_socket"), &empty(), None, NOW);
    match d {
        Decision::Deny { denial } => {
            assert_eq!(denial.code, DenialCode::CapabilityDenied);
            assert!(denial.safe_alternatives.contains(&Operation::new("fs.write")));
            assert_eq!(denial.requestable_scopes.len(), 1);
            assert_eq!(denial.requestable_scopes[0].operation.0, "net.http_read");
        }
        other => panic!("expected deny, got {other:?}"),
    }
}

#[test]
fn explicit_deny_rule_wins_and_approval_path_carries_epoch() {
    let e = engine();
    let mut tool = Principal::new_agent("tool");
    tool.kind = PrincipalKind::Tool;
    let d = e.evaluate(&tool, &Operation::new("proc.shell"), &empty(), None, NOW);
    assert!(matches!(d, Decision::Deny { denial } if denial.code == DenialCode::PolicyForbidden));

    let agent = Principal::new_agent("agent");
    let d = e.evaluate(&agent, &Operation::new("github.create_pull_request"), &empty(), None, NOW);
    match d {
        Decision::RequireApproval { rule_id, policy_epoch, .. } => {
            assert_eq!(rule_id, "approve-pr");
            assert_eq!(policy_epoch, e.document().policy_epoch);
        }
        other => panic!("expected approval, got {other:?}"),
    }
}

#[test]
fn denials_are_redacted_by_trust() {
    let e = engine();
    let mut quarantined = Principal::new_agent("skill");
    quarantined.trust = TrustLevel::Quarantined;
    let d = e.evaluate(&quarantined, &Operation::new("net.raw_socket"), &empty(), None, NOW);
    match d {
        Decision::Deny { denial } => {
            assert!(denial.requestable_scopes.is_empty());
            assert!(!denial.escalation_allowed);
            assert_eq!(denial.reason, "operation not permitted for this principal");
        }
        other => panic!("expected deny, got {other:?}"),
    }
}

#[test]
fn quarantined_principals_get_no_network() {
    let e = engine();
    let mut skill = Principal::new_agent("skill");
    skill.trust = TrustLevel::Quarantined;
    let d = e.evaluate(&skill, &Operation::new("fs.write"), &text("path", "src/a"), None, NOW);
    match d {
        Decision::Allow { grant, .. } => {
            assert!(grant.confinement.egress_domains.is_empty());
            assert_eq!(grant.confinement.syscall_profile, SyscallProfile::Networkless);
        }
        other => panic!("expected allow, got {other:?}"),
    }
}

fn doc() -> PolicyDocument {
    let mut d = PolicyDocument::default();
    d.set_paths(PathPolicy {
        readable_prefixes: vec!["".to_string()],
        writable_prefixes: vec!["src/".to_string(), "tests/".to_string()],
    });
    d.set_egress_domains(vec!["api.github.com".to_string()]);
    d
}

fn pr_rule() -> PolicyRule {
    let mut r = rule("pr", vec!["github.create_pull_request"], RuleEffect::Allow);
    r.constraints.insert(
        "repository".to_string(),
        Constraint::Equals { value: Value::text("org/repo") },
    );
    r.constraints
        .insert("head".to_string(), Constraint::Prefix { prefix: "sandbox/".to_string() });
    r.max_uses = 2;
    r.ttl_seconds = 900;
    r.risk_weight = 5;
    r
}

#[test]
fn compiles_lease_and_confinement_from_rule() {
    let d = doc();
    let p = Principal::new_agent("agent");
    let op = Operation::new("github.create_pull_request");
    let grant = compile_grant(&d, &p, &op, &pr_rule(), &IndexMap::new(), None, NOW).unwrap();
    assert_eq!(grant.lease.principal.as_str(), p.id.as_str());
    assert_eq!(grant.lease.operation, op);
    assert_eq!(grant.lease.remaining_uses, 2);
    assert_eq!(grant.lease.expires_at, NOW.plus_seconds(900));
    assert_eq!(grant.lease.budget.risk_units, 10); // step_default max risk_weight
    assert_eq!(grant.confinement.writable_prefixes, vec!["src/", "tests/"]);
    assert_eq!(grant.confinement.egress_domains, vec!["api.github.com"]);
    assert_eq!(grant.confinement.syscall_profile, SyscallProfile::Standard);
    assert!(grant.confinement.env_scrub);
}

#[test]
fn extra_constraints_may_only_narrow_a_grant() {
    let d = doc();
    let p = Principal::new_agent("agent");
    let op = Operation::new("github.create_pull_request");
    let mut narrower = IndexMap::new();
    narrower.insert(
        "head".to_string(),
        Constraint::Prefix { prefix: "sandbox/fix/".to_string() },
    );
    let grant = compile_grant(&d, &p, &op, &pr_rule(), &narrower, None, NOW).unwrap();
    assert!(matches!(
        grant.lease.constraints.get("head"),
        Some(Constraint::Prefix { prefix }) if prefix == "sandbox/fix/"
    ));
    assert_eq!(grant.lease.constraints.len(), 2);
    let mut wider = IndexMap::new();
    wider.insert("head".to_string(), Constraint::Prefix { prefix: "sand".to_string() });
    assert!(compile_grant(&d, &p, &op, &pr_rule(), &wider, None, NOW).is_err());
    // A rule that does not grant compiles to nothing, and so does another operation.
    let mut deny = pr_rule();
    deny.effect = RuleEffect::Deny;
    assert!(compile_grant(&d, &p, &op, &deny, &IndexMap::new(), None, NOW).is_err());
    let other = Operation::new("fs.write");
    assert!(compile_grant(&d, &p, &other, &pr_rule(), &IndexMap::new(), None, NOW).is_err());
}

fn lease() -> CapabilityLease {
    let p = Principal::new_agent("agent");
    let op = Operation::new("github.create_pull_request");
    compile_grant(&doc(), &p, &op, &pr_rule(), &IndexMap::new(), None, NOW).unwrap().lease
}

#[test]
fn leases_refuse_for_the_first_reason_that_holds() {
    let mut l = lease();
    let who = l.principal.clone();
    let op = l.operation.clone();
    let mut params = JsonMap::new();
    params.insert("repository".to_string(), Value::text("org/repo"));
    params.insert("head".to_string(), Value::text("sandbox/a"));
    let good = Value::Object(params);
    assert!(l.check(&who, &op, &good, None, NOW).is_ok());
    assert!(matches!(
        l.check(&who, &op, &text("repository", "org/repo"), None, NOW),
        Err(LeaseCheckFailure::ConstraintViolated { ref parameter, .. }) if parameter == "head"
    ));
    assert!(matches!(
        l.check(&who, &Operation::new("fs.write"), &good, None, NOW),
        Err(LeaseCheckFailure::WrongOperation { .. })
    ));
    assert!(matches!(
        l.check(&Principal::new_agent("b").id, &op, &good, None, NOW),
        Err(LeaseCheckFailure::WrongPrincipal)
    ));
    assert!(matches!(
        l.check(&who, &op, &good, None, NOW.plus_seconds(900)),
        Err(LeaseCheckFailure::Expired { .. })
    ));
    l.remaining_uses = 0;
    assert!(matches!(l.check(&who, &op, &good, None, NOW), Err(LeaseCheckFailure::Exhausted)));
    l.revoked = true;
    assert!(matches!(l.check(&who, &op, &good, None, NOW), Err(LeaseCheckFailure::Revoked)));
}

#[test]
fn constraints_let_through_what_they_name() {
    let max = Constraint::Max { max: Number::PosInt(3) };
    assert!(max.allows(Some(&Value::from_u64(3))));
    assert!(!max.allows(Some(&Value::from_u64(4))));
    assert!(!max.allows(None));
    // Numbers are compared as the nearest doubles; these two are neighbours.
    let float = |t: &str| Value::Number(Number::Float(t.to_string()));
    let max = Constraint::Max { max: Number::Float("1.430206016712772".to_string()) };
    assert!(max.allows(Some(&float("1.430206016712772"))));
    assert!(!max.allows(Some(&float("1.4302060167127721"))));
    assert!(max.allows(Some(&Value::from_u64(1))));
    assert!(!max.allows(Some(&float("1e300"))));
    assert!(max.allows(Some(&float("-1e300"))));
    assert!(!max.allows(Some(&float("1e999"))), "no finite double");
    assert!(!max.allows(Some(&float("one"))));
    let glob = Constraint::Glob { pattern: "*.rs".to_string() };
    assert!(glob.allows(Some(&Value::text("main.rs"))));
    assert!(!glob.allows(Some(&Value::text("main.py"))));
    assert!(Constraint::Forbidden.allows(None));
    assert!(Constraint::Forbidden.allows(Some(&Value::Bool(false))));
    assert!(!Constraint::Forbidden.allows(Some(&Value::Bool(true))));
    let one = Constraint::OneOf { values: vec![Value::text("a"), Value::text("b")] };
    assert!(one.allows(Some(&Value::text("b"))));
    assert!(!one.allows(Some(&Value::text("c"))));
    let equals = Constraint::Equals { value: Value::text("a") };
    assert!(equals.narrows(&one));
    assert!(!one.narrows(&equals));
    assert!(!Constraint::Forbidden.narrows(&one));
}
