//! Configuration: what is accepted before anything starts.
use agent_kernel::api::config::{
    default_episode_budget, join_path, may_listen, parse_backend, parse_mcp_server, BackendSetup,
    HttpEgressSetup, KernelConfig, McpServerSetup,
};
use agent_kernel::error::KernelError;
use agent_kernel::sorted::Sorted;

fn setup(name: &str) -> McpServerSetup {
    McpServerSetup {
        name: name.to_string(),
        command: "/bin/sh".to_string(),
        args: vec!["-c".to_string(), "read x".to_string()],
        manifest_file: None,
        manifest_public_key_hex: None,
        env: Sorted::new(),
        dangerously_allow_unsandboxed: false,
    }
}

#[test]
fn hostile_mcp_config_is_refused_before_spawning() {
    // A path-escaping name must never reach the filesystem.
    let err = setup("../escape").check_name().expect_err("path-escaping name must be refused");
    assert!(err.message().contains("[a-z0-9_-]"), "got: {}", err.message());
    assert!(setup("").check_name().is_err());
    assert!(setup("notes-2_x").check_name().is_ok());
    // A manifest file without its verification key is refused: an unverified
    // manifest must never vouch effect classes.
    let mut broken = setup("probe");
    broken.manifest_file = Some("never-read.yaml".to_string());
    assert!(
        broken.manifest_source().is_err(),
        "manifest_file without manifest_public_key_hex must be refused"
    );
    broken.manifest_public_key_hex = Some("00".to_string());
    assert_eq!(
        broken.manifest_source().unwrap(),
        Some(("never-read.yaml".to_string(), "00".to_string()))
    );
    assert!(setup("probe").manifest_source().unwrap().is_none());
}

#[test]
fn servers_without_a_sandbox_fail_closed() {
    let mut s = setup("notes");
    assert!(matches!(
        s.choose_wrapper(None),
        Err(KernelError::BackendUnavailable { ref backend, .. }) if backend == "local"
    ));
    assert_eq!(s.choose_wrapper(Some(vec!["bwrap".to_string()])).unwrap(), vec!["bwrap"]);
    s.dangerously_allow_unsandboxed = true;
    assert!(s.choose_wrapper(None).unwrap().is_empty());
}

#[test]
fn servers_live_in_their_cell() {
    let mut s = setup("notes");
    s.env.insert("HOME".to_string(), "/elsewhere".to_string());
    let env = s.environment("/data/mcp/notes");
    assert_eq!(env.get("HOME").map(|v| v.as_str()), Some("/elsewhere"));
    assert_eq!(env.get("TMPDIR").map(|v| v.as_str()), Some("/data/mcp/notes"));
    assert!(env.get("PATH").is_none());
}

#[test]
fn command_line_forms_are_read() {
    let s = parse_mcp_server(" notes =python3 notes_server.py -v").unwrap();
    assert_eq!(s.name, "notes");
    assert_eq!(s.command, "python3");
    assert_eq!(s.args, vec!["notes_server.py", "-v"]);
    assert!(parse_mcp_server("notes").is_err());
    assert!(parse_mcp_server("notes= ").is_err());
    assert!(matches!(
        parse_backend("gvisor=http://127.0.0.1:9").unwrap(),
        BackendSetup::Gvisor { ref endpoint, image: None } if endpoint == "http://127.0.0.1:9"
    ));
    assert!(matches!(parse_backend("forkd=x").unwrap(), BackendSetup::Forkd { .. }));
    assert!(matches!(parse_backend("cube=x").unwrap(), BackendSetup::Cube { .. }));
    assert!(parse_backend("kubernetes=x").is_err());
    assert!(parse_backend("gvisor").is_err());
}

#[test]
fn unauthenticated_servers_stay_on_loopback() {
    assert!(may_listen("0.0.0.0:1", true, false, false).is_ok());
    assert!(may_listen("127.0.0.1:1", false, true, true).is_ok());
    assert!(may_listen("127.0.0.1:1", false, true, false).is_err());
    assert_eq!(
        may_listen("0.0.0.0:1", false, false, true).unwrap_err(),
        "refusing to listen on non-loopback 0.0.0.0:1 without --auth-config; \
         unauthenticated mode is loopback-only"
    );
}

#[test]
fn defaults_are_usable() {
    let mut c = KernelConfig::new("/data");
    assert_eq!(c.data_dir, "/data");
    assert_eq!(c.episode_budget, default_episode_budget());
    assert!(c.max_concurrent_branches > 0);
    assert!(c.http.is_none());
    c.add_read_safe(&vec!["docs.rs".to_string(), "*.wikipedia.org".to_string()]);
    let http = c.http.as_ref().unwrap();
    assert_eq!(http.read_safe_domains.len(), 2);
    assert_eq!(http.max_response_bytes, 4 * 1024 * 1024);
    assert_eq!(HttpEgressSetup::default().max_response_bytes, 4 * 1024 * 1024);
    c.vault_key_file = Some("/keys/seal.key".to_string());
    assert_eq!(c.effective_vault_key_file(Some("/home/a")), "/keys/seal.key");
    assert_eq!(join_path("/a/", "b"), "/a/b");
    assert_eq!(join_path("/a", "b"), "/a/b");
}
