//! Configuration of the kernel and of its server.
use vstd::prelude::*;
use crate::budget::ResourceBudget;
use crate::error::{KernelError, KernelResult};
use crate::lines::{trim, trimmed, words, words_from};
use crate::sorted::Sorted;
use crate::text;

verus! {

/// Configuration of a kernel. Paths are texts with `/` between components.
#[derive(Debug)]
pub struct KernelConfig {
    /// Directory holding every durable store (DAG db, CAS, ledger, identity db,
    /// effect store, signing key, secret vault, workspaces).
    pub data_dir: String,
    /// Optional YAML policy document; when absent an empty (default-deny)
    /// document is used.
    pub policy_file: Option<String>,
    /// Optional initial workspace snapshotted as episode roots when an episode
    /// is created without an explicit workspace.
    pub workspace_root: Option<String>,
    /// Episode budget enforced by the scheduler at step boundaries.
    pub episode_budget: ResourceBudget,
    /// Maximum concurrently executing steps across branches.
    pub max_concurrent_branches: usize,
    /// Path of the file holding the 32-byte key that seals secret files at rest.
    /// Kept outside `data_dir` so copying the data dir does not copy the key.
    pub vault_key_file: Option<String>,
    /// When set, the built-in HTTP read connector is registered.
    pub http: Option<HttpEgressSetup>,
    /// MCP servers: each is spawned as a confined, low-trust tool process and
    /// registered as a connector.
    pub mcp: Vec<McpServerSetup>,
    /// Additional isolation backends: router candidates next to the built-in
    /// local sandbox.
    pub backends: Vec<BackendSetup>,
}

/// One configured remote isolation backend.
#[derive(Debug)]
pub enum BackendSetup {
    /// gVisor (runsc) control host.
    Gvisor { endpoint: String, image: Option<String> },
    /// forkd CoW-fork host.
    Forkd { endpoint: String },
    /// Cube microVM host.
    Cube { endpoint: String },
    /// Kubernetes exec service. `isolation_strength` must match the configured
    /// runtime class: there is no safe guess, so the operator declares it.
    Kubernetes {
        endpoint: String,
        isolation_strength: u8,
        namespace: Option<String>,
        runtime_class: Option<String>,
        image: Option<String>,
    },
}

/// One MCP server.
#[derive(Debug)]
pub struct McpServerSetup {
    /// Server and connector name; its tools become `"<name>.<tool>"`
    /// operations. Must match `[a-z0-9_-]+`: it also names the server's on-disk
    /// scratch cell.
    pub name: String,
    /// Command launching the stdio (newline-delimited JSON-RPC) server.
    pub command: String,
    /// Arguments for `command`.
    pub args: Vec<String>,
    /// YAML file holding the signed tool manifest; requires
    /// `manifest_public_key_hex`. Without a manifest every tool is opaque: still
    /// callable, but only through the effect-approval path.
    pub manifest_file: Option<String>,
    /// Hex Ed25519 public key the manifest must verify against.
    pub manifest_public_key_hex: Option<String>,
    /// Environment granted to the server on top of `PATH` (plus `HOME` and
    /// `TMPDIR`, which default to the server's scratch cell).
    pub env: Sorted<String>,
    /// Development only. Spawn as a plain host process (still with a scrubbed
    /// environment) when no verified OS sandbox is available. Default: such
    /// hosts refuse the server entirely (fail closed).
    pub dangerously_allow_unsandboxed: bool,
}

/// HTTP observation-plane configuration.
#[derive(Debug)]
pub struct HttpEgressSetup {
    /// `*`-glob patterns of read-safe domains. GETs to these classify `Pure` and
    /// execute inline on the observation plane; every other target becomes a
    /// proposed effect requiring approval.
    pub read_safe_domains: Vec<String>,
    /// Response body cap in bytes.
    pub max_response_bytes: usize,
}

/// The response body cap when nothing is said of it: four mebibytes.
pub fn default_http_response_cap() -> (r: usize)
    ensures
        r == 4 * 1024 * 1024,
{
    4 * 1024 * 1024
}

/// The number of concurrent steps when nothing is said of it.
pub fn default_fanout() -> (r: usize)
    ensures
        r == 8,
{
    8
}

/// The episode budget when nothing is said of it: ten minutes of processor time,
/// eight gibibytes of memory, one of traffic.
pub open spec fn default_budget() -> ResourceBudget {
    ResourceBudget {
        cpu_ms: 600_000,
        memory_bytes: 8_589_934_592,
        network_bytes: 1_073_741_824,
        tokens: 1_000_000,
        cost_micro_usd: 10_000_000,
        risk_units: 1000,
    }
}

/// The episode budget when nothing is said of it.
pub fn default_episode_budget() -> (r: ResourceBudget)
    ensures
        r == default_budget(),
{
    ResourceBudget {
        cpu_ms: 600_000,
        memory_bytes: 8_589_934_592,
        network_bytes: 1_073_741_824,
        tokens: 1_000_000,
        cost_micro_usd: 10_000_000,
        risk_units: 1000,
    }
}

impl Default for HttpEgressSetup {
    fn default() -> (r: Self)
        ensures
            r.read_safe_domains@.len() == 0,
            r.max_response_bytes == 4 * 1024 * 1024,
    {
        HttpEgressSetup {
            read_safe_domains: Vec::new(),
            max_response_bytes: default_http_response_cap(),
        }
    }
}

/// A relative name below a directory.
pub open spec fn below(dir: Seq<char>, name: Seq<char>) -> Seq<char> {
    if dir.len() == 0 || dir.last() == '/' {
        dir + name
    } else {
        dir + "/"@ + name
    }
}

/// A relative name below a directory.
pub fn join_path(dir: &str, name: &str) -> (r: String)
    ensures
        r@ == below(dir@, name@),
{
    let chars = text::chars_of(dir);
    if chars.len() == 0 || chars[chars.len() - 1] == '/' {
        text::cat2(dir, name)
    } else {
        text::cat3(dir, "/", name)
    }
}

/// Where the sealing key is kept when nothing is said of it.
pub open spec fn default_key_file(home: Option<Seq<char>>) -> Seq<char> {
    let h = match home {
        Some(h) => h,
        None => Seq::empty(),
    };
    below(below(h, ".agent-kernel"@), "vault.key"@)
}

impl KernelConfig {
    /// A config rooted at `data_dir` with defaults everywhere else.
    pub fn new(data_dir: &str) -> (r: Self)
        ensures
            r.data_dir@ == data_dir@,
            r.policy_file is None,
            r.workspace_root is None,
            r.episode_budget == default_budget(),
            r.max_concurrent_branches == 8,
            r.vault_key_file is None,
            r.http is None,
            r.mcp@.len() == 0,
            r.backends@.len() == 0,
    {
        KernelConfig {
            data_dir: data_dir.to_owned(),
            policy_file: None,
            workspace_root: None,
            episode_budget: default_episode_budget(),
            max_concurrent_branches: default_fanout(),
            vault_key_file: None,
            http: None,
            mcp: Vec::new(),
            backends: Vec::new(),
        }
    }

    /// Effective sealing-key file: the configured path, or
    /// `.agent-kernel/vault.key` in the home directory when unset.
    pub fn effective_vault_key_file(&self, home: Option<&str>) -> (r: String)
        ensures
            r@ == match self.vault_key_file {
                Some(p) => p@,
                None => default_key_file(
                    match home {
                        Some(h) => Some(h@),
                        None => None,
                    },
                ),
            },
    {
        match &self.vault_key_file {
            Some(p) => p.clone(),
            None => {
                let h = match home {
                    Some(h) => h.to_owned(),
                    None => String::new(),
                };
                let dir = join_path(h.as_str(), ".agent-kernel");
                join_path(dir.as_str(), "vault.key")
            },
        }
    }

    /// Adds read-safe domains to the HTTP observation plane, which is switched
    /// on by the first.
    pub fn add_read_safe(&mut self, domains: &Vec<String>)
        ensures
            final(self).data_dir == old(self).data_dir,
            final(self).policy_file == old(self).policy_file,
            final(self).workspace_root == old(self).workspace_root,
            final(self).episode_budget == old(self).episode_budget,
            final(self).max_concurrent_branches == old(self).max_concurrent_branches,
            final(self).vault_key_file == old(self).vault_key_file,
            final(self).mcp == old(self).mcp,
            final(self).backends == old(self).backends,
            if domains@.len() == 0 {
                final(self).http == old(self).http
            } else {
                final(self).http matches Some(h) && match old(self).http {
                    Some(o) => h.max_response_bytes == o.max_response_bytes
                        && h.read_safe_domains.deep_view() == o.read_safe_domains.deep_view()
                        + domains.deep_view(),
                    None => h.max_response_bytes == 4 * 1024 * 1024
                        && h.read_safe_domains.deep_view() == domains.deep_view(),
                }
            },
    {
        if domains.len() == 0 {
            return;
        }
        let mut http: Option<HttpEgressSetup> = None;
        std::mem::swap(&mut http, &mut self.http);
        let mut setup = match http {
            Some(h) => h,
            None => HttpEgressSetup::default(),
        };
        let ghost before = setup.read_safe_domains.deep_view();
        let ghost ds = domains.deep_view();
        let mut i: usize = 0;
        proof {
            assert(before + ds.take(0) =~= before);
        }
        while i < domains.len()
            invariant
                i <= domains.len(),
                ds == domains.deep_view(),
                setup.read_safe_domains.deep_view() == before + ds.take(i as int),
                match old(self).http {
                    Some(o) => setup.max_response_bytes == o.max_response_bytes,
                    None => setup.max_response_bytes == 4 * 1024 * 1024,
                },
            decreases domains.len() - i,
        {
            let ghost so_far = setup.read_safe_domains.deep_view();
            setup.read_safe_domains.push(domains[i].clone());
            proof {
                assert(setup.read_safe_domains.deep_view() =~= so_far.push(ds[i as int]));
                assert(so_far.push(ds[i as int]) =~= before + ds.take(i + 1));
            }
            i = i + 1;
        }
        proof {
            assert(ds.take(ds.len() as int) =~= ds);
            if old(self).http is None {
                assert(before + ds =~= ds);
            }
        }
        self.http = Some(setup);
    }
}

/// A character that the name of an MCP server may have.
pub open spec fn name_char(c: char) -> bool {
    ('a' <= c && c <= 'z') || ('0' <= c && c <= '9') || c == '-' || c == '_'
}

/// A name that an MCP server may have.
pub open spec fn server_name(name: Seq<char>) -> bool {
    name.len() > 0 && forall|i: int| 0 <= i < name.len() ==> name_char(#[trigger] name[i])
}

/// The environment of a server: what was granted, with `HOME` and `TMPDIR` at
/// its scratch cell unless they were.
pub open spec fn server_env(env: Map<Seq<char>, String>, cell: Seq<char>, key: Seq<char>) -> Option<
    Seq<char>,
> {
    if env.contains_key(key) {
        Some(env[key]@)
    } else if key == "HOME"@ || key == "TMPDIR"@ {
        Some(cell)
    } else {
        None
    }
}

impl McpServerSetup {
    /// Whether the server has a name that can be an on-disk scratch cell and an
    /// operation prefix.
    pub fn check_name(&self) -> (r: KernelResult<()>)
        ensures
            match r {
                Ok(_) => server_name(self.name@),
                Err(e) => !server_name(self.name@) && (e matches KernelError::Other(m) && m@
                    == "mcp server name `"@ + self.name@
                    + "` must match [a-z0-9_-]+ — it names an on-disk scratch cell and an operation prefix"@),
            },
    {
        let chars = text::chars_of(self.name.as_str());
        let mut ok = chars.len() > 0;
        let mut i: usize = 0;
        while i < chars.len() && ok
            invariant
                i <= chars.len(),
                chars@ == self.name@,
                ok ==> chars@.len() > 0 && forall|j: int|
                    0 <= j < i ==> name_char(#[trigger] chars@[j]),
                !ok ==> !server_name(chars@),
            decreases chars.len() - i,
        {
            let c = chars[i];
            let fits = ('a' <= c && c <= 'z') || ('0' <= c && c <= '9') || c == '-' || c == '_';
            if !fits {
                proof {
                    assert(!name_char(chars@[i as int]));
                }
                ok = false;
            }
            i = i + 1;
        }
        if ok {
            Ok(())
        } else {
            Err(
                KernelError::Other(
                    text::cat3(
                        "mcp server name `",
                        self.name.as_str(),
                        "` must match [a-z0-9_-]+ — it names an on-disk scratch cell and an operation prefix",
                    ),
                ),
            )
        }
    }

    /// The wrapper that a server is spawned under: the sandbox's, or none for a
    /// server that opted out on a host without one. Every other server on such
    /// a host is refused.
    pub fn choose_wrapper(&self, wrapper: Option<Vec<String>>) -> (r: KernelResult<Vec<String>>)
        ensures
            match wrapper {
                Some(w) => r == Ok::<Vec<String>, KernelError>(w),
                None => if self.dangerously_allow_unsandboxed {
                    r matches Ok(w) && w@.len() == 0
                } else {
                    r matches Err(e) && (e matches KernelError::BackendUnavailable {
                        backend,
                        reason,
                    } && backend@ == "local"@ && reason@
                        == "no verified OS sandbox on this host: MCP server `"@ + self.name@
                        + "` is a low-trust tool process and fails closed. Install bubblewrap (Linux) or ensure /usr/bin/sandbox-exec works (macOS), or opt in for trusted development servers only via `dangerously_allow_unsandboxed`."@)
                },
            },
    {
        match wrapper {
            Some(w) => Ok(w),
            None => {
                if self.dangerously_allow_unsandboxed {
                    Ok(Vec::new())
                } else {
                    Err(
                        KernelError::BackendUnavailable {
                            backend: "local".to_owned(),
                            reason: text::cat3(
                                "no verified OS sandbox on this host: MCP server `",
                                self.name.as_str(),
                                "` is a low-trust tool process and fails closed. Install bubblewrap (Linux) or ensure /usr/bin/sandbox-exec works (macOS), or opt in for trusted development servers only via `dangerously_allow_unsandboxed`.",
                            ),
                        },
                    )
                }
            },
        }
    }

    /// The manifest file and the key it must verify against: both, or neither.
    pub fn manifest_source(&self) -> (r: KernelResult<Option<(String, String)>>)
        ensures
            match (self.manifest_file, self.manifest_public_key_hex) {
                (Some(path), Some(key)) => r matches Ok(Some(s)) && s.0@ == path@ && s.1@ == key@,
                (None, None) => r matches Ok(None),
                _ => r matches Err(e) && (e matches KernelError::Other(m) && m@ == "mcp server `"@
                    + self.name@
                    + "`: `manifest_file` and `manifest_public_key_hex` must be set together"@),
            },
    {
        match (&self.manifest_file, &self.manifest_public_key_hex) {
            (Some(path), Some(key)) => Ok(Some((path.clone(), key.clone()))),
            (None, None) => Ok(None),
            _ => Err(
                KernelError::Other(
                    text::cat3(
                        "mcp server `",
                        self.name.as_str(),
                        "`: `manifest_file` and `manifest_public_key_hex` must be set together",
                    ),
                ),
            ),
        }
    }

    /// The environment of the server: what was granted, with `HOME` and `TMPDIR`
    /// at its scratch cell unless they were.
    pub fn environment(&self, cell: &str) -> (r: Sorted<String>)
        ensures
            forall|key: Seq<char>|
                match server_env(self.env@, cell@, key) {
                    Some(v) => (#[trigger] r@.contains_key(key)) && r@[key]@ == v,
                    None => !r@.contains_key(key),
                },
    {
        let mut out: Sorted<String> = Sorted::new();
        out.insert("HOME".to_owned(), cell.to_owned());
        out.insert("TMPDIR".to_owned(), cell.to_owned());
        let n = self.env.len();
        let ghost ks = self.env.keys();
        let mut i: usize = 0;
        while i < n
            invariant
                i <= n,
                n == ks.len(),
                ks == self.env.keys(),
                self.env.keyed(),
                forall|key: Seq<char>|
                    #![trigger out@.contains_key(key)]
                    if ks.take(i as int).contains(key) {
                        out@.contains_key(key) && out@[key]@ == self.env@[key]@
                    } else if key == "HOME"@ || key == "TMPDIR"@ {
                        out@.contains_key(key) && out@[key]@ == cell@
                    } else {
                        !out@.contains_key(key)
                    },
            decreases n - i,
        {
            let (k, v) = self.env.at(i);
            let ghost before = out@;
            out.insert(k.clone(), v.clone());
            proof {
                let a = ks.take(i as int);
                let b = ks.take(i + 1);
                assert(b =~= a.push(k@));
                assert forall|key: Seq<char>|
                    #![trigger out@.contains_key(key)]
                    if b.contains(key) {
                        out@.contains_key(key) && out@[key]@ == self.env@[key]@
                    } else if key == "HOME"@ || key == "TMPDIR"@ {
                        out@.contains_key(key) && out@[key]@ == cell@
                    } else {
                        !out@.contains_key(key)
                    } by {
                    if key == k@ {
                        assert(b[i as int] == key);
                    } else {
                        assert(b.contains(key) <==> a.contains(key)) by {
                            if b.contains(key) {
                                let j = choose|j: int| 0 <= j < b.len() && b[j] == key;
                                assert(a[j] == key);
                            }
                            if a.contains(key) {
                                let j = choose|j: int| 0 <= j < a.len() && a[j] == key;
                                assert(b[j] == key);
                            }
                        }
                        assert(before.contains_key(key) == out@.contains_key(key));
                    }
                }
            }
            i = i + 1;
        }
        proof {
            assert(ks.take(ks.len() as int) =~= ks);
            assert forall|key: Seq<char>|
                match server_env(self.env@, cell@, key) {
                    Some(v) => (#[trigger] out@.contains_key(key)) && out@[key]@ == v,
                    None => !out@.contains_key(key),
                } by {
                assert(ks.to_set().contains(key) <==> self.env@.dom().contains(key));
            }
        }
        out
    }
}

/// A server's name is one path component: its scratch cell lies directly below
/// the directory of all cells, and its operations have no further dot before the
/// tool's.
pub proof fn law_server_names_are_single_components(name: Seq<char>, i: int)
    requires
        server_name(name),
        0 <= i < name.len(),
    ensures
        name[i] != '/',
        name[i] != '.',
{
    assert(name_char(name[i]));
}

/// Splits a text at the first `=`.
fn split_once(s: &str) -> (r: Option<(Vec<char>, Vec<char>)>)
    ensures
        match r {
            Some((k, v)) => text::pos(s@, '=') < s@.len() && k@ == s@.take(text::pos(s@, '='))
                && v@ == s@.skip(text::pos(s@, '=') + 1),
            None => text::pos(s@, '=') >= s@.len(),
        },
{
    let chars = text::chars_of(s);
    let p = text::pos_from(&chars, '=', 0);
    proof {
        assert(chars@.skip(0) =~= chars@);
        text::lemma_pos_is_first(chars@, '=');
    }
    if p >= chars.len() {
        return None;
    }
    let k = text::slice(&chars, 0, p);
    let v = text::slice(&chars, p + 1, chars.len());
    proof {
        assert(k@ =~= s@.take(p as int));
        assert(v@ =~= s@.skip(p + 1));
    }
    Some((k, v))
}

/// Read an MCP server from its command-line form, `name=command [args…]`.
pub fn parse_mcp_server(spec: &str) -> (r: Result<McpServerSetup, String>)
    ensures
        ({
            let p = text::pos(spec@, '=');
            let parts = words_from(spec@.skip(p + 1), 0);
            if p >= spec@.len() {
                r matches Err(m) && m@ == "--mcp-server expects `name=command [args…]`, got `"@
                    + spec@ + "`"@
            } else if parts.len() == 0 {
                r matches Err(m) && m@ == "--mcp-server "@ + spec@.take(p) + ": empty command"@
            } else {
                r matches Ok(s) && s.name@ == trimmed(spec@.take(p)) && s.command@ == parts[0]
                    && s.args.deep_view() == parts.skip(1) && s.manifest_file is None
                    && s.manifest_public_key_hex is None && s.env@ == Map::<
                    Seq<char>,
                    String,
                >::empty() && !s.dangerously_allow_unsandboxed
            }
        }),
{
    let (name, cmdline) = match split_once(spec) {
        Some(x) => x,
        None => {
            return Err(
                text::cat3("--mcp-server expects `name=command [args…]`, got `", spec, "`"),
            );
        },
    };
    let parts = words(&cmdline);
    let ghost ps = parts.deep_view();
    if parts.len() == 0 {
        let n = text::string_of(&name);
        return Err(text::cat3("--mcp-server ", n.as_str(), ": empty command"));
    }
    proof {
        assert(ps[0] == parts@[0].deep_view());
        assert(parts@[0].deep_view() == parts@[0]@);
    }
    let command = text::string_of(&parts[0]);
    let mut args: Vec<String> = Vec::new();
    let mut i: usize = 1;
    proof {
        assert(args.deep_view() =~= ps.subrange(1, 1));
    }
    while i < parts.len()
        invariant
            1 <= i <= parts.len(),
            ps == parts.deep_view(),
            args.deep_view() == ps.subrange(1, i as int),
        decreases parts.len() - i,
    {
        let ghost before = args.deep_view();
        args.push(text::string_of(&parts[i]));
        proof {
            assert(ps[i as int] == parts@[i as int].deep_view());
            assert(parts@[i as int].deep_view() == parts@[i as int]@);
            assert(args.deep_view() =~= before.push(ps[i as int]));
            assert(ps.subrange(1, i + 1) =~= before.push(ps[i as int]));
        }
        i = i + 1;
    }
    proof {
        assert(ps.subrange(1, ps.len() as int) =~= ps.skip(1));
    }
    Ok(
        McpServerSetup {
            name: text::string_of(&trim(&name)),
            command,
            args,
            manifest_file: None,
            manifest_public_key_hex: None,
            env: Sorted::new(),
            dangerously_allow_unsandboxed: false,
        },
    )
}

/// Read a backend from its command-line form, `kind=endpoint`.
pub fn parse_backend(spec: &str) -> (r: Result<BackendSetup, String>)
    ensures
        ({
            let p = text::pos(spec@, '=');
            let kind = trimmed(spec@.take(p));
            let at = trimmed(spec@.skip(p + 1));
            if p >= spec@.len() {
                r matches Err(m) && m@ == "--backend expects `kind=endpoint`, got `"@ + spec@ + "`"@
            } else if kind == "gvisor"@ {
                r matches Ok(BackendSetup::Gvisor { endpoint, image }) && endpoint@ == at
                    && image is None
            } else if kind == "forkd"@ {
                r matches Ok(BackendSetup::Forkd { endpoint }) && endpoint@ == at
            } else if kind == "cube"@ {
                r matches Ok(BackendSetup::Cube { endpoint }) && endpoint@ == at
            } else {
                r matches Err(m) && m@ == "--backend kind `"@ + kind
                    + "` is not supported on the CLI; use the config file's `backends` block (kinds: gvisor, forkd, cube, kubernetes)"@
            }
        }),
{
    let (kind, endpoint) = match split_once(spec) {
        Some(x) => x,
        None => {
            return Err(text::cat3("--backend expects `kind=endpoint`, got `", spec, "`"));
        },
    };
    let kind = text::string_of(&trim(&kind));
    let endpoint = text::string_of(&trim(&endpoint));
    if text::str_eq(kind.as_str(), "gvisor") {
        Ok(BackendSetup::Gvisor { endpoint, image: None })
    } else if text::str_eq(kind.as_str(), "forkd") {
        Ok(BackendSetup::Forkd { endpoint })
    } else if text::str_eq(kind.as_str(), "cube") {
        Ok(BackendSetup::Cube { endpoint })
    } else {
        Err(
            text::cat3(
                "--backend kind `",
                kind.as_str(),
                "` is not supported on the CLI; use the config file's `backends` block (kinds: gvisor, forkd, cube, kubernetes)",
            ),
        )
    }
}

/// Whether a server may listen: without authentication only on a loopback
/// address, and only when that was accepted explicitly.
pub fn may_listen(listen: &str, authenticated: bool, loopback: bool, insecure_no_auth: bool) -> (r:
    Result<(), String>)
    ensures
        match r {
            Ok(_) => authenticated || (loopback && insecure_no_auth),
            Err(m) => !authenticated && if !loopback {
                m@ == "refusing to listen on non-loopback "@ + listen@
                    + " without --auth-config; unauthenticated mode is loopback-only"@
            } else {
                &&& !insecure_no_auth
                &&& m@
                    == "no --auth-config given; pass --insecure-no-auth to explicitly accept an unauthenticated loopback control plane"@
            },
        },
{
    if authenticated {
        return Ok(());
    }
    if !loopback {
        return Err(
            text::cat3(
                "refusing to listen on non-loopback ",
                listen,
                " without --auth-config; unauthenticated mode is loopback-only",
            ),
        );
    }
    if !insecure_no_auth {
        return Err(
            "no --auth-config given; pass --insecure-no-auth to explicitly accept an unauthenticated loopback control plane".to_owned(),
        );
    }
    Ok(())
}

/// What lies below a directory is its name behind the directory, with one separator
/// between them.
pub proof fn law_names_lie_below_their_directory(dir: Seq<char>, name: Seq<char>)
    ensures
        below(Seq::empty(), name) == name,
        dir.len() > 0 && dir.last() != '/' ==> below(dir, name) == dir.push('/') + name,
        below(dir.push('/'), name) == dir.push('/') + name,
{
    reveal_strlit("/");
    assert("/"@ =~= seq!['/']);
    assert(dir + "/"@ =~= dir.push('/'));
    assert(Seq::<char>::empty() + name =~= name);
}

/// A server's name is made of small letters, digits, hyphens and underscores, at least
/// one, and nothing else.
pub proof fn law_server_names_are_plain(name: Seq<char>, c: char)
    ensures
        !server_name(Seq::empty()),
        server_name(name.push(c)) <==> (name.len() == 0 || server_name(name)) && (('a' <= c && c
            <= 'z') || ('0' <= c && c <= '9') || c == '-' || c == '_'),
{
    let more = name.push(c);
    if server_name(more) {
        assert(name_char(more[name.len() as int]));
        assert forall|i: int| 0 <= i < name.len() implies name_char(#[trigger] name[i]) by {
            assert(name_char(more[i]));
        }
    }
}

/// A server sees what was granted to it, and its scratch cell as home and temporary
/// directory where nothing else was granted; it sees nothing else.
pub proof fn law_servers_see_only_what_was_granted(
    env: Map<Seq<char>, String>,
    cell: Seq<char>,
    key: Seq<char>,
)
    ensures
        env.contains_key(key) ==> server_env(env, cell, key) == Some(env[key]@),
        !env.contains_key(key) && (key == "HOME"@ || key == "TMPDIR"@) ==> server_env(env, cell, key)
            == Some(cell),
        !env.contains_key(key) && key != "HOME"@ && key != "TMPDIR"@ ==> server_env(env, cell, key)
            is None,
{
}

/// The sealing key lies in the kernel's directory below the home directory.
pub proof fn law_sealing_key_lies_below_home(home: Seq<char>)
    requires
        home.len() > 0,
        home.last() != '/',
    ensures
        default_key_file(Some(home)) == home.push('/') + ".agent-kernel/vault.key"@,
{
    reveal_strlit("/");
    reveal_strlit(".agent-kernel");
    reveal_strlit("vault.key");
    reveal_strlit(".agent-kernel/vault.key");
    let d = below(home, ".agent-kernel"@);
    assert(".agent-kernel"@.len() == 13);
    assert(d.last() == ".agent-kernel"@.last());
    assert(".agent-kernel"@ + "/"@ + "vault.key"@ =~= ".agent-kernel/vault.key"@);
    assert(below(d, "vault.key"@) =~= home.push('/') + ".agent-kernel/vault.key"@);
}

/// An episode gets ten minutes of processor time, eight gibibytes of memory, one of
/// traffic, a million tokens, ten dollars and a thousand units of risk, where nothing
/// else is said: a budget fits exactly if it asks for no more.
pub proof fn law_default_episodes_are_bounded(b: ResourceBudget)
    ensures
        b.within(default_budget()) <==> b.cpu_ms <= 10 * 60 * 1000 && b.memory_bytes <= 8 * 1024
            * 1024 * 1024 && b.network_bytes <= 1024 * 1024 * 1024 && b.tokens <= 1000 * 1000
            && b.cost_micro_usd <= 10 * 1000 * 1000 && b.risk_units <= 1000,
        default_budget().within(b) <==> b.cpu_ms >= 10 * 60 * 1000 && b.memory_bytes >= 8 * 1024
            * 1024 * 1024 && b.network_bytes >= 1024 * 1024 * 1024 && b.tokens >= 1000 * 1000
            && b.cost_micro_usd >= 10 * 1000 * 1000 && b.risk_units >= 1000,
{
}

/// A server listens without authentication only on a loopback address, and only where
/// that was accepted; with authentication everywhere.
pub proof fn law_open_servers_stay_on_loopback(
    listen: &str,
    authenticated: bool,
    loopback: bool,
    accepted: bool,
    r: Result<(), String>,
)
    requires
        call_ensures(may_listen, (listen, authenticated, loopback, accepted), r),
    ensures
        authenticated ==> r is Ok,
        !authenticated && !loopback ==> r is Err,
        !authenticated && !accepted ==> r is Err,
        !authenticated && loopback && accepted ==> r is Ok,
{
}

} // verus!
