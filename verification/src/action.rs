//! Structured actions: what an agent asks the kernel to execute.
use vstd::prelude::*;
use crate::budget::{ResourceBudget, budget_json};
use crate::capability::Operation;
use crate::ids::{LeaseId, StateId};
use crate::json::{
    Json, JsonMap, NumberView, Value, member, object1, object2, object3, opt_text_json,
};
use crate::text;

verus! {

/// The action taxonomy. Every variant is a semantic request; the kernel, not
/// the agent, decides which isolation backend executes it.
#[derive(Debug)]
pub enum ActionKind {
    /// Run a shell command inside the branch workspace.
    Shell { command: String, cwd: Option<String>, env: Vec<(String, String)> },
    /// Read a file from the branch workspace.
    ReadFile { path: String },
    /// Write a file into the branch workspace.
    WriteFile { path: String, contents_b64: String },
    /// Delete a path in the branch workspace.
    DeletePath { path: String },
    /// Start a persistent process in the branch workspace (dev server, REPL,
    /// database, watcher, …). Unlike [`ActionKind::Shell`] the process outlives
    /// the step. It belongs to the branch and is killed when the branch is
    /// discarded. It does not survive a fork.
    ProcessStart {
        command: String,
        cwd: Option<String>,
        env: Vec<(String, String)>,
        /// Optional human-readable name for status listings.
        name: Option<String>,
    },
    /// Write bytes to a running process's stdin (optionally closing it).
    ProcessStdin { process: String, data_b64: String, close: bool },
    /// Read combined stdout/stderr of a process from a byte offset.
    ProcessLogs { process: String, from_offset: u64, max_bytes: Option<u64> },
    /// Send a signal to a running process: `"int"`, `"term"` or `"kill"`.
    ProcessSignal { process: String, signal: String },
    /// Report whether a process is running, its exit code, and log totals. An
    /// empty `process` lists every live process on the branch.
    ProcessStatus { process: String },
    /// Read-only HTTP fetch through the egress proxy.
    HttpRead { url: String },
    /// Invoke an MCP tool through the gateway.
    McpInvoke { server: String, tool: String, arguments: Value },
    /// A typed connector operation that may produce an external effect
    /// (e.g. `github.create_pull_request`). Never executed inline: the kernel
    /// turns it into a proposed effect.
    ConnectorOp { connector: String, operation: String, params: Value },
    /// Query the causal ledger (`trace.query`).
    TraceQuery { query: String },
    /// Ask for a semantic diff of a branch since a state.
    BranchDiff { since: StateId },
}

/// Environment variables in JSON; of two for one name the later counts.
pub open spec fn env_json(env: Seq<(String, String)>) -> Map<Seq<char>, Json>
    decreases env.len(),
{
    if env.len() == 0 {
        Map::empty()
    } else {
        env_json(env.drop_last()).insert(env.last().0@, Json::Text(env.last().1@))
    }
}

fn env_value(env: &Vec<(String, String)>) -> (r: Value)
    ensures
        r@ == Json::Object(env_json(env@)),
{
    let mut m = JsonMap::new();
    let mut i: usize = 0;
    proof {
        assert(env@.take(0) == Seq::<(String, String)>::empty());
    }
    while i < env.len()
        invariant
            i <= env.len(),
            m@ == env_json(env@.take(i as int)),
        decreases env.len() - i,
    {
        proof {
            assert(env@.take(i + 1).drop_last() == env@.take(i as int));
            assert(env@.take(i + 1).last() == env@[i as int]);
        }
        m.insert(env[i].0.clone(), Value::text(env[i].1.as_str()));
        i = i + 1;
    }
    proof {
        assert(env@.take(env@.len() as int) == env@);
    }
    Value::Object(m)
}

/// An unsigned number in JSON.
pub open spec fn number_json(n: u64) -> Json {
    Json::Number(NumberView::PosInt(n))
}

/// An unsigned number, or `null` when there is none.
pub open spec fn opt_number_json(n: Option<u64>) -> Json {
    match n {
        Some(v) => number_json(v),
        None => Json::Null,
    }
}

fn opt_number(n: &Option<u64>) -> (r: Value)
    ensures
        r@ == opt_number_json(*n),
{
    match n {
        Some(v) => Value::from_u64(*v),
        None => Value::Null,
    }
}

impl ActionKind {
    /// The capability operation this action requires.
    pub open spec fn spec_required_operation(&self) -> Seq<char> {
        match self {
            ActionKind::Shell { .. } => "proc.shell"@,
            ActionKind::ReadFile { .. } => "fs.read"@,
            ActionKind::WriteFile { .. } => "fs.write"@,
            ActionKind::DeletePath { .. } => "fs.delete"@,
            ActionKind::ProcessStart { .. } => "proc.start"@,
            ActionKind::ProcessStdin { .. } => "proc.stdin"@,
            ActionKind::ProcessLogs { .. } => "proc.logs"@,
            ActionKind::ProcessSignal { .. } => "proc.signal"@,
            ActionKind::ProcessStatus { .. } => "proc.status"@,
            ActionKind::HttpRead { .. } => "net.http_read"@,
            ActionKind::McpInvoke { .. } => "mcp.invoke"@,
            ActionKind::ConnectorOp { connector, operation, .. } => connector@ + "."@ + operation@,
            ActionKind::TraceQuery { .. } => "trace.query"@,
            ActionKind::BranchDiff { .. } => "state.diff"@,
        }
    }

    /// Canonical parameters used for constraint checking.
    pub open spec fn spec_params(&self) -> Json {
        match self {
            ActionKind::Shell { command, cwd, .. } => Json::Object(
                map!["command"@ => Json::Text(command@), "cwd"@ => opt_text_json(cwd.deep_view())],
            ),
            ActionKind::ReadFile { path } => Json::Object(map!["path"@ => Json::Text(path@)]),
            ActionKind::DeletePath { path } => Json::Object(map!["path"@ => Json::Text(path@)]),
            ActionKind::WriteFile { path, .. } => Json::Object(map!["path"@ => Json::Text(path@)]),
            ActionKind::ProcessStart { command, cwd, .. } => Json::Object(
                map!["command"@ => Json::Text(command@), "cwd"@ => opt_text_json(cwd.deep_view())],
            ),
            ActionKind::ProcessStdin { process, .. } => Json::Object(
                map!["process"@ => Json::Text(process@)],
            ),
            ActionKind::ProcessLogs { process, .. } => Json::Object(
                map!["process"@ => Json::Text(process@)],
            ),
            ActionKind::ProcessStatus { process } => Json::Object(
                map!["process"@ => Json::Text(process@)],
            ),
            ActionKind::ProcessSignal { process, signal } => Json::Object(
                map!["process"@ => Json::Text(process@), "signal"@ => Json::Text(signal@)],
            ),
            ActionKind::HttpRead { url } => Json::Object(map!["url"@ => Json::Text(url@)]),
            ActionKind::McpInvoke { server, tool, arguments } => Json::Object(
                map![
                    "server"@ => Json::Text(server@),
                    "tool"@ => Json::Text(tool@),
                    "arguments"@ => arguments@
                ],
            ),
            ActionKind::ConnectorOp { params, .. } => params@,
            ActionKind::TraceQuery { query } => Json::Object(map!["query"@ => Json::Text(query@)]),
            ActionKind::BranchDiff { since } => Json::Object(map!["since"@ => Json::Text(since@)]),
        }
    }

    /// The action in JSON: the variant's name under `kind`, and its fields.
    pub open spec fn spec_json(&self) -> Json {
        match self {
            ActionKind::Shell { command, cwd, env } => Json::Object(
                map![
                    "kind"@ => Json::Text("shell"@),
                    "command"@ => Json::Text(command@),
                    "cwd"@ => opt_text_json(cwd.deep_view()),
                    "env"@ => Json::Object(env_json(env@))
                ],
            ),
            ActionKind::ReadFile { path } => Json::Object(
                map!["kind"@ => Json::Text("read_file"@), "path"@ => Json::Text(path@)],
            ),
            ActionKind::WriteFile { path, contents_b64 } => Json::Object(
                map![
                    "kind"@ => Json::Text("write_file"@),
                    "path"@ => Json::Text(path@),
                    "contents_b64"@ => Json::Text(contents_b64@)
                ],
            ),
            ActionKind::DeletePath { path } => Json::Object(
                map!["kind"@ => Json::Text("delete_path"@), "path"@ => Json::Text(path@)],
            ),
            ActionKind::ProcessStart { command, cwd, env, name } => Json::Object(
                map![
                    "kind"@ => Json::Text("process_start"@),
                    "command"@ => Json::Text(command@),
                    "cwd"@ => opt_text_json(cwd.deep_view()),
                    "env"@ => Json::Object(env_json(env@)),
                    "name"@ => opt_text_json(name.deep_view())
                ],
            ),
            ActionKind::ProcessStdin { process, data_b64, close } => Json::Object(
                map![
                    "kind"@ => Json::Text("process_stdin"@),
                    "process"@ => Json::Text(process@),
                    "data_b64"@ => Json::Text(data_b64@),
                    "close"@ => Json::Bool(*close)
                ],
            ),
            ActionKind::ProcessLogs { process, from_offset, max_bytes } => Json::Object(
                map![
                    "kind"@ => Json::Text("process_logs"@),
                    "process"@ => Json::Text(process@),
                    "from_offset"@ => number_json(*from_offset),
                    "max_bytes"@ => opt_number_json(*max_bytes)
                ],
            ),
            ActionKind::ProcessSignal { process, signal } => Json::Object(
                map![
                    "kind"@ => Json::Text("process_signal"@),
                    "process"@ => Json::Text(process@),
                    "signal"@ => Json::Text(signal@)
                ],
            ),
            ActionKind::ProcessStatus { process } => Json::Object(
                map!["kind"@ => Json::Text("process_status"@), "process"@ => Json::Text(process@)],
            ),
            ActionKind::HttpRead { url } => Json::Object(
                map!["kind"@ => Json::Text("http_read"@), "url"@ => Json::Text(url@)],
            ),
            ActionKind::McpInvoke { server, tool, arguments } => Json::Object(
                map![
                    "kind"@ => Json::Text("mcp_invoke"@),
                    "server"@ => Json::Text(server@),
                    "tool"@ => Json::Text(tool@),
                    "arguments"@ => arguments@
                ],
            ),
            ActionKind::ConnectorOp { connector, operation, params } => Json::Object(
                map![
                    "kind"@ => Json::Text("connector_op"@),
                    "connector"@ => Json::Text(connector@),
                    "operation"@ => Json::Text(operation@),
                    "params"@ => params@
                ],
            ),
            ActionKind::TraceQuery { query } => Json::Object(
                map!["kind"@ => Json::Text("trace_query"@), "query"@ => Json::Text(query@)],
            ),
            ActionKind::BranchDiff { since } => Json::Object(
                map!["kind"@ => Json::Text("branch_diff"@), "since"@ => Json::Text(since@)],
            ),
        }
    }

    /// The capability operation this action requires.
    pub fn required_operation(&self) -> (r: Operation)
        ensures
            r@ == self.spec_required_operation(),
    {
        match self {
            ActionKind::Shell { .. } => Operation::new("proc.shell"),
            ActionKind::ReadFile { .. } => Operation::new("fs.read"),
            ActionKind::WriteFile { .. } => Operation::new("fs.write"),
            ActionKind::DeletePath { .. } => Operation::new("fs.delete"),
            ActionKind::ProcessStart { .. } => Operation::new("proc.start"),
            ActionKind::ProcessStdin { .. } => Operation::new("proc.stdin"),
            ActionKind::ProcessLogs { .. } => Operation::new("proc.logs"),
            ActionKind::ProcessSignal { .. } => Operation::new("proc.signal"),
            ActionKind::ProcessStatus { .. } => Operation::new("proc.status"),
            ActionKind::HttpRead { .. } => Operation::new("net.http_read"),
            ActionKind::McpInvoke { .. } => Operation::new("mcp.invoke"),
            ActionKind::ConnectorOp { connector, operation, .. } => Operation(
                text::cat3(connector.as_str(), ".", operation.as_str()),
            ),
            ActionKind::TraceQuery { .. } => Operation::new("trace.query"),
            ActionKind::BranchDiff { .. } => Operation::new("state.diff"),
        }
    }

    /// Canonical parameters used for constraint checking.
    pub fn params(&self) -> (r: Value)
        ensures
            r@ == self.spec_params(),
    {
        match self {
            ActionKind::Shell { command, cwd, .. } => object2(
                "command",
                Value::text(command.as_str()),
                "cwd",
                Value::opt_text(cwd),
            ),
            ActionKind::ReadFile { path } => object1("path", Value::text(path.as_str())),
            ActionKind::DeletePath { path } => object1("path", Value::text(path.as_str())),
            ActionKind::WriteFile { path, .. } => object1("path", Value::text(path.as_str())),
            ActionKind::ProcessStart { command, cwd, .. } => object2(
                "command",
                Value::text(command.as_str()),
                "cwd",
                Value::opt_text(cwd),
            ),
            ActionKind::ProcessStdin { process, .. } => object1(
                "process",
                Value::text(process.as_str()),
            ),
            ActionKind::ProcessLogs { process, .. } => object1(
                "process",
                Value::text(process.as_str()),
            ),
            ActionKind::ProcessStatus { process } => object1(
                "process",
                Value::text(process.as_str()),
            ),
            ActionKind::ProcessSignal { process, signal } => object2(
                "process",
                Value::text(process.as_str()),
                "signal",
                Value::text(signal.as_str()),
            ),
            ActionKind::HttpRead { url } => object1("url", Value::text(url.as_str())),
            ActionKind::McpInvoke { server, tool, arguments } => object3(
                "server",
                Value::text(server.as_str()),
                "tool",
                Value::text(tool.as_str()),
                "arguments",
                arguments.clone(),
            ),
            ActionKind::ConnectorOp { params, .. } => params.clone(),
            ActionKind::TraceQuery { query } => object1("query", Value::text(query.as_str())),
            ActionKind::BranchDiff { since } => object1("since", Value::text(since.as_str())),
        }
    }

    /// The action in JSON.
    pub fn to_value(&self) -> (r: Value)
        ensures
            r@ == self.spec_json(),
    {
        let mut m = JsonMap::new();
        match self {
            ActionKind::Shell { command, cwd, env } => {
                m.insert("kind".to_owned(), Value::text("shell"));
                m.insert("command".to_owned(), Value::text(command.as_str()));
                m.insert("cwd".to_owned(), Value::opt_text(cwd));
                m.insert("env".to_owned(), env_value(env));
            },
            ActionKind::ReadFile { path } => {
                m.insert("kind".to_owned(), Value::text("read_file"));
                m.insert("path".to_owned(), Value::text(path.as_str()));
            },
            ActionKind::WriteFile { path, contents_b64 } => {
                m.insert("kind".to_owned(), Value::text("write_file"));
                m.insert("path".to_owned(), Value::text(path.as_str()));
                m.insert("contents_b64".to_owned(), Value::text(contents_b64.as_str()));
            },
            ActionKind::DeletePath { path } => {
                m.insert("kind".to_owned(), Value::text("delete_path"));
                m.insert("path".to_owned(), Value::text(path.as_str()));
            },
            ActionKind::ProcessStart { command, cwd, env, name } => {
                m.insert("kind".to_owned(), Value::text("process_start"));
                m.insert("command".to_owned(), Value::text(command.as_str()));
                m.insert("cwd".to_owned(), Value::opt_text(cwd));
                m.insert("env".to_owned(), env_value(env));
                m.insert("name".to_owned(), Value::opt_text(name));
            },
            ActionKind::ProcessStdin { process, data_b64, close } => {
                m.insert("kind".to_owned(), Value::text("process_stdin"));
                m.insert("process".to_owned(), Value::text(process.as_str()));
                m.insert("data_b64".to_owned(), Value::text(data_b64.as_str()));
                m.insert("close".to_owned(), Value::Bool(*close));
            },
            ActionKind::ProcessLogs { process, from_offset, max_bytes } => {
                m.insert("kind".to_owned(), Value::text("process_logs"));
                m.insert("process".to_owned(), Value::text(process.as_str()));
                m.insert("from_offset".to_owned(), Value::from_u64(*from_offset));
                m.insert("max_bytes".to_owned(), opt_number(max_bytes));
            },
            ActionKind::ProcessSignal { process, signal } => {
                m.insert("kind".to_owned(), Value::text("process_signal"));
                m.insert("process".to_owned(), Value::text(process.as_str()));
                m.insert("signal".to_owned(), Value::text(signal.as_str()));
            },
            ActionKind::ProcessStatus { process } => {
                m.insert("kind".to_owned(), Value::text("process_status"));
                m.insert("process".to_owned(), Value::text(process.as_str()));
            },
            ActionKind::HttpRead { url } => {
                m.insert("kind".to_owned(), Value::text("http_read"));
                m.insert("url".to_owned(), Value::text(url.as_str()));
            },
            ActionKind::McpInvoke { server, tool, arguments } => {
                m.insert("kind".to_owned(), Value::text("mcp_invoke"));
                m.insert("server".to_owned(), Value::text(server.as_str()));
                m.insert("tool".to_owned(), Value::text(tool.as_str()));
                m.insert("arguments".to_owned(), arguments.clone());
            },
            ActionKind::ConnectorOp { connector, operation, params } => {
                m.insert("kind".to_owned(), Value::text("connector_op"));
                m.insert("connector".to_owned(), Value::text(connector.as_str()));
                m.insert("operation".to_owned(), Value::text(operation.as_str()));
                m.insert("params".to_owned(), params.clone());
            },
            ActionKind::TraceQuery { query } => {
                m.insert("kind".to_owned(), Value::text("trace_query"));
                m.insert("query".to_owned(), Value::text(query.as_str()));
            },
            ActionKind::BranchDiff { since } => {
                m.insert("kind".to_owned(), Value::text("branch_diff"));
                m.insert("since".to_owned(), Value::text(since.as_str()));
            },
        }
        Value::Object(m)
    }
}

fn clone_env(env: &Vec<(String, String)>) -> (r: Vec<(String, String)>)
    ensures
        r@ == env@,
{
    let mut out: Vec<(String, String)> = Vec::new();
    let mut i: usize = 0;
    while i < env.len()
        invariant
            i <= env.len(),
            out@ == env@.take(i as int),
        decreases env.len() - i,
    {
        out.push((env[i].0.clone(), env[i].1.clone()));
        proof {
            assert(env@.take(i + 1) =~= env@.take(i as int).push(env@[i as int]));
        }
        i = i + 1;
    }
    proof {
        assert(env@.take(env@.len() as int) =~= env@);
    }
    out
}

fn clone_text(t: &Option<String>) -> (r: Option<String>)
    ensures
        r == *t,
{
    match t {
        Some(s) => Some(s.clone()),
        None => None,
    }
}

impl Clone for ActionKind {
    fn clone(&self) -> (r: Self)
        ensures
            r.spec_json() == self.spec_json(),
            r.spec_params() == self.spec_params(),
            r.spec_required_operation() == self.spec_required_operation(),
    {
        match self {
            ActionKind::Shell { command, cwd, env } => ActionKind::Shell {
                command: command.clone(),
                cwd: clone_text(cwd),
                env: clone_env(env),
            },
            ActionKind::ReadFile { path } => ActionKind::ReadFile { path: path.clone() },
            ActionKind::WriteFile { path, contents_b64 } => ActionKind::WriteFile {
                path: path.clone(),
                contents_b64: contents_b64.clone(),
            },
            ActionKind::DeletePath { path } => ActionKind::DeletePath { path: path.clone() },
            ActionKind::ProcessStart { command, cwd, env, name } => ActionKind::ProcessStart {
                command: command.clone(),
                cwd: clone_text(cwd),
                env: clone_env(env),
                name: clone_text(name),
            },
            ActionKind::ProcessStdin { process, data_b64, close } => ActionKind::ProcessStdin {
                process: process.clone(),
                data_b64: data_b64.clone(),
                close: *close,
            },
            ActionKind::ProcessLogs { process, from_offset, max_bytes } => {
                ActionKind::ProcessLogs {
                    process: process.clone(),
                    from_offset: *from_offset,
                    max_bytes: *max_bytes,
                }
            },
            ActionKind::ProcessSignal { process, signal } => ActionKind::ProcessSignal {
                process: process.clone(),
                signal: signal.clone(),
            },
            ActionKind::ProcessStatus { process } => ActionKind::ProcessStatus {
                process: process.clone(),
            },
            ActionKind::HttpRead { url } => ActionKind::HttpRead { url: url.clone() },
            ActionKind::McpInvoke { server, tool, arguments } => ActionKind::McpInvoke {
                server: server.clone(),
                tool: tool.clone(),
                arguments: arguments.clone(),
            },
            ActionKind::ConnectorOp { connector, operation, params } => ActionKind::ConnectorOp {
                connector: connector.clone(),
                operation: operation.clone(),
                params: params.clone(),
            },
            ActionKind::TraceQuery { query } => ActionKind::TraceQuery { query: query.clone() },
            ActionKind::BranchDiff { since } => ActionKind::BranchDiff { since: since.clone() },
        }
    }
}

/// A fully-specified execution request from a principal.
#[derive(Debug)]
pub struct Action {
    pub kind: ActionKind,
    /// Lease presented as authority for this action.
    pub lease: LeaseId,
    /// Free-text intent hint. Used only for scheduling (prewarming, backend
    /// selection) and audit narration, never as an authorization input.
    pub intent_hint: Option<String>,
    /// Budget the caller is willing to spend on this action.
    pub budget: ResourceBudget,
}

impl Action {
    /// What the ledger records of an invocation: the action, the intent hint,
    /// the lease and the budget.
    pub open spec fn spec_invocation(&self) -> Map<Seq<char>, Json> {
        map![
            "action"@ => self.kind.spec_json(),
            "intent_hint"@ => opt_text_json(self.intent_hint.deep_view()),
            "lease"@ => Json::Text(self.lease@),
            "budget"@ => budget_json(self.budget)
        ]
    }

    /// What the ledger records of an invocation.
    pub fn invocation(&self) -> (r: JsonMap)
        ensures
            r@ == self.spec_invocation(),
    {
        let mut m = JsonMap::new();
        m.insert("action".to_owned(), self.kind.to_value());
        m.insert("intent_hint".to_owned(), Value::opt_text(&self.intent_hint));
        m.insert("lease".to_owned(), Value::text(self.lease.as_str()));
        m.insert("budget".to_owned(), self.budget.to_value());
        m
    }
}

/// Every kind of action needs a capability of its own; a connector operation needs the
/// one that is named after it.
pub proof fn law_actions_need_their_capability(kind: ActionKind)
    ensures
        kind is Shell ==> kind.spec_required_operation() == "proc.shell"@,
        kind is ReadFile ==> kind.spec_required_operation() == "fs.read"@,
        kind is WriteFile ==> kind.spec_required_operation() == "fs.write"@,
        kind is DeletePath ==> kind.spec_required_operation() == "fs.delete"@,
        kind is ProcessStart ==> kind.spec_required_operation() == "proc.start"@,
        kind is ProcessStdin ==> kind.spec_required_operation() == "proc.stdin"@,
        kind is ProcessLogs ==> kind.spec_required_operation() == "proc.logs"@,
        kind is ProcessSignal ==> kind.spec_required_operation() == "proc.signal"@,
        kind is ProcessStatus ==> kind.spec_required_operation() == "proc.status"@,
        kind is HttpRead ==> kind.spec_required_operation() == "net.http_read"@,
        kind is McpInvoke ==> kind.spec_required_operation() == "mcp.invoke"@,
        kind is TraceQuery ==> kind.spec_required_operation() == "trace.query"@,
        kind is BranchDiff ==> kind.spec_required_operation() == "state.diff"@,
        kind matches ActionKind::ConnectorOp { connector, operation, .. }
            ==> kind.spec_required_operation() == connector@ + "."@ + operation@,
{
}

proof fn lemma_action_keys()
    ensures
        "kind"@ != "command"@ && "kind"@ != "cwd"@ && "kind"@ != "env"@ && "kind"@ != "path"@,
        "kind"@ != "contents_b64"@ && "kind"@ != "name"@ && "kind"@ != "process"@,
        "kind"@ != "data_b64"@ && "kind"@ != "close"@ && "kind"@ != "from_offset"@,
        "kind"@ != "max_bytes"@ && "kind"@ != "signal"@ && "kind"@ != "url"@,
        "kind"@ != "server"@ && "kind"@ != "tool"@ && "kind"@ != "arguments"@,
        "kind"@ != "connector"@ && "kind"@ != "operation"@ && "kind"@ != "params"@,
        "kind"@ != "query"@ && "kind"@ != "since"@,
        "command"@ != "cwd"@ && "command"@ != "env"@ && "command"@ != "name"@ && "cwd"@ != "env"@,
        "cwd"@ != "name"@ && "env"@ != "name"@ && "path"@ != "contents_b64"@,
        "process"@ != "data_b64"@ && "process"@ != "close"@ && "data_b64"@ != "close"@,
        "process"@ != "from_offset"@ && "process"@ != "max_bytes"@ && "from_offset"@
            != "max_bytes"@ && "process"@ != "signal"@,
        "server"@ != "tool"@ && "server"@ != "arguments"@ && "tool"@ != "arguments"@,
        "connector"@ != "operation"@ && "connector"@ != "params"@ && "operation"@ != "params"@,
        "action"@ != "intent_hint"@ && "action"@ != "lease"@ && "action"@ != "budget"@,
        "intent_hint"@ != "lease"@ && "intent_hint"@ != "budget"@ && "lease"@ != "budget"@,
{
    reveal_strlit("kind");
    reveal_strlit("command");
    reveal_strlit("cwd");
    reveal_strlit("env");
    reveal_strlit("path");
    reveal_strlit("contents_b64");
    reveal_strlit("name");
    reveal_strlit("process");
    reveal_strlit("data_b64");
    reveal_strlit("close");
    reveal_strlit("from_offset");
    reveal_strlit("max_bytes");
    reveal_strlit("signal");
    reveal_strlit("url");
    reveal_strlit("server");
    reveal_strlit("tool");
    reveal_strlit("arguments");
    reveal_strlit("connector");
    reveal_strlit("operation");
    reveal_strlit("params");
    reveal_strlit("query");
    reveal_strlit("since");
    reveal_strlit("action");
    reveal_strlit("intent_hint");
    reveal_strlit("lease");
    reveal_strlit("budget");
    assert("kind"@.len() == 4 && "command"@.len() == 7 && "cwd"@.len() == 3 && "env"@.len() == 3);
    assert("path"@.len() == 4 && "contents_b64"@.len() == 12 && "name"@.len() == 4);
    assert("process"@.len() == 7 && "data_b64"@.len() == 8 && "close"@.len() == 5);
    assert("from_offset"@.len() == 11 && "max_bytes"@.len() == 9 && "signal"@.len() == 6);
    assert("url"@.len() == 3 && "server"@.len() == 6 && "tool"@.len() == 4);
    assert("arguments"@.len() == 9 && "connector"@.len() == 9 && "operation"@.len() == 9);
    assert("params"@.len() == 6 && "query"@.len() == 5 && "since"@.len() == 5);
    assert("action"@.len() == 6 && "intent_hint"@.len() == 11 && "lease"@.len() == 5);
    assert("budget"@.len() == 6);
    assert("kind"@[0] == 'k' && "path"@[0] == 'p' && "name"@[0] == 'n' && "tool"@[0] == 't');
    assert("cwd"@[0] == 'c' && "env"@[0] == 'e');
    assert("connector"@[0] == 'c' && "operation"@[0] == 'o');
    assert("action"@[0] == 'a' && "budget"@[0] == 'b');
}

/// What an action is held to are the parameters that say what it touches: the path,
/// the command with its directory, the process, the URL, the tool with its arguments.
pub proof fn law_actions_are_held_to_what_they_touch(kind: ActionKind)
    ensures
        ({
            let p = kind.spec_params();
            &&& kind matches ActionKind::ReadFile { path } ==> member(p, "path"@) == Some(
                Json::Text(path@),
            )
            &&& kind matches ActionKind::WriteFile { path, .. } ==> member(p, "path"@) == Some(
                Json::Text(path@),
            )
            &&& kind matches ActionKind::DeletePath { path } ==> member(p, "path"@) == Some(
                Json::Text(path@),
            )
            &&& kind matches ActionKind::Shell { command, cwd, .. } ==> member(p, "command"@)
                == Some(Json::Text(command@)) && member(p, "cwd"@) == Some(
                opt_text_json(cwd.deep_view()),
            )
            &&& kind matches ActionKind::ProcessStart { command, cwd, .. } ==> member(p, "command"@)
                == Some(Json::Text(command@)) && member(p, "cwd"@) == Some(
                opt_text_json(cwd.deep_view()),
            )
            &&& kind matches ActionKind::ProcessStdin { process, .. } ==> member(p, "process"@)
                == Some(Json::Text(process@))
            &&& kind matches ActionKind::ProcessLogs { process, .. } ==> member(p, "process"@)
                == Some(Json::Text(process@))
            &&& kind matches ActionKind::ProcessStatus { process } ==> member(p, "process"@) == Some(
                Json::Text(process@),
            )
            &&& kind matches ActionKind::ProcessSignal { process, signal } ==> member(p, "process"@)
                == Some(Json::Text(process@)) && member(p, "signal"@) == Some(Json::Text(signal@))
            &&& kind matches ActionKind::HttpRead { url } ==> member(p, "url"@) == Some(
                Json::Text(url@),
            )
            &&& kind matches ActionKind::McpInvoke { server, tool, arguments } ==> member(
                p,
                "server"@,
            ) == Some(Json::Text(server@)) && member(p, "tool"@) == Some(Json::Text(tool@))
                && member(p, "arguments"@) == Some(arguments@)
            &&& kind matches ActionKind::ConnectorOp { params, .. } ==> p == params@
            &&& kind matches ActionKind::TraceQuery { query } ==> member(p, "query"@) == Some(
                Json::Text(query@),
            )
            &&& kind matches ActionKind::BranchDiff { since } ==> member(p, "since"@) == Some(
                Json::Text(since@),
            )
        }),
{
    lemma_action_keys();
}

/// The record of an action leaves nothing out: its kind and every field of it stand
/// in it under their names.
pub proof fn law_every_field_of_an_action_is_recorded(kind: ActionKind)
    ensures
        ({
            let j = kind.spec_json();
            &&& kind matches ActionKind::Shell { command, cwd, env } ==> member(j, "kind"@) == Some(
                Json::Text("shell"@),
            ) && member(j, "command"@) == Some(Json::Text(command@)) && member(j, "cwd"@) == Some(
                opt_text_json(cwd.deep_view()),
            ) && member(j, "env"@) == Some(Json::Object(env_json(env@)))
            &&& kind matches ActionKind::ReadFile { path } ==> member(j, "kind"@) == Some(
                Json::Text("read_file"@),
            ) && member(j, "path"@) == Some(Json::Text(path@))
            &&& kind matches ActionKind::WriteFile { path, contents_b64 } ==> member(j, "kind"@)
                == Some(Json::Text("write_file"@)) && member(j, "path"@) == Some(Json::Text(path@))
                && member(j, "contents_b64"@) == Some(Json::Text(contents_b64@))
            &&& kind matches ActionKind::DeletePath { path } ==> member(j, "kind"@) == Some(
                Json::Text("delete_path"@),
            ) && member(j, "path"@) == Some(Json::Text(path@))
            &&& kind matches ActionKind::ProcessStart { command, cwd, env, name } ==> member(
                j,
                "kind"@,
            ) == Some(Json::Text("process_start"@)) && member(j, "command"@) == Some(
                Json::Text(command@),
            ) && member(j, "cwd"@) == Some(opt_text_json(cwd.deep_view())) && member(j, "env"@)
                == Some(Json::Object(env_json(env@))) && member(j, "name"@) == Some(
                opt_text_json(name.deep_view()),
            )
            &&& kind matches ActionKind::ProcessStdin { process, data_b64, close } ==> member(
                j,
                "kind"@,
            ) == Some(Json::Text("process_stdin"@)) && member(j, "process"@) == Some(
                Json::Text(process@),
            ) && member(j, "data_b64"@) == Some(Json::Text(data_b64@)) && member(j, "close"@)
                == Some(Json::Bool(close))
            &&& kind matches ActionKind::ProcessLogs { process, from_offset, max_bytes } ==> member(
                j,
                "kind"@,
            ) == Some(Json::Text("process_logs"@)) && member(j, "process"@) == Some(
                Json::Text(process@),
            ) && member(j, "from_offset"@) == Some(Json::Number(NumberView::PosInt(from_offset))) && (
            max_bytes matches Some(n) ==> member(j, "max_bytes"@) == Some(
                Json::Number(NumberView::PosInt(n)),
            )) && (max_bytes is None ==> member(j, "max_bytes"@) == Some(Json::Null))
            &&& kind matches ActionKind::ProcessSignal { process, signal } ==> member(j, "kind"@)
                == Some(Json::Text("process_signal"@)) && member(j, "process"@) == Some(
                Json::Text(process@),
            ) && member(j, "signal"@) == Some(Json::Text(signal@))
            &&& kind matches ActionKind::ProcessStatus { process } ==> member(j, "kind"@) == Some(
                Json::Text("process_status"@),
            ) && member(j, "process"@) == Some(Json::Text(process@))
            &&& kind matches ActionKind::HttpRead { url } ==> member(j, "kind"@) == Some(
                Json::Text("http_read"@),
            ) && member(j, "url"@) == Some(Json::Text(url@))
            &&& kind matches ActionKind::McpInvoke { server, tool, arguments } ==> member(j, "kind"@)
                == Some(Json::Text("mcp_invoke"@)) && member(j, "server"@) == Some(
                Json::Text(server@),
            ) && member(j, "tool"@) == Some(Json::Text(tool@)) && member(j, "arguments"@) == Some(
                arguments@,
            )
            &&& kind matches ActionKind::ConnectorOp { connector, operation, params } ==> member(
                j,
                "kind"@,
            ) == Some(Json::Text("connector_op"@)) && member(j, "connector"@) == Some(
                Json::Text(connector@),
            ) && member(j, "operation"@) == Some(Json::Text(operation@)) && member(j, "params"@)
                == Some(params@)
            &&& kind matches ActionKind::TraceQuery { query } ==> member(j, "kind"@) == Some(
                Json::Text("trace_query"@),
            ) && member(j, "query"@) == Some(Json::Text(query@))
            &&& kind matches ActionKind::BranchDiff { since } ==> member(j, "kind"@) == Some(
                Json::Text("branch_diff"@),
            ) && member(j, "since"@) == Some(Json::Text(since@))
        }),
{
    lemma_action_keys();
}

/// The record of an invocation names the action, the intent, the lease and the budget.
pub proof fn law_invocations_are_recorded_in_full(action: Action)
    ensures
        action.spec_invocation().contains_key("action"@) && action.spec_invocation()["action"@]
            == action.kind.spec_json(),
        action.spec_invocation().contains_key("lease"@) && action.spec_invocation()["lease"@]
            == Json::Text(action.lease@),
        action.spec_invocation().contains_key("budget"@) && action.spec_invocation()["budget"@]
            == budget_json(action.budget),
        action.spec_invocation().contains_key("intent_hint"@)
            && action.spec_invocation()["intent_hint"@] == opt_text_json(
            action.intent_hint.deep_view(),
        ),
{
    lemma_action_keys();
}

/// Of two values for one environment variable the later counts, and the others stay.
pub proof fn law_later_variables_count(
    env: Seq<(String, String)>,
    var: (String, String),
    other: Seq<char>,
)
    ensures
        env_json(Seq::empty()).len() == 0,
        env_json(env.push(var)).contains_key(var.0@) && env_json(env.push(var))[var.0@]
            == Json::Text(var.1@),
        other != var.0@ ==> (env_json(env.push(var)).contains_key(other) <==> env_json(
            env,
        ).contains_key(other)),
        other != var.0@ && env_json(env).contains_key(other) ==> env_json(env.push(var))[other]
            == env_json(env)[other],
{
    assert(env.push(var).drop_last() =~= env);
}

} // verus!
