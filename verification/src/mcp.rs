//! The decisions of the MCP server loop: what each incoming line asks for, and
//! what is answered.
//!
//! The caller reads lines, parses them as JSON-RPC requests, performs the
//! actions decided here (loading the workspace, building a context) and writes
//! the replies.
use vstd::prelude::*;
use crate::model::GraphContextMode;
use crate::protocol::{INTERNAL_ERROR, JsonRpcError, METHOD_NOT_FOUND, PARSE_ERROR, SERVER_NOT_INITIALIZED};
use crate::strings::{chars_of, extend_str, str_eq, string_from_chars};
use crate::tools::{ToolKind, tool_kind, tool_of};

verus! {

/// The arguments of a `get_graph_context` tool call, as far as they were given.
#[derive(Debug, Clone)]
pub struct ToolArgs {
    pub query: Option<String>,
    pub mode: Option<String>,
    pub depth: Option<u64>,
}

/// What the server does with a request.
#[derive(Debug, Clone)]
pub enum McpAction {
    /// Nothing: a notification is not answered.
    Ignore,
    /// Load (or build) the graph of the workspace and report the server's capabilities.
    Initialize,
    /// Answer with an empty result: the server is alive.
    Ping,
    /// Answer with the list of tools.
    ListTools,
    /// Build the graph context of a query and answer with its Markdown report.
    GraphContext { query: String, mode: GraphContextMode, depth: usize },
    /// Run another of the server's tools with the call's arguments.
    Tool(ToolKind),
    /// Answer with an error.
    Fail(JsonRpcError),
}

/// The traversal mode named by a tool call; anything else is the neighbourhood.
pub open spec fn tool_mode(s: Seq<char>) -> GraphContextMode {
    if s == "callers"@ {
        GraphContextMode::Callers
    } else if s == "callees"@ {
        GraphContextMode::Callees
    } else if s == "dependencies"@ {
        GraphContextMode::Dependencies
    } else if s == "dependents"@ {
        GraphContextMode::Dependents
    } else if s == "impact"@ {
        GraphContextMode::Impact
    } else {
        GraphContextMode::Neighborhood
    }
}

/// An error answer with the given code and message.
pub open spec fn fails_with(a: McpAction, code: i32, message: Seq<char>) -> bool {
    a matches McpAction::Fail(e) && e.code == code && e.message@ == message
}

/// The action for a request with method `method` (and, for a tool call, the
/// tool's name and arguments), given whether the server was initialized.
pub open spec fn action_ok(
    a: McpAction,
    method: Seq<char>,
    initialized: bool,
    tool: Seq<char>,
    args: ToolArgs,
) -> bool {
    if method == "initialize"@ {
        a is Initialize
    } else if method == "notifications/initialized"@ {
        a is Ignore
    } else if method == "ping"@ {
        a is Ping
    } else if method == "tools/list"@ {
        a is ListTools
    } else if method == "tools/call"@ {
        if tool == "get_graph_context"@ {
            if initialized {
                a matches McpAction::GraphContext { query, mode, depth } && {
                    &&& query@ == (match args.query {
                        Some(q) => q@,
                        None => Seq::empty(),
                    })
                    &&& mode == tool_mode(
                        match args.mode {
                            Some(m) => m@,
                            None => "neighborhood"@,
                        },
                    )
                    &&& depth == (match args.depth {
                        Some(d) => d as usize,
                        None => 2usize,
                    })
                }
            } else {
                fails_with(a, SERVER_NOT_INITIALIZED, "Server not initialized. Call initialize first."@)
            }
        } else if tool_of(tool) is Some {
            if initialized {
                a == McpAction::Tool(tool_of(tool)->0)
            } else {
                fails_with(a, SERVER_NOT_INITIALIZED, "Server not initialized. Call initialize first."@)
            }
        } else {
            fails_with(a, METHOD_NOT_FOUND, "Unknown tool: "@ + tool)
        }
    } else {
        fails_with(a, METHOD_NOT_FOUND, "Method not found: "@ + method)
    }
}

fn fail(code: i32, message: Vec<char>) -> (a: McpAction)
    ensures
        fails_with(a, code, message@),
{
    McpAction::Fail(JsonRpcError { code, message: string_from_chars(&message) })
}

/// The traversal mode named by a tool call (see `tool_mode`).
pub fn tool_call_mode(s: &str) -> (m: GraphContextMode)
    ensures
        m == tool_mode(s@),
{
    if str_eq(s, "callers") {
        GraphContextMode::Callers
    } else if str_eq(s, "callees") {
        GraphContextMode::Callees
    } else if str_eq(s, "dependencies") {
        GraphContextMode::Dependencies
    } else if str_eq(s, "dependents") {
        GraphContextMode::Dependents
    } else if str_eq(s, "impact") {
        GraphContextMode::Impact
    } else {
        GraphContextMode::Neighborhood
    }
}

/// Decides what to do with a request (see `action_ok`); `tool` is the called
/// tool's name, empty when none was given.
pub fn next_action(method: &str, initialized: bool, tool: &str, args: &ToolArgs) -> (a: McpAction)
    ensures
        action_ok(a, method@, initialized, tool@, *args),
{
    if str_eq(method, "initialize") {
        McpAction::Initialize
    } else if str_eq(method, "notifications/initialized") {
        McpAction::Ignore
    } else if str_eq(method, "ping") {
        McpAction::Ping
    } else if str_eq(method, "tools/list") {
        McpAction::ListTools
    } else if str_eq(method, "tools/call") {
        if str_eq(tool, "get_graph_context") {
            if initialized {
                let query = match &args.query {
                    Some(q) => q.clone(),
                    None => String::new(),
                };
                let mode = match &args.mode {
                    Some(m) => tool_call_mode(m.as_str()),
                    None => tool_call_mode("neighborhood"),
                };
                let depth: usize = match args.depth {
                    Some(d) => d as usize,
                    None => 2,
                };
                McpAction::GraphContext { query, mode, depth }
            } else {
                let mut m: Vec<char> = Vec::new();
                extend_str(&mut m, "Server not initialized. Call initialize first.");
                fail(SERVER_NOT_INITIALIZED, m)
            }
        } else {
            match tool_kind(tool) {
                Ok(kind) => {
                    if initialized {
                        McpAction::Tool(kind)
                    } else {
                        let mut m: Vec<char> = Vec::new();
                        extend_str(&mut m, "Server not initialized. Call initialize first.");
                        fail(SERVER_NOT_INITIALIZED, m)
                    }
                },
                Err(_) => {
                    let mut m: Vec<char> = Vec::new();
                    extend_str(&mut m, "Unknown tool: ");
                    extend_str(&mut m, tool);
                    fail(METHOD_NOT_FOUND, m)
                },
            }
        }
    } else {
        let mut m: Vec<char> = Vec::new();
        extend_str(&mut m, "Method not found: ");
        extend_str(&mut m, method);
        fail(METHOD_NOT_FOUND, m)
    }
}

/// The error answered when a line is not a JSON-RPC request; `detail` is the JSON
/// parser's account of the problem.
pub fn parse_error(detail: &str) -> (e: JsonRpcError)
    ensures
        e.code == PARSE_ERROR,
        e.message@ == "Parse error: "@ + detail@,
{
    let mut m: Vec<char> = Vec::new();
    extend_str(&mut m, "Parse error: ");
    extend_str(&mut m, detail);
    JsonRpcError { code: PARSE_ERROR, message: string_from_chars(&m) }
}

/// An internal error: what failed, and why.
pub fn internal_error(what: &str, detail: &str) -> (e: JsonRpcError)
    ensures
        e.code == INTERNAL_ERROR,
        e.message@ == what@ + ": "@ + detail@,
{
    let mut m: Vec<char> = Vec::new();
    extend_str(&mut m, what);
    extend_str(&mut m, ": ");
    extend_str(&mut m, detail);
    JsonRpcError { code: INTERNAL_ERROR, message: string_from_chars(&m) }
}

/// Whether a line read from the client carries a request: blank lines are skipped.
pub fn is_blank_line(line: &str) -> (r: bool)
    ensures
        r == (forall|i: int| 0 <= i < line@.len() ==> crate::unicode::char_is_space(#[trigger] line@[i])),
{
    let v = chars_of(line);
    let mut i: usize = 0;
    while i < v.len()
        invariant
            i <= v.len(),
            v@ == line@,
            forall|k: int| 0 <= k < i ==> crate::unicode::char_is_space(#[trigger] line@[k]),
        decreases v.len() - i,
    {
        if !crate::unicode::is_space(v[i]) {
            return false;
        }
        i = i + 1;
    }
    true
}

} // verus!
