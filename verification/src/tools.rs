//! The decisions of the MCP tools: which tool a call names, how a tool's
//! arguments become a request (with their defaults), and the texts a tool
//! answers with.
use vstd::prelude::*;
use crate::context::{ContextBudget, ContextPackingMode, ContextPack, ContextRetrievalOptions, DepthLimit, RankingMode};
use crate::model::{GraphContextMode, SymbolResolution};
use crate::render::{ambiguous_message, format_ambiguous_symbols, format_symbol_not_found, not_found_message};
use crate::protocol::{DepthArg, depth_from_arg, depth_or_auto, edge_kinds_of, mode_of, parse_edge_kinds, parse_graph_context_mode};
use crate::storage::BuildReport;
use crate::strings::{chars_of, decimal, extend_str, owned, push_decimal, str_eq, string_from_chars};

verus! {

/// The tools the server offers.
#[derive(Debug, Clone, Copy, PartialEq, Eq, Structural)]
pub enum ToolKind {
    AffectedContext,
    GraphContext,
    ProjectContext,
    ListSymbols,
    Callers,
    Callees,
    RebuildIndex,
}

/// The tool a name designates, if any.
pub open spec fn tool_of(name: Seq<char>) -> Option<ToolKind> {
    if name == "get_affected_context"@ {
        Some(ToolKind::AffectedContext)
    } else if name == "get_graph_context"@ {
        Some(ToolKind::GraphContext)
    } else if name == "get_project_context"@ {
        Some(ToolKind::ProjectContext)
    } else if name == "list_symbols"@ {
        Some(ToolKind::ListSymbols)
    } else if name == "get_callers"@ {
        Some(ToolKind::Callers)
    } else if name == "get_callees"@ {
        Some(ToolKind::Callees)
    } else if name == "rebuild_index"@ {
        Some(ToolKind::RebuildIndex)
    } else {
        None
    }
}

/// The tool a call names; an unknown name is refused with "Unknown tool: ".
pub fn tool_kind(name: &str) -> (r: Result<ToolKind, String>)
    ensures
        match tool_of(name@) {
            Some(k) => r == Ok::<ToolKind, String>(k),
            None => r matches Err(m) && m@ == "Unknown tool: "@ + name@,
        },
{
    if str_eq(name, "get_affected_context") {
        Ok(ToolKind::AffectedContext)
    } else if str_eq(name, "get_graph_context") {
        Ok(ToolKind::GraphContext)
    } else if str_eq(name, "get_project_context") {
        Ok(ToolKind::ProjectContext)
    } else if str_eq(name, "list_symbols") {
        Ok(ToolKind::ListSymbols)
    } else if str_eq(name, "get_callers") {
        Ok(ToolKind::Callers)
    } else if str_eq(name, "get_callees") {
        Ok(ToolKind::Callees)
    } else if str_eq(name, "rebuild_index") {
        Ok(ToolKind::RebuildIndex)
    } else {
        let mut m = chars_of("Unknown tool: ");
        extend_str(&mut m, name);
        Err(string_from_chars(&m))
    }
}

/// The arguments of a `get_affected_context` call, as far as they were given.
#[derive(Debug, Clone)]
pub struct AffectedArgs {
    pub query: Option<String>,
    pub mode: Option<String>,
    pub depth: DepthArg,
    pub max_nodes: Option<usize>,
    pub max_files: Option<usize>,
    pub token_budget: Option<usize>,
    pub model_context_window: Option<usize>,
    pub ranking: Option<String>,
    pub packing: Option<String>,
    pub include_tests: Option<bool>,
    pub include_unresolved: Option<bool>,
    pub no_snippets: Option<bool>,
    pub context_lines: Option<usize>,
    pub format: Option<String>,
    pub edge_kind: Vec<String>,
}

/// What a `get_affected_context` call asks for: a refusal, answered as a tool
/// error with its text, or a retrieval with its budget and options, answered as
/// JSON or as text.
#[derive(Debug, Clone)]
pub enum AffectedPlan {
    Refuse(String),
    Run { query: String, budget: ContextBudget, options: ContextRetrievalOptions, json: bool },
}

/// A text argument, or its default.
pub open spec fn text_or(a: Option<String>, d: Seq<char>) -> Seq<char> {
    match a {
        Some(s) => s@,
        None => d,
    }
}

/// A number argument, or its default.
pub open spec fn num_or(a: Option<usize>, d: usize) -> usize {
    match a {
        Some(n) => n,
        None => d,
    }
}

/// A flag argument, or its default.
pub open spec fn flag_or(a: Option<bool>, d: bool) -> bool {
    match a {
        Some(b) => b,
        None => d,
    }
}

/// The ranking a text names; anything else is hybrid.
pub open spec fn ranking_of(s: Seq<char>) -> RankingMode {
    if s == "graph"@ {
        RankingMode::Graph
    } else if s == "lexical"@ {
        RankingMode::Lexical
    } else {
        RankingMode::Hybrid
    }
}

/// The packing a text names; anything else is the sandwich.
pub open spec fn packing_of(s: Seq<char>) -> ContextPackingMode {
    if s == "frontloaded"@ {
        ContextPackingMode::Frontloaded
    } else if s == "balanced"@ {
        ContextPackingMode::Balanced
    } else {
        ContextPackingMode::Sandwich
    }
}

/// The plan of a `get_affected_context` call: a missing or empty query is refused
/// ("query is required"); a `depth` that is neither an integer nor "auto" is an
/// error; a format other than text or json is refused; otherwise the retrieval,
/// with the defaults for what was not given (neighbourhood, 200 nodes, 50 files,
/// a budget of 12000 tokens in a window of 128000 with 1000 reserved for output
/// and 1000 for instructions, hybrid ranking, sandwich packing, snippets with 3
/// lines of context, no tests, no unresolved edges).
pub open spec fn affected_plan_ok(args: AffectedArgs, r: Result<AffectedPlan, String>) -> bool {
    let query = text_or(args.query, Seq::empty());
    let format = text_or(args.format, "text"@);
    if query.len() == 0 {
        r matches Ok(AffectedPlan::Refuse(m)) && m@ == "query is required"@
    } else if depth_from_arg(args.depth) is Err {
        r matches Err(m) && m@ == "depth must be a non-negative integer or \"auto\""@
    } else if format != "text"@ && format != "json"@ {
        r matches Ok(AffectedPlan::Refuse(m)) && m@ == "format must be 'text' or 'json'"@
    } else {
        r matches Ok(AffectedPlan::Run { query: q, budget, options, json }) && {
            &&& q@ == query
            &&& json == (format == "json"@)
            &&& budget == (ContextBudget {
                token_budget: num_or(args.token_budget, 12000),
                model_context_window: Some(num_or(args.model_context_window, 128000)),
                reserve_output_tokens: 1000,
                reserve_instruction_tokens: 1000,
            })
            &&& options.mode == mode_of(text_or(args.mode, "neighborhood"@))
            &&& Ok::<DepthLimit, ()>(options.depth_limit) == depth_from_arg(args.depth)
            &&& options.max_nodes == num_or(args.max_nodes, 200)
            &&& options.max_files == num_or(args.max_files, 50)
            &&& options.ranking_mode == ranking_of(text_or(args.ranking, "hybrid"@))
            &&& options.packing_mode == packing_of(text_or(args.packing, "sandwich"@))
            &&& options.with_snippets == !flag_or(args.no_snippets, false)
            &&& options.context_lines == num_or(args.context_lines, 3)
            &&& options.include_tests == flag_or(args.include_tests, false)
            &&& options.edge_kinds@ == edge_kinds_of(args.edge_kind@.map_values(|s: String| s@))
            &&& options.include_unresolved == flag_or(args.include_unresolved, false)
            &&& !options.explain_ranking
        }
    }
}

fn num_arg(a: Option<usize>, d: usize) -> (r: usize)
    ensures
        r == num_or(a, d),
{
    match a {
        Some(n) => n,
        None => d,
    }
}

fn flag_arg(a: Option<bool>, d: bool) -> (r: bool)
    ensures
        r == flag_or(a, d),
{
    match a {
        Some(b) => b,
        None => d,
    }
}

/// Plans a `get_affected_context` call (see `affected_plan_ok`).
pub fn plan_affected_context(args: &AffectedArgs) -> (r: Result<AffectedPlan, String>)
    ensures
        affected_plan_ok(*args, r),
{
    proof {
        reveal_strlit("");
    }
    let query = match &args.query {
        Some(q) => owned(q.as_str()),
        None => owned(""),
    };
    if query.as_str().unicode_len() == 0 {
        return Ok(AffectedPlan::Refuse(owned("query is required")));
    }
    let depth_limit = match depth_or_auto(&args.depth) {
        Ok(d) => d,
        Err(m) => return Err(m),
    };
    let format = match &args.format {
        Some(f) => owned(f.as_str()),
        None => owned("text"),
    };
    let is_text = str_eq(format.as_str(), "text");
    let is_json = str_eq(format.as_str(), "json");
    if !is_text && !is_json {
        return Ok(AffectedPlan::Refuse(owned("format must be 'text' or 'json'")));
    }
    let mode = match &args.mode {
        Some(m) => parse_graph_context_mode(m.as_str()),
        None => parse_graph_context_mode("neighborhood"),
    };
    let ranking_text = match &args.ranking {
        Some(s) => owned(s.as_str()),
        None => owned("hybrid"),
    };
    let ranking_mode = if str_eq(ranking_text.as_str(), "graph") {
        RankingMode::Graph
    } else if str_eq(ranking_text.as_str(), "lexical") {
        RankingMode::Lexical
    } else {
        RankingMode::Hybrid
    };
    let packing_text = match &args.packing {
        Some(s) => owned(s.as_str()),
        None => owned("sandwich"),
    };
    let packing_mode = if str_eq(packing_text.as_str(), "frontloaded") {
        ContextPackingMode::Frontloaded
    } else if str_eq(packing_text.as_str(), "balanced") {
        ContextPackingMode::Balanced
    } else {
        ContextPackingMode::Sandwich
    };
    let budget = ContextBudget {
        token_budget: num_arg(args.token_budget, 12000),
        model_context_window: Some(num_arg(args.model_context_window, 128000)),
        reserve_output_tokens: 1000,
        reserve_instruction_tokens: 1000,
    };
    let options = ContextRetrievalOptions {
        mode,
        depth_limit,
        max_nodes: num_arg(args.max_nodes, 200),
        max_files: num_arg(args.max_files, 50),
        ranking_mode,
        packing_mode,
        with_snippets: !flag_arg(args.no_snippets, false),
        context_lines: num_arg(args.context_lines, 3),
        include_tests: flag_arg(args.include_tests, false),
        edge_kinds: parse_edge_kinds(args.edge_kind.as_slice()),
        include_unresolved: flag_arg(args.include_unresolved, false),
        explain_ranking: false,
    };
    Ok(AffectedPlan::Run { query, budget, options, json: is_json })
}

/// What a `get_affected_context` call does once its query has been looked up:
/// answer with a text (an error or not), or retrieve the context of a symbol by
/// its qualified name.
#[derive(Debug, Clone)]
pub enum AffectedStep {
    Answer { text: String, is_error: bool },
    Retrieve(String),
}

/// An ambiguous query is answered with the list of its candidates (not an
/// error); a query that names nothing is answered with "Error: Symbol not found"
/// (an error); a query that names one symbol is retrieved by that symbol's
/// qualified name.
pub open spec fn affected_step_ok(query: Seq<char>, resolution: SymbolResolution, r: AffectedStep) -> bool {
    match resolution {
        SymbolResolution::Unique(obj) => r matches AffectedStep::Retrieve(q) && q@ == obj.qualified_name@,
        SymbolResolution::Ambiguous(cs) => r matches AffectedStep::Answer { text, is_error } && text@
            == ambiguous_message(query, cs@) && !is_error,
        SymbolResolution::NotFound => r matches AffectedStep::Answer { text, is_error } && text@
            == not_found_message(query) && is_error,
    }
}

/// The step of a `get_affected_context` call after its query was looked up (see
/// `affected_step_ok`).
pub fn affected_step(query: &str, resolution: SymbolResolution) -> (r: AffectedStep)
    ensures
        affected_step_ok(query@, resolution, r),
{
    match resolution {
        SymbolResolution::Unique(obj) => AffectedStep::Retrieve(obj.qualified_name),
        SymbolResolution::Ambiguous(cs) => AffectedStep::Answer {
            text: format_ambiguous_symbols(query, cs.as_slice()),
            is_error: false,
        },
        SymbolResolution::NotFound => AffectedStep::Answer { text: format_symbol_not_found(query), is_error: true },
    }
}

/// A `get_affected_context` answer is an error when no root was found and the
/// pack reports an error.
pub open spec fn affected_is_error(pack: ContextPack) -> bool {
    pack.roots@.len() == 0 && exists|i: int|
        0 <= i < pack.diagnostics@.len() && (#[trigger] pack.diagnostics@[i]).severity@ == "error"@
}

/// Whether a `get_affected_context` answer is an error (see `affected_is_error`).
pub fn affected_answer_is_error(pack: &ContextPack) -> (r: bool)
    ensures
        r == affected_is_error(*pack),
{
    if pack.roots.len() > 0 {
        return false;
    }
    let mut i: usize = 0;
    while i < pack.diagnostics.len()
        invariant
            i <= pack.diagnostics.len(),
            pack.roots@.len() == 0,
            forall|j: int| 0 <= j < i ==> (#[trigger] pack.diagnostics@[j]).severity@ != "error"@,
        decreases pack.diagnostics.len() - i,
    {
        if str_eq(pack.diagnostics[i].severity.as_str(), "error") {
            assert(pack.diagnostics@[i as int].severity@ == "error"@);
            return true;
        }
        i = i + 1;
    }
    false
}

/// The arguments of a `get_graph_context` call, as far as they were given.
#[derive(Debug, Clone)]
pub struct GraphArgs {
    pub query: Option<String>,
    pub mode: Option<String>,
    pub depth: Option<usize>,
    pub max_nodes: Option<usize>,
    pub max_files: Option<usize>,
}

/// A `get_graph_context` request: query, mode, depth, node and file limits.
pub type GraphRequest = (String, GraphContextMode, usize, usize, usize);

/// Plans a `get_graph_context` call: nothing when the query is missing or empty
/// (answered "query is required"); else the request, defaulting to the
/// neighbourhood at depth 2 with at most 40 nodes and 20 files.
pub fn plan_graph_context(args: &GraphArgs) -> (r: Option<GraphRequest>)
    ensures
        text_or(args.query, Seq::empty()).len() == 0 ==> r is None,
        text_or(args.query, Seq::empty()).len() > 0 ==> (r matches Some(req) && {
            &&& req.0@ == text_or(args.query, Seq::empty())
            &&& req.1 == mode_of(text_or(args.mode, "neighborhood"@))
            &&& req.2 == num_or(args.depth, 2)
            &&& req.3 == num_or(args.max_nodes, 40)
            &&& req.4 == num_or(args.max_files, 20)
        }),
{
    proof {
        reveal_strlit("");
    }
    let query = match &args.query {
        Some(q) => owned(q.as_str()),
        None => owned(""),
    };
    if query.as_str().unicode_len() == 0 {
        return None;
    }
    let mode = match &args.mode {
        Some(m) => parse_graph_context_mode(m.as_str()),
        None => parse_graph_context_mode("neighborhood"),
    };
    Some((query, mode, num_arg(args.depth, 2), num_arg(args.max_nodes, 40), num_arg(args.max_files, 20)))
}

/// The summary a rebuild answers with.
pub open spec fn rebuild_summary_text(r: BuildReport) -> Seq<char> {
    "Index rebuilt successfully.\nFull rebuild: "@ + (if r.full_rebuild {
        "yes"@
    } else {
        "no"@
    }) + "\nFiles: "@ + decimal(r.added_files as nat) + " added, "@ + decimal(r.modified_files as nat)
        + " modified, "@ + decimal(r.deleted_files as nat) + " deleted, "@ + decimal(
        r.unchanged_files as nat,
    ) + " unchanged\nSymbols written: "@ + decimal(r.symbols_written as nat) + ", edges written: "@
        + decimal(r.edges_written as nat)
}

/// The summary of a rebuild (see `rebuild_summary_text`).
pub fn rebuild_summary(r: &BuildReport) -> (s: String)
    ensures
        s@ == rebuild_summary_text(*r),
{
    let mut v = chars_of("Index rebuilt successfully.\nFull rebuild: ");
    if r.full_rebuild {
        extend_str(&mut v, "yes");
    } else {
        extend_str(&mut v, "no");
    }
    extend_str(&mut v, "\nFiles: ");
    push_decimal(&mut v, r.added_files);
    extend_str(&mut v, " added, ");
    push_decimal(&mut v, r.modified_files);
    extend_str(&mut v, " modified, ");
    push_decimal(&mut v, r.deleted_files);
    extend_str(&mut v, " deleted, ");
    push_decimal(&mut v, r.unchanged_files);
    extend_str(&mut v, " unchanged\nSymbols written: ");
    push_decimal(&mut v, r.symbols_written);
    extend_str(&mut v, ", edges written: ");
    push_decimal(&mut v, r.edges_written);
    string_from_chars(&v)
}

} // verus!
