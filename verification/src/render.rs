//! Plain-text and Markdown renderings of symbols, edges and context packs.
use vstd::prelude::*;
use crate::context::{ContextPack, ContextSection};
use crate::model::{
    CallEdge, LanguageObject, LanguageObjectKind, SourceRange, Symbol, SymbolResolution,
    confidence_name,
};
use crate::paths::{relative_display, relative_path};
use crate::strings::{decimal, extend_str, push_decimal, string_from_chars};

verus! {

pub open spec fn kind_label(kind: LanguageObjectKind) -> Seq<char> {
    match kind {
        LanguageObjectKind::Function => "fn"@,
        LanguageObjectKind::Method => "method"@,
        LanguageObjectKind::Struct => "struct"@,
        LanguageObjectKind::Enum => "enum"@,
        LanguageObjectKind::Trait => "trait"@,
        LanguageObjectKind::Impl => "impl"@,
        LanguageObjectKind::Module => "mod"@,
        LanguageObjectKind::Class => "class"@,
        LanguageObjectKind::Interface => "interface"@,
        LanguageObjectKind::TypeAlias => "type"@,
        LanguageObjectKind::Constant => "const"@,
        LanguageObjectKind::Variable => "var"@,
        LanguageObjectKind::Unknown => "unknown"@,
    }
}

/// The short keyword shown for a kind of object.
pub fn kind_to_str(kind: LanguageObjectKind) -> (s: &'static str)
    ensures
        s@ == kind_label(kind),
{
    match kind {
        LanguageObjectKind::Function => "fn",
        LanguageObjectKind::Method => "method",
        LanguageObjectKind::Struct => "struct",
        LanguageObjectKind::Enum => "enum",
        LanguageObjectKind::Trait => "trait",
        LanguageObjectKind::Impl => "impl",
        LanguageObjectKind::Module => "mod",
        LanguageObjectKind::Class => "class",
        LanguageObjectKind::Interface => "interface",
        LanguageObjectKind::TypeAlias => "type",
        LanguageObjectKind::Constant => "const",
        LanguageObjectKind::Variable => "var",
        LanguageObjectKind::Unknown => "unknown",
    }
}

/// `- <kind> <qualified name> — <relative path>:<start>-<end>`
pub open spec fn symbol_line(obj: LanguageObject, root: Seq<char>) -> Seq<char> {
    "- "@ + kind_label(obj.kind) + " "@ + obj.qualified_name@ + " — "@ + relative_display(
        obj.file_path@,
        root,
    ) + ":"@ + decimal(obj.range.start_line as nat) + "-"@ + decimal(obj.range.end_line as nat)
}

fn push_symbol_line(out: &mut Vec<char>, obj: &LanguageObject, root_path: &str)
    ensures
        final(out)@ == old(out)@ + symbol_line(*obj, root_path@),
{
    let ghost o0 = out@;
    let rel = relative_path(obj.file_path.as_str(), root_path);
    extend_str(out, "- ");
    extend_str(out, kind_to_str(obj.kind));
    extend_str(out, " ");
    extend_str(out, obj.qualified_name.as_str());
    extend_str(out, " — ");
    extend_str(out, rel.as_str());
    extend_str(out, ":");
    push_decimal(out, obj.range.start_line);
    extend_str(out, "-");
    push_decimal(out, obj.range.end_line);
    assert(out@ =~= o0 + symbol_line(*obj, root_path@));
}

/// One line describing a symbol, with its path relative to `root_path` (see `symbol_line`).
pub fn format_symbol_line(obj: &LanguageObject, root_path: &str) -> (s: String)
    ensures
        s@ == symbol_line(*obj, root_path@),
{
    let mut out: Vec<char> = Vec::new();
    push_symbol_line(&mut out, obj, root_path);
    assert(out@ =~= symbol_line(*obj, root_path@));
    string_from_chars(&out)
}

/// `- <kind> <qualified name> in <path>` followed by a newline.
pub open spec fn candidate_line(c: LanguageObject) -> Seq<char> {
    "- "@ + kind_label(c.kind) + " "@ + c.qualified_name@ + " in "@ + c.file_path@ + "\n"@
}

pub open spec fn candidate_lines(cs: Seq<LanguageObject>) -> Seq<char>
    decreases cs.len(),
{
    if cs.len() == 0 {
        Seq::empty()
    } else {
        candidate_lines(cs.drop_last()) + candidate_line(cs.last())
    }
}

pub open spec fn ambiguous_message(query: Seq<char>, cs: Seq<LanguageObject>) -> Seq<char> {
    "Multiple symbols found matching query: '"@ + query + "'. Please be more specific:\n"@
        + candidate_lines(cs)
}

/// The message listing every candidate of an ambiguous query (see `ambiguous_message`).
pub fn format_ambiguous_symbols(query: &str, candidates: &[LanguageObject]) -> (s: String)
    ensures
        s@ == ambiguous_message(query@, candidates@),
{
    let mut out: Vec<char> = Vec::new();
    extend_str(&mut out, "Multiple symbols found matching query: '");
    extend_str(&mut out, query);
    extend_str(&mut out, "'. Please be more specific:\n");
    let ghost head = out@;
    let mut i: usize = 0;
    while i < candidates.len()
        invariant
            i <= candidates.len(),
            out@ == head + candidate_lines(candidates@.subrange(0, i as int)),
        decreases candidates.len() - i,
    {
        let c = &candidates[i];
        let ghost o0 = out@;
        extend_str(&mut out, "- ");
        extend_str(&mut out, kind_to_str(c.kind));
        extend_str(&mut out, " ");
        extend_str(&mut out, c.qualified_name.as_str());
        extend_str(&mut out, " in ");
        extend_str(&mut out, c.file_path.as_str());
        extend_str(&mut out, "\n");
        proof {
            assert(candidates@.subrange(0, i + 1).drop_last() =~= candidates@.subrange(0, i as int));
            assert(out@ =~= o0 + candidate_line(*c));
        }
        i = i + 1;
    }
    assert(candidates@.subrange(0, candidates.len() as int) =~= candidates@);
    assert(out@ =~= ambiguous_message(query@, candidates@));
    string_from_chars(&out)
}

pub open spec fn not_found_message(query: Seq<char>) -> Seq<char> {
    "Error: Symbol not found for query '"@ + query + "'"@
}

pub fn format_symbol_not_found(query: &str) -> (s: String)
    ensures
        s@ == not_found_message(query@),
{
    let mut out: Vec<char> = Vec::new();
    extend_str(&mut out, "Error: Symbol not found for query '");
    extend_str(&mut out, query);
    extend_str(&mut out, "'");
    assert(out@ =~= not_found_message(query@));
    string_from_chars(&out)
}

/// Hands a unique symbol to `on_unique`; lists the candidates of an ambiguous
/// query; reports a query that matched nothing.
pub fn handle_symbol_resolution<F>(query: &str, resolution: SymbolResolution, on_unique: F) -> (r:
    Result<String, String>) where F: FnOnce(LanguageObject) -> Result<String, String>
    requires
        resolution matches SymbolResolution::Unique(obj) ==> call_requires(on_unique, (obj,)),
    ensures
        match resolution {
            SymbolResolution::Unique(obj) => call_ensures(on_unique, (obj,), r),
            SymbolResolution::Ambiguous(cs) => r matches Ok(s) && s@ == ambiguous_message(
                query@,
                cs@,
            ),
            SymbolResolution::NotFound => r matches Ok(s) && s@ == not_found_message(query@),
        },
{
    match resolution {
        SymbolResolution::Unique(obj) => on_unique(obj),
        SymbolResolution::Ambiguous(candidates) => Ok(
            format_ambiguous_symbols(query, candidates.as_slice()),
        ),
        SymbolResolution::NotFound => Ok(format_symbol_not_found(query)),
    }
}

pub open spec fn symbol_lines(syms: Seq<LanguageObject>, root: Seq<char>) -> Seq<char>
    decreases syms.len(),
{
    if syms.len() == 0 {
        Seq::empty()
    } else {
        symbol_lines(syms.drop_last(), root) + symbol_line(syms.last(), root) + "\n"@
    }
}

pub open spec fn symbols_list_text(syms: Seq<LanguageObject>, root: Seq<char>) -> Seq<char> {
    if syms.len() == 0 {
        "# Symbols\n\n"@ + "No symbols found.\n"@
    } else {
        "# Symbols\n\n"@ + symbol_lines(syms, root)
    }
}

/// A Markdown list of symbols, one line each (see `symbols_list_text`).
pub fn render_symbols_list(symbols: &[LanguageObject], root_path: &str) -> (s: String)
    ensures
        s@ == symbols_list_text(symbols@, root_path@),
{
    let mut out: Vec<char> = Vec::new();
    extend_str(&mut out, "# Symbols\n\n");
    if symbols.len() == 0 {
        extend_str(&mut out, "No symbols found.\n");
        assert(out@ =~= symbols_list_text(symbols@, root_path@));
        return string_from_chars(&out);
    }
    let ghost head = out@;
    let mut i: usize = 0;
    while i < symbols.len()
        invariant
            i <= symbols.len(),
            out@ == head + symbol_lines(symbols@.subrange(0, i as int), root_path@),
        decreases symbols.len() - i,
    {
        let ghost o0 = out@;
        push_symbol_line(&mut out, &symbols[i], root_path);
        extend_str(&mut out, "\n");
        proof {
            assert(symbols@.subrange(0, i + 1).drop_last() =~= symbols@.subrange(0, i as int));
            assert(out@ =~= o0 + symbol_line(symbols@[i as int], root_path@) + "\n"@);
        }
        i = i + 1;
    }
    assert(symbols@.subrange(0, symbols.len() as int) =~= symbols@);
    assert(out@ =~= symbols_list_text(symbols@, root_path@));
    string_from_chars(&out)
}

/// `# <title>` and the symbol the relationships belong to.
pub open spec fn edges_header(title: Seq<char>, root: LanguageObject) -> Seq<char> {
    "# "@ + title + "\n\n"@ + "Symbol: "@ + kind_label(root.kind) + " "@ + root.qualified_name@
        + "\n\n"@
}

pub open spec fn target_line(sym: Symbol, conf: Seq<char>, root_path: Seq<char>) -> Seq<char> {
    "- "@ + sym.qualified_name@ + " ("@ + conf + ") at "@ + relative_display(sym.file@, root_path)
        + ":"@ + decimal(sym.range.start_line as nat) + "-"@ + decimal(sym.range.end_line as nat)
        + "\n"@
}

pub open spec fn callee_line(edge: CallEdge, target: Option<Symbol>, root_path: Seq<char>) -> Seq<char> {
    match target {
        Some(sym) => target_line(sym, confidence_name(edge.confidence), root_path),
        None => "- <unresolved> ("@ + confidence_name(edge.confidence) + ") label: "@
            + match edge.raw_text {
            Some(t) => t@,
            None => "<unknown>"@,
        } + "\n"@,
    }
}

pub open spec fn callee_lines(edges: Seq<(CallEdge, Option<Symbol>)>, root_path: Seq<char>) -> Seq<char>
    decreases edges.len(),
{
    if edges.len() == 0 {
        Seq::empty()
    } else {
        callee_lines(edges.drop_last(), root_path) + callee_line(
            edges.last().0,
            edges.last().1,
            root_path,
        )
    }
}

pub open spec fn call_edges_text(
    title: Seq<char>,
    root: LanguageObject,
    edges: Seq<(CallEdge, Option<Symbol>)>,
    root_path: Seq<char>,
) -> Seq<char> {
    if edges.len() == 0 {
        edges_header(title, root) + "No relationships found.\n"@
    } else {
        edges_header(title, root) + callee_lines(edges, root_path)
    }
}

fn push_edges_header(out: &mut Vec<char>, title: &str, root: &LanguageObject)
    ensures
        final(out)@ == old(out)@ + edges_header(title@, *root),
{
    let ghost o0 = out@;
    extend_str(out, "# ");
    extend_str(out, title);
    extend_str(out, "\n\n");
    extend_str(out, "Symbol: ");
    extend_str(out, kind_to_str(root.kind));
    extend_str(out, " ");
    extend_str(out, root.qualified_name.as_str());
    extend_str(out, "\n\n");
    assert(out@ =~= o0 + edges_header(title@, *root));
}

fn push_target_line(out: &mut Vec<char>, sym: &Symbol, conf: &str, root_path: &str)
    ensures
        final(out)@ == old(out)@ + target_line(*sym, conf@, root_path@),
{
    let ghost o0 = out@;
    let rel = relative_path(sym.file.as_str(), root_path);
    extend_str(out, "- ");
    extend_str(out, sym.qualified_name.as_str());
    extend_str(out, " (");
    extend_str(out, conf);
    extend_str(out, ") at ");
    extend_str(out, rel.as_str());
    extend_str(out, ":");
    push_decimal(out, sym.range.start_line);
    extend_str(out, "-");
    push_decimal(out, sym.range.end_line);
    extend_str(out, "\n");
    assert(out@ =~= o0 + target_line(*sym, conf@, root_path@));
}

/// The callees of a symbol: each resolved target with its confidence and location,
/// each unresolved call with its label (see `call_edges_text`).
pub fn render_call_edges(
    title: &str,
    root: &LanguageObject,
    edges: &[(CallEdge, Option<Symbol>)],
    root_path: &str,
) -> (s: String)
    ensures
        s@ == call_edges_text(title@, *root, edges@, root_path@),
{
    let mut out: Vec<char> = Vec::new();
    push_edges_header(&mut out, title, root);
    if edges.len() == 0 {
        extend_str(&mut out, "No relationships found.\n");
        assert(out@ =~= call_edges_text(title@, *root, edges@, root_path@));
        return string_from_chars(&out);
    }
    let ghost head = out@;
    let mut i: usize = 0;
    while i < edges.len()
        invariant
            i <= edges.len(),
            out@ == head + callee_lines(edges@.subrange(0, i as int), root_path@),
        decreases edges.len() - i,
    {
        let (edge, target) = &edges[i];
        let ghost o0 = out@;
        let conf = edge.confidence.as_str();
        match target {
            Some(sym) => {
                push_target_line(&mut out, sym, conf, root_path);
            },
            None => {
                extend_str(&mut out, "- <unresolved> (");
                extend_str(&mut out, conf);
                extend_str(&mut out, ") label: ");
                match &edge.raw_text {
                    Some(t) => extend_str(&mut out, t.as_str()),
                    None => extend_str(&mut out, "<unknown>"),
                }
                extend_str(&mut out, "\n");
            },
        }
        proof {
            assert(edges@.subrange(0, i + 1).drop_last() =~= edges@.subrange(0, i as int));
            assert(out@ =~= o0 + callee_line(edges@[i as int].0, edges@[i as int].1, root_path@));
        }
        i = i + 1;
    }
    assert(edges@.subrange(0, edges.len() as int) =~= edges@);
    assert(out@ =~= call_edges_text(title@, *root, edges@, root_path@));
    string_from_chars(&out)
}

pub open spec fn caller_lines(edges: Seq<(CallEdge, Symbol)>, root_path: Seq<char>) -> Seq<char>
    decreases edges.len(),
{
    if edges.len() == 0 {
        Seq::empty()
    } else {
        caller_lines(edges.drop_last(), root_path) + target_line(
            edges.last().1,
            confidence_name(edges.last().0.confidence),
            root_path,
        )
    }
}

pub open spec fn caller_edges_text(
    title: Seq<char>,
    root: LanguageObject,
    edges: Seq<(CallEdge, Symbol)>,
    root_path: Seq<char>,
) -> Seq<char> {
    if edges.len() == 0 {
        edges_header(title, root) + "No relationships found.\n"@
    } else {
        edges_header(title, root) + caller_lines(edges, root_path)
    }
}

/// The callers of a symbol, each with its confidence and location (see `caller_edges_text`).
pub fn render_caller_edges(
    title: &str,
    root: &LanguageObject,
    edges: &[(CallEdge, Symbol)],
    root_path: &str,
) -> (s: String)
    ensures
        s@ == caller_edges_text(title@, *root, edges@, root_path@),
{
    let mut out: Vec<char> = Vec::new();
    push_edges_header(&mut out, title, root);
    if edges.len() == 0 {
        extend_str(&mut out, "No relationships found.\n");
        assert(out@ =~= caller_edges_text(title@, *root, edges@, root_path@));
        return string_from_chars(&out);
    }
    let ghost head = out@;
    let mut i: usize = 0;
    while i < edges.len()
        invariant
            i <= edges.len(),
            out@ == head + caller_lines(edges@.subrange(0, i as int), root_path@),
        decreases edges.len() - i,
    {
        let (edge, sym) = &edges[i];
        push_target_line(&mut out, sym, edge.confidence.as_str(), root_path);
        proof {
            assert(edges@.subrange(0, i + 1).drop_last() =~= edges@.subrange(0, i as int));
        }
        i = i + 1;
    }
    assert(edges@.subrange(0, edges.len() as int) =~= edges@);
    assert(out@ =~= caller_edges_text(title@, *root, edges@, root_path@));
    string_from_chars(&out)
}

pub open spec fn sections_text(sections: Seq<ContextSection>) -> Seq<char>
    decreases sections.len(),
{
    if sections.len() == 0 {
        Seq::empty()
    } else {
        sections_text(sections.drop_last()) + sections.last().text@
    }
}

/// The text of a context pack: its sections, in order, one after the other.
pub fn render_affected_context_text(pack: &ContextPack) -> (s: String)
    ensures
        s@ == sections_text(pack.sections@),
{
    let mut out: Vec<char> = Vec::new();
    let mut i: usize = 0;
    while i < pack.sections.len()
        invariant
            i <= pack.sections.len(),
            out@ == sections_text(pack.sections@.subrange(0, i as int)),
        decreases pack.sections.len() - i,
    {
        extend_str(&mut out, pack.sections[i].text.as_str());
        proof {
            assert(pack.sections@.subrange(0, i + 1).drop_last() =~= pack.sections@.subrange(0, i as int));
        }
        i = i + 1;
    }
    assert(pack.sections@.subrange(0, pack.sections.len() as int) =~= pack.sections@);
    string_from_chars(&out)
}

} // verus!
