use ctx_codegraph::context::{ContextPack, ContextSection, ContextSectionKind};
use ctx_codegraph::markdown::render_context_to_markdown;
use ctx_codegraph::model::{
    ContextFileSpan, EdgeKind, GraphContextEdge, GraphContextMode, GraphContextResult, GraphEdge, Language,
    LanguageObject, LanguageObjectKind, ResolutionConfidence, SourceRange, Symbol, SymbolId, SymbolKind,
    SymbolResolution, TextRange,
};
use ctx_codegraph::render::{
    format_ambiguous_symbols, format_symbol_line, handle_symbol_resolution, render_affected_context_text,
    render_call_edges, render_caller_edges, render_symbols_list,
};

fn object(id: i64, name: &str, qualified: &str, kind: LanguageObjectKind, path: &str, start: usize, end: usize) -> LanguageObject {
    LanguageObject {
        id: SymbolId(id),
        name: name.to_string(),
        qualified_name: qualified.to_string(),
        kind,
        file_path: path.to_string(),
        range: SourceRange { start_line: start, start_col: 0, end_line: end, end_col: 0 },
        signature: None,
        language: Some("rust".to_string()),
    }
}

fn symbol(qualified: &str, path: &str, start: usize, end: usize) -> Symbol {
    Symbol {
        id: Some(SymbolId(7)),
        file_id: None,
        name: qualified.rsplit("::").next().unwrap().to_string(),
        qualified_name: qualified.to_string(),
        kind: SymbolKind::Function,
        language: Language::rust(),
        file: path.to_string(),
        range: TextRange { start_line: start, start_col: 0, end_line: end, end_col: 0 },
        body_range: None,
    }
}

fn edge(confidence: ResolutionConfidence, raw: Option<&str>) -> GraphEdge {
    GraphEdge {
        id: None,
        kind: EdgeKind::Call,
        from_file_id: None,
        from_symbol_id: None,
        to_symbol_id: None,
        to_external: None,
        occurrence_id: None,
        raw_text: raw.map(|r| r.to_string()),
        range: None,
        confidence,
        produced_by: None,
    }
}

#[test]
fn symbol_lines_show_paths_relative_to_the_root() {
    let run = object(1, "run", "crate::run", LanguageObjectKind::Function, "/w/src/lib.rs", 1, 5);
    assert_eq!(format_symbol_line(&run, "/w"), "- fn crate::run — src/lib.rs:1-5");
    assert_eq!(format_symbol_line(&run, "/elsewhere"), "- fn crate::run — /w/src/lib.rs:1-5");
    let list = render_symbols_list(&[run.clone()], "/w");
    assert_eq!(list, "# Symbols\n\n- fn crate::run — src/lib.rs:1-5\n");
    assert_eq!(render_symbols_list(&[], "/w"), "# Symbols\n\nNo symbols found.\n");
}

#[test]
fn resolution_outcomes_are_reported() {
    let a = object(1, "dup", "a::dup", LanguageObjectKind::Function, "/w/a.rs", 1, 2);
    let b = object(2, "Dup", "b::Dup", LanguageObjectKind::Struct, "/w/b.rs", 3, 4);
    let msg = format_ambiguous_symbols("dup", &[a.clone(), b.clone()]);
    assert_eq!(
        msg,
        "Multiple symbols found matching query: 'dup'. Please be more specific:\n- fn a::dup in /w/a.rs\n- struct b::Dup in /w/b.rs\n"
    );
    let unique = handle_symbol_resolution("dup", SymbolResolution::Unique(a), |o| Ok(o.qualified_name));
    assert_eq!(unique, Ok("a::dup".to_string()));
    let none = handle_symbol_resolution("zzz", SymbolResolution::NotFound, |o| Ok(o.name));
    assert_eq!(none, Ok("Error: Symbol not found for query 'zzz'".to_string()));
}

#[test]
fn call_edges_list_targets_and_unresolved_labels() {
    let root = object(1, "run", "crate::run", LanguageObjectKind::Function, "/w/src/lib.rs", 1, 5);
    let edges = vec![
        (edge(ResolutionConfidence::Syntax, Some("helper")), Some(symbol("crate::helper", "/w/src/util.rs", 2, 3))),
        (edge(ResolutionConfidence::Unresolved, Some("println")), None),
        (edge(ResolutionConfidence::Unresolved, None), None),
    ];
    let text = render_call_edges("Callees", &root, &edges, "/w");
    assert_eq!(
        text,
        "# Callees\n\nSymbol: fn crate::run\n\n- crate::helper (Syntax) at src/util.rs:2-3\n- <unresolved> (Unresolved) label: println\n- <unresolved> (Unresolved) label: <unknown>\n"
    );
    let none = render_call_edges("Callees", &root, &[], "/w");
    assert_eq!(none, "# Callees\n\nSymbol: fn crate::run\n\nNo relationships found.\n");
    let callers = vec![(edge(ResolutionConfidence::LspExact, None), symbol("crate::main", "/w/src/main.rs", 10, 12))];
    assert_eq!(
        render_caller_edges("Callers", &root, &callers, "/w"),
        "# Callers\n\nSymbol: fn crate::run\n\n- crate::main (LspExact) at src/main.rs:10-12\n"
    );
}

#[test]
fn affected_context_text_joins_sections() {
    let pack = ContextPack {
        query: "run".to_string(),
        mode: GraphContextMode::Impact,
        token_budget: 100,
        requested_token_budget: None,
        effective_token_budget: None,
        estimated_tokens: 0,
        roots: vec![],
        nodes: vec![],
        edges: vec![],
        snippets: vec![],
        sections: vec![
            ContextSection { kind: ContextSectionKind::Summary, text: "first\n".to_string(), estimated_tokens: 2 },
            ContextSection { kind: ContextSectionKind::Root, text: "second".to_string(), estimated_tokens: 2 },
        ],
        omitted: vec![],
        diagnostics: vec![],
    };
    assert_eq!(render_affected_context_text(&pack), "first\nsecond");
}

#[test]
fn markdown_report_sorts_edges_symbols_and_files() {
    let root = object(1, "run", "crate::run", LanguageObjectKind::Function, "/w/src/lib.rs", 1, 5);
    let helper = object(2, "helper", "crate::helper", LanguageObjectKind::Function, "/w/src/util.rs", 2, 3);
    let result = GraphContextResult {
        root,
        nodes: vec![helper],
        edges: vec![
            GraphContextEdge { from: SymbolId(1), to: SymbolId(2), label: None, confidence: None },
            GraphContextEdge { from: SymbolId(2), to: SymbolId(99), label: None, confidence: None },
        ],
        files: vec![
            ContextFileSpan {
                file_path: "/w/src/util.rs".to_string(),
                range: SourceRange { start_line: 2, start_col: 0, end_line: 3, end_col: 0 },
            },
            ContextFileSpan {
                file_path: "/w/src/lib.rs".to_string(),
                range: SourceRange { start_line: 1, start_col: 0, end_line: 5, end_col: 0 },
            },
        ],
        diagnostics: vec![],
    };
    let contents = vec!["fn helper() {}\n".to_string(), "fn run() {\n    helper();\n}".to_string()];
    let md = render_context_to_markdown(&result, "/w", GraphContextMode::Forward, 2, 10, 1, &contents);
    let expected = "# Graph Context\n\n\
Root: fn run\n\
Path: src/lib.rs:1-5\n\
Mode: Forward\n\
Depth: 2\n\
Max nodes: 10\n\
Max files: 1\n\n\
## Graph\n\n\
crate::helper -> unknown_SymbolId(99)\n\
crate::run -> crate::helper\n\n\
## Included Symbols\n\n\
- fn crate::helper — src/util.rs:2-3\n\
- fn crate::run — src/lib.rs:1-5\n\n\
## Files\n\n\
### src/lib.rs:1-5\n\n\
```rust\n\
fn run() {\n    helper();\n}\n\
```\n\n\
_(1 additional files omitted due to max_files limit)_\n";
    assert_eq!(md, expected);
}
