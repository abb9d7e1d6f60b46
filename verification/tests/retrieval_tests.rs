use ctx_codegraph::context::{ContextBudget, ContextCandidate};
use ctx_codegraph::model::{
    EdgeDirection, GraphContextDiagnostic, GraphContextEdge, EdgeKind, GraphContextMode, GraphEdge, Language, LanguageObject, LanguageObjectKind,
    ResolutionConfidence, ResolvedEdgeTarget, SourceRange, Symbol, SymbolId, SymbolKind, TextRange,
};
use ctx_codegraph::packing::pack_snippets;
use ctx_codegraph::sections::BuiltSections;
use ctx_codegraph::retrieval::{
    assemble_pack, decide_budget, frontier_of, retrieval_diagnostics, split_roots, top_relationships, traverse_directions,
    truncation_diagnostic, unresolved_diagnostic, Traversal, MARGINAL_SCORE_KEY,
};
use ctx_codegraph::roots::select_roots;

fn score_key(score: f32) -> i64 {
    let bits = score.to_bits();
    if bits >> 31 == 0 { bits as i64 } else { -((bits & 0x7fff_ffff) as i64) }
}

fn sym(id: i64, name: &str, qualified: &str, file: &str) -> Symbol {
    Symbol {
        id: Some(SymbolId(id)),
        file_id: None,
        name: name.to_string(),
        qualified_name: qualified.to_string(),
        kind: SymbolKind::Function,
        language: Language::rust(),
        file: file.to_string(),
        range: TextRange { start_line: 1, start_col: 1, end_line: 3, end_col: 1 },
        body_range: None,
    }
}

fn object(id: i64, name: &str) -> LanguageObject {
    LanguageObject {
        id: SymbolId(id),
        name: name.to_string(),
        qualified_name: format!("m::{name}"),
        kind: LanguageObjectKind::Function,
        file_path: "/w/a.rs".to_string(),
        range: SourceRange { start_line: 1, start_col: 1, end_line: 3, end_col: 1 },
        signature: None,
        language: Some("rust".to_string()),
    }
}

fn cand(id: i64, score: f32) -> ContextCandidate {
    let node = object(id, &format!("s{id}"));
    ContextCandidate {
        file_path: node.file_path.clone(),
        range: node.range,
        node,
        distance: 1,
        direction: EdgeDirection::Outbound,
        via_edge: None,
        graph_score: score_key(score),
        lexical_score: score_key(score),
        combined_score: score_key(score),
        estimated_tokens: 10,
        reason: "r".to_string(),
    }
}

fn edge(from: i64, to: i64, confidence: ResolutionConfidence) -> GraphEdge {
    GraphEdge {
        id: None,
        kind: EdgeKind::Call,
        from_file_id: None,
        from_symbol_id: Some(SymbolId(from)),
        to_symbol_id: Some(SymbolId(to)),
        to_external: None,
        occurrence_id: None,
        raw_text: Some("call".to_string()),
        range: None,
        confidence,
        produced_by: None,
    }
}

#[test]
fn marginal_key_is_the_key_of_its_score() {
    assert_eq!(score_key(0.12), MARGINAL_SCORE_KEY);
    assert!(score_key(-1.0) < score_key(0.0) && score_key(0.0) < score_key(0.5));
}

#[test]
fn small_budgets_are_raised_with_a_warning() {
    let b = ContextBudget { token_budget: 40, model_context_window: None, reserve_output_tokens: 0, reserve_instruction_tokens: 0 };
    let d = decide_budget(&b);
    assert_eq!(d.raw_budget, 100);
    assert_eq!(d.requested_token_budget, Some(40));
    assert_eq!(d.effective_token_budget, Some(100));
    let g = d.diagnostic.unwrap();
    assert_eq!(g.severity, "warning");
    assert_eq!(g.message, "Requested token budget 40 is below minimum 100; using 100.");
    let big = ContextBudget { token_budget: 4000, model_context_window: None, reserve_output_tokens: 0, reserve_instruction_tokens: 0 };
    let d2 = decide_budget(&big);
    assert_eq!(d2.raw_budget, 4000);
    assert!(d2.diagnostic.is_none());
}

#[test]
fn roots_prefer_exact_names() {
    let syms = vec![
        sym(1, "load", "mod::load", "/w/src/lib.rs"),
        sym(2, "loader", "mod::loader", "/w/src/lib.rs"),
        sym(3, "load", "tests::load", "/w/tests/t.rs"),
    ];
    let one: Vec<SymbolId> = select_roots(&syms, "load", 1).iter().map(|o| o.id).collect();
    assert_eq!(one, vec![SymbolId(1)]);
    let all: Vec<SymbolId> = select_roots(&syms, "load", 5).iter().map(|o| o.id).collect();
    assert_eq!(all, vec![SymbolId(1), SymbolId(3)]);
    // no exact match: the best candidate alone, shorter names first on ties
    let by_stem: Vec<SymbolId> = select_roots(&syms, "lib", 5).iter().map(|o| o.id).collect();
    assert_eq!(by_stem, vec![SymbolId(1)]);
    assert!(select_roots(&syms, "zzz", 5).is_empty());
    let r = &select_roots(&syms, "mod::loader", 5)[0];
    assert_eq!(r.qualified_name, "mod::loader");
    assert_eq!(r.language.as_deref(), Some("rust"));
}

#[test]
fn directions_follow_the_mode() {
    assert_eq!(traverse_directions(GraphContextMode::Callers, 1), vec![EdgeDirection::Inbound]);
    assert_eq!(
        traverse_directions(GraphContextMode::Neighborhood, 1),
        vec![EdgeDirection::Inbound, EdgeDirection::Outbound]
    );
}

#[test]
fn traversal_reaches_each_symbol_once() {
    let roots = vec![object(1, "root")];
    let mut t = Traversal::start(&roots, 1000);
    assert_eq!(t.visited, vec![SymbolId(1)]);
    assert_eq!(t.candidates.len(), 1);
    let edges = vec![
        (edge(1, 2, ResolutionConfidence::Syntax), ResolvedEdgeTarget::Symbol(sym(2, "a", "m::a", "/w/a.rs"))),
        (edge(1, 2, ResolutionConfidence::Syntax), ResolvedEdgeTarget::Symbol(sym(2, "a", "m::a", "/w/a.rs"))),
        (edge(1, 1, ResolutionConfidence::Syntax), ResolvedEdgeTarget::Symbol(sym(1, "root", "m::root", "/w/a.rs"))),
        (edge(1, 3, ResolutionConfidence::Unresolved), ResolvedEdgeTarget::Symbol(sym(3, "b", "m::b", "/w/a.rs"))),
        (edge(1, 4, ResolutionConfidence::Heuristic), ResolvedEdgeTarget::Missing),
    ];
    let sigs = vec![None, None, None, None, None];
    t.absorb_edges(0, EdgeDirection::Outbound, &edges, &sigs, false);
    assert_eq!(t.visited, vec![SymbolId(1), SymbolId(2)]);
    assert_eq!(t.unresolved_filtered, 1);
    assert!(t.has_next_layer());
    let layer = t.take_next_layer();
    assert_eq!(layer.len(), 1);
    assert_eq!(layer[0].node.id, SymbolId(2));
    assert_eq!(layer[0].distance, 1);
    assert!(!t.has_next_layer());
}

#[test]
fn frontier_drops_marginal_candidates_when_automatic() {
    let ranked = vec![cand(1, 0.5), cand(2, 0.05), cand(3, 0.12)];
    let auto: Vec<SymbolId> = frontier_of(ranked.clone(), true).iter().map(|c| c.node.id).collect();
    assert_eq!(auto, vec![SymbolId(1), SymbolId(3)]);
    let fixed: Vec<SymbolId> = frontier_of(ranked, false).iter().map(|c| c.node.id).collect();
    assert_eq!(fixed, vec![SymbolId(1), SymbolId(2), SymbolId(3)]);
}

#[test]
fn roots_are_split_from_neighbours() {
    let ranked = vec![cand(5, 0.2), cand(1, 0.0), cand(6, 0.9), cand(7, 0.2)];
    let roots = vec![object(1, "root")];
    let (rs, ns) = split_roots(ranked, &roots);
    assert_eq!(rs.len(), 1);
    assert_eq!(rs[0].node.id, SymbolId(1));
    let ids: Vec<SymbolId> = ns.iter().map(|c| c.node.id).collect();
    assert_eq!(ids, vec![SymbolId(6), SymbolId(5), SymbolId(7)]);
}

#[test]
fn relationship_lines_are_sorted_unique_and_capped() {
    let mut lines: Vec<String> = (0..15).map(|i| format!("l{:02}", 14 - i)).collect();
    lines.push("l03".to_string());
    let top = top_relationships(&lines);
    let expected: Vec<String> = (0..10).map(|i| format!("l{:02}", i)).collect();
    assert_eq!(top, expected);
}

#[test]
fn diagnostics_say_what_was_left_out() {
    assert_eq!(
        unresolved_diagnostic(3).message,
        "Filtered 3 unresolved edges because include_unresolved=false."
    );
    let t = truncation_diagnostic(12);
    assert_eq!(t.severity, "warning");
    assert_eq!(t.message, "Context truncated: 12 candidates omitted due to token budget.");
}

#[test]
fn retrieval_diagnostics_come_in_order() {
    let warn = GraphContextDiagnostic { severity: "warning".to_string(), message: "budget".to_string() };
    let all = retrieval_diagnostics(Some(warn), 2, 5);
    let messages: Vec<&str> = all.iter().map(|d| d.message.as_str()).collect();
    assert_eq!(
        messages,
        vec![
            "budget",
            "Filtered 2 unresolved edges because include_unresolved=false.",
            "Context truncated: 5 candidates omitted due to token budget.",
        ]
    );
    assert_eq!(all[1].severity, "info");
    assert!(retrieval_diagnostics(None, 0, 0).is_empty());
    let only = retrieval_diagnostics(None, 0, 1);
    assert_eq!(only.len(), 1);
    assert_eq!(only[0].severity, "warning");
}

#[test]
fn a_pack_holds_roots_first_and_one_edge_per_neighbour() {
    let roots = vec![object(1, "root")];
    let mut root_cand = cand(1, 0.0);
    root_cand.distance = 0;
    let neighbour = |id: i64| {
        let mut c = cand(id, 0.5);
        c.via_edge = Some(GraphContextEdge { from: SymbolId(1), to: SymbolId(id), label: None, confidence: None });
        c
    };
    let neighbours = vec![neighbour(2), neighbour(3), neighbour(4)];
    // The budget takes the root and two neighbours; the node limit leaves out the third.
    let packed = pack_snippets(
        &roots,
        vec![root_cand],
        neighbours,
        vec!["fn root() {}".to_string()],
        vec!["a".to_string(), "b".to_string(), "c".to_string()],
        1000,
        3,
        10,
    );
    let omitted = packed.omitted.len();
    let diagnostics = retrieval_diagnostics(None, 0, omitted);
    let pack = assemble_pack(
        "root",
        GraphContextMode::Callees,
        1000,
        None,
        None,
        roots,
        packed,
        BuiltSections { sections: Vec::new(), total_estimated_tokens: 0 },
        diagnostics,
    );
    let ids: Vec<i64> = pack.nodes.iter().map(|n| n.id.0).collect();
    assert_eq!(ids, vec![1, 2, 3]);
    assert_eq!(pack.snippets.len(), pack.nodes.len());
    for (n, s) in pack.nodes.iter().zip(&pack.snippets) {
        assert_eq!(s.symbol_id, Some(n.id));
    }
    assert_eq!(pack.edges.len(), pack.nodes.len() - 1);
    assert_eq!(pack.nodes.len() + pack.omitted.len(), 4);
    assert_eq!(pack.diagnostics.len(), 1);
    assert_eq!(pack.diagnostics[0].message, "Context truncated: 1 candidates omitted due to token budget.");
}
