use ctx_codegraph::context::{ContextBudget, ContextCandidate};
use ctx_codegraph::hybrid::{empty_hits_pack, hits_token_budget, rank_hits, HitGatherer};
use ctx_codegraph::model::{
    EdgeDirection, GraphContextMode, LanguageObject, LanguageObjectKind, SourceRange, SymbolId,
};
use ctx_codegraph::ranking::order_ranked;

fn cand(id: i64, qualified: &str, score: i64) -> ContextCandidate {
    let range = SourceRange { start_line: 1, start_col: 0, end_line: 4, end_col: 0 };
    ContextCandidate {
        node: LanguageObject {
            id: SymbolId(id),
            name: qualified.to_string(),
            qualified_name: qualified.to_string(),
            kind: LanguageObjectKind::Function,
            file_path: "/w/a.rs".to_string(),
            range,
            signature: None,
            language: Some("rust".to_string()),
        },
        distance: 0,
        direction: EdgeDirection::Outbound,
        via_edge: None,
        file_path: "/w/a.rs".to_string(),
        range,
        graph_score: score,
        lexical_score: score,
        combined_score: score,
        estimated_tokens: 5,
        reason: "hybrid hit".to_string(),
    }
}

#[test]
fn gatherer_takes_each_symbol_once() {
    let mut g = HitGatherer::new(2);
    assert!(g.claim(SymbolId(7)));
    assert!(!g.claim(SymbolId(7)));
    assert!(g.claim(SymbolId(8)));
    assert!(g.has_room());
    g.add(cand(7, "a", 1));
    g.add(cand(8, "b", 1));
    assert!(!g.has_room());
    assert_eq!(g.seen, vec![SymbolId(7), SymbolId(8)]);
}

#[test]
fn hits_are_ranked_cut_and_split() {
    let cs = vec![cand(1, "a", 5), cand(2, "b", 9), cand(3, "c", 5), cand(4, "d", 7), cand(5, "e", 1)];
    let (roots, rc, nc) = rank_hits(cs, 4);
    let root_ids: Vec<SymbolId> = roots.iter().map(|o| o.id).collect();
    assert_eq!(root_ids, vec![SymbolId(2), SymbolId(4), SymbolId(1)]);
    let rc_ids: Vec<SymbolId> = rc.iter().map(|c| c.node.id).collect();
    assert_eq!(rc_ids, root_ids);
    let nc_ids: Vec<SymbolId> = nc.iter().map(|c| c.node.id).collect();
    assert_eq!(nc_ids, vec![SymbolId(3)]);
    let (r2, c2, n2) = rank_hits(vec![cand(1, "a", 1), cand(2, "b", 2)], 10);
    assert_eq!(r2.len(), 2);
    assert_eq!(c2[0].node.id, SymbolId(2));
    assert!(n2.is_empty());
}

#[test]
fn hit_budget_is_at_least_one_hundred() {
    let small = ContextBudget { token_budget: 40, model_context_window: None, reserve_output_tokens: 0, reserve_instruction_tokens: 0 };
    assert_eq!(hits_token_budget(&small), 100);
    let capped = ContextBudget { token_budget: 5000, model_context_window: Some(3000), reserve_output_tokens: 1000, reserve_instruction_tokens: 1000 };
    assert_eq!(hits_token_budget(&capped), 1000);
}

#[test]
fn no_hits_give_an_empty_pack_with_a_warning() {
    let p = empty_hits_pack("query", GraphContextMode::Neighborhood, 250);
    assert_eq!(p.query, "query");
    assert_eq!(p.token_budget, 250);
    assert_eq!(p.effective_token_budget, Some(250));
    assert_eq!(p.requested_token_budget, None);
    assert!(p.nodes.is_empty() && p.sections.is_empty());
    assert_eq!(p.diagnostics.len(), 1);
    assert_eq!(p.diagnostics[0].severity, "warning");
    assert_eq!(
        p.diagnostics[0].message,
        "No hybrid search hits; try a different query or rebuild_index with embeddings."
    );
}

#[test]
fn ranked_order_breaks_ties_by_shorter_name() {
    let cs = vec![cand(1, "mod::longer", 3), cand(2, "m::x", 3), cand(3, "z", 8), cand(4, "m::y", 3)];
    let out = order_ranked(cs);
    let ids: Vec<SymbolId> = out.iter().map(|c| c.node.id).collect();
    assert_eq!(ids, vec![SymbolId(3), SymbolId(2), SymbolId(4), SymbolId(1)]);
}
