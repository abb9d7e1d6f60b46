use ctx_codegraph::model::{
    CodeIndex, EdgeKind, GraphEdge, LanguageId, ResolutionConfidence, Symbol, SymbolId, SymbolKind,
    TextRange,
};
use ctx_codegraph::slice::{forward_slice, reverse_slice, SliceOptions};

fn make_test_symbol(id: i64, name: &str, kind: SymbolKind) -> Symbol {
    Symbol {
        id: Some(SymbolId(id)),
        file_id: None,
        name: name.to_string(),
        qualified_name: name.to_string(),
        kind,
        language: LanguageId::rust(),
        file: "src/lib.rs".to_string(),
        range: TextRange { start_line: 1, start_col: 1, end_line: 2, end_col: 1 },
        body_range: None,
    }
}

fn make_test_edge(from: i64, to: i64) -> GraphEdge {
    GraphEdge {
        id: None,
        kind: EdgeKind::Call,
        from_file_id: None,
        from_symbol_id: Some(SymbolId(from)),
        to_symbol_id: Some(SymbolId(to)),
        to_external: None,
        occurrence_id: None,
        raw_text: Some("call".to_string()),
        range: Some(TextRange { start_line: 1, start_col: 1, end_line: 1, end_col: 1 }),
        confidence: ResolutionConfidence::Heuristic,
        produced_by: None,
    }
}

fn index_of(symbols: Vec<Symbol>, edges: Vec<GraphEdge>) -> CodeIndex {
    CodeIndex {
        root: ".".to_string(),
        files: vec![],
        symbols,
        occurrences: vec![],
        call_sites: vec![],
        edges,
    }
}

fn opts(max_depth: usize, max_nodes: Option<usize>, include_tests: bool) -> SliceOptions {
    SliceOptions { max_depth, max_nodes, include_tests }
}

#[test]
fn test_forward_slice_chain() {
    let index = index_of(
        vec![
            make_test_symbol(0, "a", SymbolKind::Function),
            make_test_symbol(1, "b", SymbolKind::Function),
            make_test_symbol(2, "c", SymbolKind::Function),
        ],
        vec![make_test_edge(0, 1), make_test_edge(1, 2)],
    );
    let slice = forward_slice(&index, SymbolId(0), opts(10, None, true));
    assert_eq!(slice, vec![SymbolId(0), SymbolId(1), SymbolId(2)]);
}

#[test]
fn test_forward_slice_respects_max_depth() {
    let index = index_of(
        vec![
            make_test_symbol(0, "a", SymbolKind::Function),
            make_test_symbol(1, "b", SymbolKind::Function),
            make_test_symbol(2, "c", SymbolKind::Function),
        ],
        vec![make_test_edge(0, 1), make_test_edge(1, 2)],
    );
    let slice = forward_slice(&index, SymbolId(0), opts(1, None, true));
    assert_eq!(slice, vec![SymbolId(0), SymbolId(1)]);
}

#[test]
fn test_reverse_slice() {
    let index = index_of(
        vec![
            make_test_symbol(0, "a", SymbolKind::Function),
            make_test_symbol(1, "b", SymbolKind::Function),
            make_test_symbol(2, "c", SymbolKind::Function),
        ],
        vec![make_test_edge(0, 2), make_test_edge(1, 2)],
    );
    let slice = reverse_slice(&index, SymbolId(2), opts(10, None, true));
    assert_eq!(slice.len(), 3);
    assert_eq!(slice[0], SymbolId(2));
    assert!(slice.contains(&SymbolId(0)));
    assert!(slice.contains(&SymbolId(1)));
}

#[test]
fn test_handles_cycles() {
    let index = index_of(
        vec![
            make_test_symbol(0, "a", SymbolKind::Function),
            make_test_symbol(1, "b", SymbolKind::Function),
        ],
        vec![make_test_edge(0, 1), make_test_edge(1, 0)],
    );
    let slice = forward_slice(&index, SymbolId(0), opts(10, None, true));
    assert_eq!(slice, vec![SymbolId(0), SymbolId(1)]);
}

#[test]
fn test_can_exclude_tests() {
    let index = index_of(
        vec![
            make_test_symbol(0, "a", SymbolKind::Function),
            make_test_symbol(1, "b_test", SymbolKind::Test),
        ],
        vec![make_test_edge(0, 1)],
    );
    let slice = forward_slice(&index, SymbolId(0), opts(10, None, false));
    assert_eq!(slice, vec![SymbolId(0)]);
}

#[test]
fn test_fixture_graph_and_semantics() {
    let index = index_of(
        vec![
            make_test_symbol(0, "a", SymbolKind::Function),
            make_test_symbol(1, "b", SymbolKind::Function),
            make_test_symbol(2, "c", SymbolKind::Function),
            make_test_symbol(3, "d", SymbolKind::Function),
        ],
        vec![make_test_edge(0, 1), make_test_edge(1, 2), make_test_edge(3, 1)],
    );

    let callees_a: Vec<SymbolId> = index
        .edges
        .iter()
        .filter(|e| e.from_symbol_id == Some(SymbolId(0)))
        .filter_map(|e| e.to_symbol_id)
        .collect();
    assert!(callees_a.contains(&SymbolId(1)));

    let callees_b: Vec<SymbolId> = index
        .edges
        .iter()
        .filter(|e| e.from_symbol_id == Some(SymbolId(1)))
        .filter_map(|e| e.to_symbol_id)
        .collect();
    assert!(callees_b.contains(&SymbolId(2)));

    let callers_b: Vec<SymbolId> = index
        .edges
        .iter()
        .filter(|e| e.to_symbol_id == Some(SymbolId(1)))
        .filter_map(|e| e.from_symbol_id)
        .collect();
    assert!(callers_b.contains(&SymbolId(0)));
    assert!(callers_b.contains(&SymbolId(3)));

    let forward = forward_slice(&index, SymbolId(0), opts(10, None, true));
    assert!(forward.contains(&SymbolId(1)));
    assert!(forward.contains(&SymbolId(2)));

    let reverse = reverse_slice(&index, SymbolId(2), opts(10, None, true));
    assert!(reverse.contains(&SymbolId(1)));
    assert!(reverse.contains(&SymbolId(0)));
    assert!(reverse.contains(&SymbolId(3)));

    let index_cycle = index_of(
        vec![
            make_test_symbol(0, "a", SymbolKind::Function),
            make_test_symbol(1, "b", SymbolKind::Function),
        ],
        vec![make_test_edge(0, 0), make_test_edge(0, 1), make_test_edge(1, 0)],
    );
    let cycle_forward = forward_slice(&index_cycle, SymbolId(0), opts(10, None, true));
    assert_eq!(cycle_forward.len(), 2);

    let depth_forward = forward_slice(&index, SymbolId(0), opts(1, None, true));
    assert!(depth_forward.contains(&SymbolId(1)));
    assert!(!depth_forward.contains(&SymbolId(2)));

    let nodes_forward = forward_slice(&index, SymbolId(0), opts(10, Some(2), true));
    assert_eq!(nodes_forward.len(), 2);
}

#[test]
fn slice_excluded_start_is_empty() {
    let index = index_of(
        vec![make_test_symbol(0, "t", SymbolKind::Test), make_test_symbol(1, "b", SymbolKind::Function)],
        vec![make_test_edge(0, 1)],
    );
    assert!(forward_slice(&index, SymbolId(0), opts(10, None, false)).is_empty());
    assert_eq!(forward_slice(&index, SymbolId(0), opts(10, None, true)), vec![SymbolId(0), SymbolId(1)]);
}

#[test]
fn slice_zero_node_limit_is_empty() {
    let index = index_of(vec![make_test_symbol(0, "a", SymbolKind::Function)], vec![]);
    assert!(forward_slice(&index, SymbolId(0), opts(10, Some(0), true)).is_empty());
}

#[test]
fn slice_depth_zero_holds_only_start() {
    let index = index_of(
        vec![make_test_symbol(0, "a", SymbolKind::Function), make_test_symbol(1, "b", SymbolKind::Function)],
        vec![make_test_edge(0, 1)],
    );
    assert_eq!(forward_slice(&index, SymbolId(0), opts(0, None, true)), vec![SymbolId(0)]);
    assert_eq!(reverse_slice(&index, SymbolId(1), opts(5, None, true)), vec![SymbolId(1), SymbolId(0)]);
}

#[test]
fn slice_layers_follow_discovery_order() {
    // s=0 calls b=2 before a=1 (by edge order); a calls c=3, b calls d=4.
    let symbols = (0..5).map(|i| make_test_symbol(i, &format!("n{}", i), SymbolKind::Function)).collect();
    let index = index_of(
        symbols,
        vec![make_test_edge(1, 3), make_test_edge(0, 2), make_test_edge(0, 1), make_test_edge(2, 4)],
    );
    let ids: Vec<i64> = forward_slice(&index, SymbolId(0), opts(5, None, true)).iter().map(|s| s.0).collect();
    assert_eq!(ids, vec![0, 2, 1, 4, 3]);
    // A node limit keeps the first nodes of that order.
    let cut: Vec<i64> = forward_slice(&index, SymbolId(0), opts(5, Some(3), true)).iter().map(|s| s.0).collect();
    assert_eq!(cut, vec![0, 2, 1]);
}

#[test]
fn forward_and_reverse_slices_agree() {
    let symbols = (0..5).map(|i| make_test_symbol(i, &format!("n{}", i), SymbolKind::Function)).collect();
    let index = index_of(
        symbols,
        vec![make_test_edge(0, 1), make_test_edge(1, 2), make_test_edge(2, 0), make_test_edge(3, 4)],
    );
    for s in 0..5 {
        let fwd = forward_slice(&index, SymbolId(s), opts(2, None, true));
        for t in 0..5 {
            let rev = reverse_slice(&index, SymbolId(t), opts(2, None, true));
            assert_eq!(fwd.contains(&SymbolId(t)), rev.contains(&SymbolId(s)), "s={} t={}", s, t);
        }
    }
}
