use ctx_codegraph::context::{
    ContextBudget, ContextCandidate, ContextPackingMode, ContextSectionKind, ContextSnippet,
    OmittedContext,
};
use ctx_codegraph::model::{
    EdgeDirection, GraphContextMode, LanguageObject, LanguageObjectKind, SourceRange, SymbolId,
};
use ctx_codegraph::sections::build_context_sections;

/// Scores are carried as integer keys that order as the scores do.
fn score_key(score: f32) -> i64 {
    let bits = score.to_bits();
    if bits >> 31 == 0 { bits as i64 } else { -((bits & 0x7fff_ffff) as i64) }
}

fn range_1_5() -> SourceRange {
    SourceRange { start_line: 1, start_col: 1, end_line: 5, end_col: 1 }
}

fn make_candidate(id: i64, name: &str, file_path: &str, score: f32) -> (ContextCandidate, ContextSnippet) {
    let cand = ContextCandidate {
        node: LanguageObject {
            id: SymbolId(id),
            name: name.to_string(),
            qualified_name: format!("mod::{name}"),
            kind: LanguageObjectKind::Function,
            file_path: file_path.to_string(),
            range: range_1_5(),
            signature: None,
            language: Some("rust".to_string()),
        },
        distance: 1,
        direction: EdgeDirection::Outbound,
        via_edge: None,
        file_path: file_path.to_string(),
        range: range_1_5(),
        graph_score: score_key(score),
        lexical_score: score_key(score),
        combined_score: score_key(score),
        estimated_tokens: 10,
        reason: "test".to_string(),
    };
    let snippet = ContextSnippet {
        file_path: file_path.to_string(),
        range: cand.range,
        symbol_id: Some(cand.node.id),
        text: format!("// snippet for {name}\n"),
        estimated_tokens: 10,
        relevance: score_key(score),
        reason: "test".to_string(),
    };
    (cand, snippet)
}

fn make_roots() -> Vec<LanguageObject> {
    vec![LanguageObject {
        id: SymbolId(0),
        name: "root".to_string(),
        qualified_name: "mod::root".to_string(),
        kind: LanguageObjectKind::Function,
        file_path: "/proj/src/root.rs".to_string(),
        range: range_1_5(),
        signature: None,
        language: Some("rust".to_string()),
    }]
}

fn budget(tokens: usize) -> ContextBudget {
    ContextBudget {
        token_budget: tokens,
        model_context_window: None,
        reserve_output_tokens: 0,
        reserve_instruction_tokens: 0,
    }
}

#[test]
fn build_context_sections_frontloaded_orders_by_score() {
    let high = make_candidate(1, "high", "/proj/src/a.rs", 9.0);
    let low = make_candidate(2, "low", "/proj/src/b.rs", 1.0);
    let included = vec![low.clone(), high.clone()];

    let built = build_context_sections(
        "test query",
        GraphContextMode::Neighborhood,
        &budget(1000),
        &make_roots(),
        &included,
        &[],
        &[],
        ContextPackingMode::Frontloaded,
    );

    let snippets_section =
        built.sections.iter().find(|s| s.kind == ContextSectionKind::Snippets).unwrap();
    let high_pos = snippets_section.text.find("snippet for high").unwrap();
    let low_pos = snippets_section.text.find("snippet for low").unwrap();
    assert!(high_pos < low_pos);
}

#[test]
fn build_context_sections_balanced_orders_by_file_path() {
    let z = make_candidate(1, "z_fn", "/proj/src/z.rs", 5.0);
    let a = make_candidate(2, "a_fn", "/proj/src/a.rs", 5.0);
    let included = vec![z.clone(), a.clone()];

    let built = build_context_sections(
        "test query",
        GraphContextMode::Neighborhood,
        &budget(1000),
        &make_roots(),
        &included,
        &[],
        &[],
        ContextPackingMode::Balanced,
    );

    let snippets_section =
        built.sections.iter().find(|s| s.kind == ContextSectionKind::Snippets).unwrap();
    let a_pos = snippets_section.text.find("snippet for a_fn").unwrap();
    let z_pos = snippets_section.text.find("snippet for z_fn").unwrap();
    assert!(a_pos < z_pos);
}

#[test]
fn build_context_sections_includes_omitted_diagnostics() {
    let included = vec![make_candidate(1, "only", "/proj/src/only.rs", 1.0)];
    let omitted = vec![OmittedContext {
        name: "dropped".to_string(),
        qualified_name: "mod::dropped".to_string(),
        file_path: "/proj/src/dropped.rs".to_string(),
        score: score_key(0.5),
        reason: "Truncated: token budget exceeded".to_string(),
    }];

    let built = build_context_sections(
        "test query",
        GraphContextMode::Neighborhood,
        &budget(100),
        &make_roots(),
        &included,
        &omitted,
        &[],
        ContextPackingMode::Sandwich,
    );

    let end_section =
        built.sections.iter().find(|s| s.kind == ContextSectionKind::OmittedSummary).unwrap();
    assert!(end_section.text.contains("Context truncated: 1 candidates omitted"));
    assert!(built.total_estimated_tokens > 0);
}

#[test]
fn sections_summary_and_files_are_exact() {
    let a = make_candidate(1, "a_fn", "/proj/src/b.rs", 2.0);
    let b = make_candidate(2, "b_fn", "/proj/src/a.rs", 3.0);
    let c = make_candidate(3, "c_fn", "/proj/src/b.rs", 1.0);
    let included = vec![a, b, c];
    let rels = vec!["root -> a_fn".to_string()];
    let built = build_context_sections(
        "q",
        GraphContextMode::Callers,
        &budget(500),
        &make_roots(),
        &included,
        &[],
        &rels,
        ContextPackingMode::Sandwich,
    );
    assert_eq!(built.sections.len(), 6);
    assert!(ctx_codegraph::sections::sections_fit(
        "q",
        GraphContextMode::Callers,
        &budget(500),
        &make_roots(),
        &included,
        &[],
        &rels
    ));
    assert_eq!(
        built.sections[0].text,
        "Query: q\nMode: Callers\nToken budget: 500\nEstimated tokens: 30\nRoots: 1\n\n"
    );
    assert_eq!(built.sections[1].text, "Root\n  mod::root\n  /proj/src/root.rs:1-5\n\n");
    assert_eq!(built.sections[2].text, "Top relationships\nroot -> a_fn\n\n");
    assert_eq!(
        built.sections[3].text,
        "Files to read\n  1. /proj/src/a.rs\n  2. /proj/src/b.rs\n\n"
    );
    assert_eq!(
        built.sections[5].text,
        "Most important context recap\n  1. Start with mod::b_fn\n  2. Then read mod::a_fn\n  3. Then inspect mod::c_fn\n\n"
    );
    let expected_total: usize = 30
        + built.sections[0].estimated_tokens
        + built.sections[1].estimated_tokens
        + built.sections[2].estimated_tokens
        + built.sections[3].estimated_tokens
        + built.sections[5].estimated_tokens;
    assert_eq!(built.total_estimated_tokens, expected_total);
    // the summary text has 72 characters: 18 tokens
    assert_eq!(built.sections[0].estimated_tokens, 18);
}

#[test]
fn sections_empty_pack_has_no_recap() {
    let built = build_context_sections(
        "q",
        GraphContextMode::Impact,
        &budget(10),
        &[],
        &[],
        &[],
        &[],
        ContextPackingMode::Frontloaded,
    );
    assert_eq!(built.sections[1].text, "");
    assert_eq!(built.sections[2].text, "");
    assert_eq!(built.sections[3].text, "Files to read\n\n");
    assert_eq!(built.sections[4].text, "Context\n");
    assert_eq!(built.sections[5].text, "");
    assert_eq!(built.sections[5].estimated_tokens, 0);
}

#[test]
fn sections_snippet_text_gets_line_break() {
    let mut only = make_candidate(1, "f", "/p/x.rs", 1.0);
    only.1.text = "body".to_string();
    let built = build_context_sections(
        "q",
        GraphContextMode::Neighborhood,
        &budget(10),
        &[],
        &[only],
        &[],
        &[],
        ContextPackingMode::Sandwich,
    );
    assert_eq!(built.sections[4].text, "Context\n  --- /p/x.rs:1-5 mod::f\nbody\n\n");
}
