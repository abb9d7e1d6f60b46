use ctx_codegraph::model::{LanguageObject, LanguageObjectKind, SourceRange, SymbolId, SymbolResolution};
use ctx_codegraph::tools::{affected_step, AffectedStep};
use ctx_codegraph::context::{ContextPackingMode, DepthLimit, RankingMode};
use ctx_codegraph::model::{EdgeKind, GraphContextMode};
use ctx_codegraph::protocol::DepthArg;
use ctx_codegraph::storage::BuildReport;
use ctx_codegraph::tools::{
    plan_affected_context, plan_graph_context, rebuild_summary, tool_kind, AffectedArgs, AffectedPlan, GraphArgs,
    ToolKind,
};

fn args(query: Option<&str>) -> AffectedArgs {
    AffectedArgs {
        query: query.map(String::from),
        mode: None,
        depth: DepthArg::Absent,
        max_nodes: None,
        max_files: None,
        token_budget: None,
        model_context_window: None,
        ranking: None,
        packing: None,
        include_tests: None,
        include_unresolved: None,
        no_snippets: None,
        context_lines: None,
        format: None,
        edge_kind: vec![],
    }
}

#[test]
fn tool_names_are_dispatched() {
    assert_eq!(tool_kind("get_callers"), Ok(ToolKind::Callers));
    assert_eq!(tool_kind("rebuild_index"), Ok(ToolKind::RebuildIndex));
    assert_eq!(tool_kind("frobnicate"), Err("Unknown tool: frobnicate".to_string()));
}

#[test]
fn affected_context_defaults() {
    match plan_affected_context(&args(Some("run"))).unwrap() {
        AffectedPlan::Run { query, budget, options, json } => {
            assert_eq!(query, "run");
            assert!(!json);
            assert_eq!(budget.token_budget, 12_000);
            assert_eq!(budget.model_context_window, Some(128_000));
            assert_eq!(budget.reserve_output_tokens, 1000);
            assert_eq!(options.mode, GraphContextMode::Neighborhood);
            assert_eq!(options.depth_limit, DepthLimit::Auto);
            assert_eq!(options.max_nodes, 200);
            assert_eq!(options.max_files, 50);
            assert_eq!(options.ranking_mode, RankingMode::Hybrid);
            assert_eq!(options.packing_mode, ContextPackingMode::Sandwich);
            assert!(options.with_snippets);
            assert_eq!(options.context_lines, 3);
            assert!(!options.include_tests && !options.include_unresolved && !options.explain_ranking);
            assert!(options.edge_kinds.is_empty());
        },
        other => panic!("unexpected {other:?}"),
    }
}

#[test]
fn affected_context_arguments_and_refusals() {
    let mut a = args(Some("run"));
    a.depth = DepthArg::Unsigned(4);
    a.ranking = Some("lexical".to_string());
    a.packing = Some("balanced".to_string());
    a.format = Some("json".to_string());
    a.no_snippets = Some(true);
    a.edge_kind = vec!["call".to_string()];
    match plan_affected_context(&a).unwrap() {
        AffectedPlan::Run { options, json, .. } => {
            assert!(json);
            assert_eq!(options.depth_limit, DepthLimit::Fixed(4));
            assert_eq!(options.ranking_mode, RankingMode::Lexical);
            assert_eq!(options.packing_mode, ContextPackingMode::Balanced);
            assert!(!options.with_snippets);
            assert_eq!(options.edge_kinds, vec![EdgeKind::Call]);
        },
        other => panic!("unexpected {other:?}"),
    }
    assert!(matches!(plan_affected_context(&args(None)), Ok(AffectedPlan::Refuse(m)) if m == "query is required"));
    let mut bad_depth = args(Some("run"));
    bad_depth.depth = DepthArg::Text("deep".to_string());
    assert_eq!(
        plan_affected_context(&bad_depth).unwrap_err(),
        "depth must be a non-negative integer or \"auto\""
    );
    let mut bad_format = args(Some("run"));
    bad_format.format = Some("xml".to_string());
    assert!(matches!(
        plan_affected_context(&bad_format),
        Ok(AffectedPlan::Refuse(m)) if m == "format must be 'text' or 'json'"
    ));
}

#[test]
fn graph_context_defaults() {
    let none = GraphArgs { query: Some(String::new()), mode: None, depth: None, max_nodes: None, max_files: None };
    assert!(plan_graph_context(&none).is_none());
    let some = GraphArgs { query: Some("run".to_string()), mode: Some("callees".to_string()), depth: None, max_nodes: Some(9), max_files: None };
    assert_eq!(plan_graph_context(&some), Some(("run".to_string(), GraphContextMode::Callees, 2, 9, 20)));
}

#[test]
fn rebuild_summary_lists_the_counts() {
    let r = BuildReport {
        full_rebuild: false,
        full_rebuild_reason: None,
        added_files: 1,
        modified_files: 2,
        deleted_files: 3,
        unchanged_files: 4,
        parsed_files: 3,
        reused_files: 4,
        symbols_written: 17,
        call_sites_written: 5,
        edges_written: 12,
        lsp_edges_exact: 0,
        syntax_edges: 0,
        heuristic_edges: 0,
        unresolved_edges: 0,
    };
    assert_eq!(
        rebuild_summary(&r),
        "Index rebuilt successfully.\nFull rebuild: no\nFiles: 1 added, 2 modified, 3 deleted, 4 unchanged\nSymbols written: 17, edges written: 12"
    );
}

#[test]
fn looked_up_queries_become_retrievals_or_answers() {
    let obj = LanguageObject {
        id: SymbolId(1),
        name: "run".to_string(),
        qualified_name: "app::run".to_string(),
        kind: LanguageObjectKind::Function,
        file_path: "/w/a.rs".to_string(),
        range: SourceRange { start_line: 1, start_col: 0, end_line: 2, end_col: 0 },
        signature: None,
        language: None,
    };
    match affected_step("run", SymbolResolution::Unique(obj.clone())) {
        AffectedStep::Retrieve(q) => assert_eq!(q, "app::run"),
        other => panic!("unexpected {other:?}"),
    }
    match affected_step("zz", SymbolResolution::NotFound) {
        AffectedStep::Answer { text, is_error } => {
            assert_eq!(text, "Error: Symbol not found for query 'zz'");
            assert!(is_error);
        },
        other => panic!("unexpected {other:?}"),
    }
    match affected_step("run", SymbolResolution::Ambiguous(vec![obj])) {
        AffectedStep::Answer { text, is_error } => {
            assert!(text.starts_with("Multiple symbols found matching query: 'run'"));
            assert!(!is_error);
        },
        other => panic!("unexpected {other:?}"),
    }
}
