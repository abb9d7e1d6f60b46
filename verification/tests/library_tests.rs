use ctx_codegraph::backend::{find_by_path, BackendKind, BackendMetadata, PythonBackend, RustBackend};
use ctx_codegraph::context::ContextBudget;
use ctx_codegraph::index::BuildIndexOptions;
use ctx_codegraph::mcp::{internal_error, is_blank_line, next_action, parse_error, McpAction, ToolArgs};
use ctx_codegraph::model::{
    EdgeKind, FileChangeDetection, GraphContextMode, ResolutionConfidence, SymbolKind, TextRange,
};
use ctx_codegraph::protocol::{parse_edge_kinds, parse_file_uri, parse_graph_context_mode, url_decode};
use ctx_codegraph::lsp::is_inside_range;
use ctx_codegraph::sorting::{order_by_key_desc, sort_dedup, str_less};
use ctx_codegraph::storage::{
    check_db_compatibility, get_index_state, index_metadata, parser_config_hash, IndexDiff, IndexProbe,
    IndexState, RebuildReason, StoredBackends, StoredMetadata,
};
use ctx_codegraph::text::{is_subsequence, tokenize};

#[test]
fn tokenize_splits_camel_case_and_separators() {
    assert_eq!(tokenize("parseRawName"), vec!["parse", "raw", "name", "parserawname"]);
    assert_eq!(tokenize("HTTPServer"), vec!["http", "server", "httpserver"]);
    assert_eq!(tokenize("foo_bar"), vec!["foo", "bar", "foo_bar"]);
    assert_eq!(tokenize("load"), vec!["load"]);
    assert_eq!(tokenize("crate::a b"), vec!["crate", "a", "b", "crate::a b"]);
}

#[test]
fn subsequence_matches_in_order() {
    assert!(is_subsequence("ld", "load"));
    assert!(!is_subsequence("dl", "load"));
    assert!(is_subsequence("", "x"));
    // every text is a subsequence of any text it starts
    assert!(is_subsequence("load", "load"));
    assert!(is_subsequence("load", "loader"));
}

#[test]
fn url_decoding_and_file_uris() {
    assert_eq!(url_decode("a%20b"), "a b");
    assert_eq!(url_decode("100%"), "100%");
    assert_eq!(url_decode("%zz!"), "%zz!");
    assert_eq!(url_decode("%+1x"), "\u{1}x");
    // text without '%' is left as it is
    assert_eq!(url_decode("plain/path.rs"), "plain/path.rs");
    assert_eq!(parse_file_uri("file:///home/me/My%20Proj").as_deref(), Some("/home/me/My Proj"));
    assert_eq!(parse_file_uri("file://host/share/x").as_deref(), Some("/share/x"));
    assert_eq!(parse_file_uri("http://x/y"), None);
}

#[test]
fn modes_and_edge_kinds_are_parsed_loosely() {
    assert_eq!(parse_graph_context_mode("callers"), GraphContextMode::Callers);
    assert_eq!(parse_graph_context_mode("whatever"), GraphContextMode::Neighborhood);
    let kinds = parse_edge_kinds(&["call".to_string(), "TypeUse".to_string(), "bogus".to_string()]);
    assert_eq!(kinds, vec![EdgeKind::Call, EdgeKind::TypeUse]);
}

#[test]
fn kind_names_round_trip() {
    for k in [SymbolKind::Function, SymbolKind::Method, SymbolKind::Test, SymbolKind::Module] {
        assert_eq!(SymbolKind::from_str(k.as_str()), Some(k));
    }
    for c in [ResolutionConfidence::LspExact, ResolutionConfidence::Heuristic, ResolutionConfidence::Unresolved] {
        assert_eq!(ResolutionConfidence::from_str(c.as_str()), Some(c));
    }
    for e in [EdgeKind::Call, EdgeKind::Import, EdgeKind::Contains] {
        assert_eq!(EdgeKind::from_str(e.as_str()), Some(e));
    }
    assert_eq!(SymbolKind::from_str("function"), None);
}

#[test]
fn ranges_contain_positions() {
    let r = TextRange { start_line: 2, start_col: 5, end_line: 4, end_col: 3 };
    assert!(is_inside_range(&r, 3, 1));
    assert!(is_inside_range(&r, 2, 5));
    assert!(!is_inside_range(&r, 2, 4));
    assert!(!is_inside_range(&r, 4, 4));
    assert!(!is_inside_range(&r, 5, 1));
}

#[test]
fn stable_descending_order_by_key() {
    let keys = vec![(3, 0), (9, 4), (3, 0), (9, 2)];
    assert_eq!(order_by_key_desc(&keys), vec![3, 1, 0, 2]);
    let items = vec!["b".to_string(), "a".to_string(), "b".to_string(), "C".to_string()];
    assert_eq!(sort_dedup(&items), vec!["C".to_string(), "a".to_string(), "b".to_string()]);
    assert!(str_less("ab", "b"));
    assert!(!str_less("b", "b"));
}

#[test]
fn backends_are_chosen_by_extension() {
    assert!(matches!(find_by_path("/w/src/lib.rs"), Some(BackendKind::Rust)));
    assert!(matches!(find_by_path("x/y.py"), Some(BackendKind::Python)));
    assert!(find_by_path("notes.txt").is_none());
    let r = RustBackend::new();
    assert_eq!(r.id().0, "rust-backend");
    assert!(r.matches_path("a.rs"));
    assert!(!r.matches_path("a.py"));
    let p = PythonBackend::new();
    assert_eq!(p.id().0, "python-backend");
    assert_eq!(p.display_name(), "Python");
}

#[test]
fn budget_is_capped_by_the_context_window() {
    let b = ContextBudget { token_budget: 12_000, model_context_window: Some(5_000), reserve_output_tokens: 1_000, reserve_instruction_tokens: 1_000 };
    assert_eq!(b.effective_budget(), 3_000);
    let c = ContextBudget { token_budget: 2_000, model_context_window: Some(1_500), reserve_output_tokens: 1_000, reserve_instruction_tokens: 1_000 };
    assert_eq!(c.effective_budget(), 0);
    let d = ContextBudget { token_budget: 700, model_context_window: None, reserve_output_tokens: 1_000, reserve_instruction_tokens: 1_000 };
    assert_eq!(d.effective_budget(), 700);
}

#[test]
fn mcp_requests_become_actions() {
    let none = ToolArgs { query: None, mode: None, depth: None };
    assert!(matches!(next_action("initialize", false, "", &none), McpAction::Initialize));
    assert!(matches!(next_action("tools/list", false, "", &none), McpAction::ListTools));
    assert!(matches!(next_action("notifications/initialized", true, "", &none), McpAction::Ignore));
    assert!(matches!(next_action("ping", false, "", &none), McpAction::Ping));
    assert!(matches!(
        next_action("tools/call", true, "get_callers", &none),
        McpAction::Tool(ctx_codegraph::tools::ToolKind::Callers)
    ));
    assert!(matches!(next_action("tools/call", false, "get_affected_context", &none), McpAction::Fail(_)));
    match next_action("tools/call", false, "get_graph_context", &none) {
        McpAction::Fail(e) => assert_eq!(e.message, "Server not initialized. Call initialize first."),
        other => panic!("unexpected {other:?}"),
    }
    let args = ToolArgs { query: Some("run".to_string()), mode: Some("callers".to_string()), depth: None };
    match next_action("tools/call", true, "get_graph_context", &args) {
        McpAction::GraphContext { query, mode, depth } => {
            assert_eq!(query, "run");
            assert_eq!(mode, GraphContextMode::Callers);
            assert_eq!(depth, 2);
        },
        other => panic!("unexpected {other:?}"),
    }
    match next_action("tools/call", true, "nope", &args) {
        McpAction::Fail(e) => assert_eq!(e.message, "Unknown tool: nope"),
        other => panic!("unexpected {other:?}"),
    }
    match next_action("resources/list", true, "", &none) {
        McpAction::Fail(e) => assert_eq!(e.message, "Method not found: resources/list"),
        other => panic!("unexpected {other:?}"),
    }
    assert_eq!(parse_error("eof").message, "Parse error: eof");
    assert_eq!(internal_error("Failed", "x").message, "Failed: x");
    assert!(is_blank_line("  \t"));
    assert!(!is_blank_line(" a "));
    assert!(is_blank_line("\u{3000}\u{a0}\u{85}\u{2029}"));
    assert!(!is_blank_line("\u{200b}"));
    for c in ['\t', ' ', '\u{1680}', '\u{200a}', '\u{202f}', '\u{205f}', 'x', '\u{180e}', '\u{feff}'] {
        assert_eq!(is_blank_line(&c.to_string()), c.is_whitespace());
    }
}

fn options(use_lsp: bool) -> BuildIndexOptions {
    BuildIndexOptions { use_lsp, max_depth: None, include_tests: true, change_detection: FileChangeDetection::MtimeAndSize }
}

fn backend_meta(id: &str) -> BackendMetadata {
    BackendMetadata {
        backend_id: id.to_string(),
        language: "rust".to_string(),
        parser_id: "p".to_string(),
        parser_version: "1".to_string(),
        resolver_id: None,
        resolver_version: None,
        config_hash: "c".to_string(),
    }
}

fn stored_as_written(opts: &BuildIndexOptions, backends: Vec<BackendMetadata>) -> StoredMetadata {
    let entries = index_metadata(opts);
    let get = |k: &str| entries.iter().find(|e| e.0 == k).map(|e| e.1.clone());
    StoredMetadata {
        table_exists: true,
        schema_version: get("schema_version"),
        indexer_version: get("indexer_version"),
        parser_config_hash: get("parser_config_hash"),
        resolver_id: get("resolver_id"),
        resolver_version: get("resolver_version"),
        resolver_config_hash: get("resolver_config_hash"),
        change_detection_strategy: get("change_detection_strategy"),
        base_index_ready: get("base_index_ready"),
        backends: StoredBackends::Listed(backends),
    }
}

#[test]
fn written_metadata_is_compatible() {
    let opts = options(false);
    let current = vec![backend_meta("rust-backend"), backend_meta("python-backend")];
    let m = stored_as_written(&opts, current.clone());
    assert_eq!(check_db_compatibility(&m, &opts, &current), None);
    // other options are noticed
    let other = options(true);
    assert!(check_db_compatibility(&m, &other, &current).is_some());
    let missing = StoredMetadata { table_exists: false, ..stored_as_written(&opts, current.clone()) };
    assert_eq!(check_db_compatibility(&missing, &opts, &current), Some(RebuildReason::MissingDatabase));
    assert_eq!(
        parser_config_hash(&opts),
        ctx_codegraph::hashing::text_hash("include_tests:true")
    );
}

fn empty_diff() -> IndexDiff {
    IndexDiff { added: vec![], modified: vec![], deleted: vec![], unchanged: vec![] }
}

#[test]
fn index_state_follows_the_probe() {
    let probe = |db_exists, incompat, lsp: Option<&str>| IndexProbe {
        db_exists,
        opened: true,
        foreign_keys_on: true,
        incompatibility: incompat,
        diff: empty_diff(),
        lsp_enrichment: lsp.map(|s| s.to_string()),
    };
    assert!(matches!(
        get_index_state(probe(false, None, None), &options(false)),
        IndexState::NeedsFullRebuild(RebuildReason::MissingDatabase)
    ));
    assert!(matches!(
        get_index_state(probe(true, Some(RebuildReason::SchemaVersionChanged), None), &options(false)),
        IndexState::NeedsFullRebuild(RebuildReason::SchemaVersionChanged)
    ));
    assert!(matches!(get_index_state(probe(true, None, None), &options(false)), IndexState::Ready));
    assert!(matches!(
        get_index_state(probe(true, None, Some("none")), &options(true)),
        IndexState::NeedsIncrementalUpdate(_)
    ));
    assert!(matches!(get_index_state(probe(true, None, Some("complete")), &options(true)), IndexState::Ready));
    let mut changed = probe(true, None, None);
    changed.diff.deleted.push("/w/x.rs".to_string());
    assert!(matches!(get_index_state(changed, &options(false)), IndexState::NeedsIncrementalUpdate(_)));
}

#[test]
fn flipping_tests_or_rebuilding_again() {
    let opts = options(true);
    let current = vec![backend_meta("rust-backend")];
    let m = stored_as_written(&opts, current.clone());
    let flipped = BuildIndexOptions { include_tests: false, ..opts };
    assert_eq!(check_db_compatibility(&m, &flipped, &current), Some(RebuildReason::ParserConfigChanged));
    // A rebuild right after a rebuild: compatible, nothing changed, enrichment as written.
    let probe = IndexProbe {
        db_exists: true,
        opened: true,
        foreign_keys_on: true,
        incompatibility: check_db_compatibility(&m, &opts, &current),
        diff: empty_diff(),
        lsp_enrichment: Some("complete".to_string()),
    };
    assert!(matches!(get_index_state(probe, &opts), IndexState::Ready));
}
