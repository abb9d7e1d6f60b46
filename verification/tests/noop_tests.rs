use ctx_codegraph::model::{Language, ResolutionConfidence, Symbol, SymbolKind, TextRange};
use ctx_codegraph::noop::{parse_raw_name, resolve_name_only};

fn make_test_symbol(name: &str, kind: SymbolKind) -> Symbol {
    Symbol {
        id: None,
        file_id: None,
        name: name.to_string(),
        qualified_name: format!("mod::{}", name),
        kind,
        language: Language::rust(),
        file: "src/lib.rs".to_string(),
        range: TextRange { start_line: 1, start_col: 1, end_line: 2, end_col: 1 },
        body_range: None,
    }
}

#[test]
fn test_resolves_unique_function_by_name() {
    let symbols = vec![
        make_test_symbol("run_pipeline", SymbolKind::Function),
        make_test_symbol("load", SymbolKind::Function),
    ];
    let (res_idx, res_conf) = resolve_name_only("load", &symbols, "src/lib.rs");
    assert_eq!(res_idx, Some(1));
    assert_eq!(res_conf, ResolutionConfidence::Syntax);

    let (res_idx_h, res_conf_h) = resolve_name_only("load", &symbols, "src/other.rs");
    assert_eq!(res_idx_h, Some(1));
    assert_eq!(res_conf_h, ResolutionConfidence::Heuristic);
}

#[test]
fn test_resolves_unique_associated_path_by_suffix() {
    let symbols = vec![
        make_test_symbol("run_pipeline", SymbolKind::Function),
        make_test_symbol("load", SymbolKind::Function),
    ];
    let (res_idx, res_conf) = resolve_name_only("crate::pipeline::load", &symbols, "src/lib.rs");
    assert_eq!(res_idx, Some(1));
    assert_eq!(res_conf, ResolutionConfidence::Syntax);
}

#[test]
fn test_resolves_method_like_call_by_last_segment() {
    let symbols = vec![
        make_test_symbol("run", SymbolKind::Method),
        make_test_symbol("load", SymbolKind::Method),
    ];
    let (res_idx, res_conf) = resolve_name_only("self.load", &symbols, "src/lib.rs");
    assert_eq!(res_idx, Some(1));
    assert_eq!(res_conf, ResolutionConfidence::Syntax);

    let (res_idx_2, res_conf_2) = resolve_name_only("pipeline.load", &symbols, "src/lib.rs");
    assert_eq!(res_idx_2, Some(1));
    assert_eq!(res_conf_2, ResolutionConfidence::Syntax);
}

#[test]
fn test_ambiguous_symbol() {
    let symbols = vec![
        make_test_symbol("load", SymbolKind::Function),
        make_test_symbol("load", SymbolKind::Method),
    ];
    let (res_idx, res_conf) = resolve_name_only("load", &symbols, "src/lib.rs");
    assert_eq!(res_idx, None);
    assert_eq!(res_conf, ResolutionConfidence::Unresolved);
}

#[test]
fn test_unresolved_symbol() {
    let symbols = vec![make_test_symbol("load", SymbolKind::Function)];
    let (res_idx, res_conf) = resolve_name_only("missing", &symbols, "src/lib.rs");
    assert_eq!(res_idx, None);
    assert_eq!(res_conf, ResolutionConfidence::Unresolved);
}

#[test]
fn parse_raw_name_takes_last_segment() {
    assert_eq!(parse_raw_name("crate::pipeline::load"), "load");
    assert_eq!(parse_raw_name("self.load"), "load");
    assert_eq!(parse_raw_name("a.b::c"), "c");
    assert_eq!(parse_raw_name("a:::b"), "b");
    assert_eq!(parse_raw_name("plain"), "plain");
    assert_eq!(parse_raw_name("ends::"), "");
}

#[test]
fn method_call_only_matches_methods() {
    let symbols = vec![make_test_symbol("load", SymbolKind::Function)];
    let (idx, conf) = resolve_name_only("self.load", &symbols, "src/lib.rs");
    assert_eq!(idx, None);
    assert_eq!(conf, ResolutionConfidence::Unresolved);
}

#[test]
fn same_file_is_compared_as_path() {
    let symbols = vec![make_test_symbol("load", SymbolKind::Test)];
    let (idx, conf) = resolve_name_only("load", &symbols, "src//lib.rs");
    assert_eq!(idx, Some(0));
    assert_eq!(conf, ResolutionConfidence::Syntax);
}
