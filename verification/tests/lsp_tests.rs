use ctx_codegraph::lsp::{definition_request_position, find_matching_symbol, parse_location, resolve_locations};
use ctx_codegraph::model::{CallSite, Language, Symbol, SymbolKind, TextRange};
use ctx_codegraph::storage::index_invariant_violation;

fn range(start_line: usize, end_line: usize) -> TextRange {
    TextRange { start_line, start_col: 1, end_line, end_col: 1 }
}

fn symbol(name: &str, kind: SymbolKind, r: TextRange, body: Option<TextRange>) -> Symbol {
    Symbol {
        id: None,
        file_id: None,
        name: name.to_string(),
        qualified_name: format!("a::{}", name),
        kind,
        language: Language::rust(),
        file: "/w/a.rs".to_string(),
        range: r,
        body_range: body,
    }
}

fn fixture() -> (Vec<Symbol>, Vec<String>) {
    let symbols = vec![
        symbol("Foo", SymbolKind::Impl, range(1, 20), Some(range(1, 20))),
        symbol("foo", SymbolKind::Method, range(3, 8), Some(range(4, 8))),
        symbol("bar", SymbolKind::Function, range(10, 12), None),
    ];
    let canons = vec!["/w/a.rs".to_string(); 3];
    (symbols, canons)
}

#[test]
fn definitions_name_the_innermost_symbol_outside_its_body() {
    let (symbols, canons) = fixture();
    assert_eq!(find_matching_symbol(&symbols, &canons, "/w/a.rs", 3, 5), Some(1));
    // Inside the body of `foo`, and impl blocks never count.
    assert_eq!(find_matching_symbol(&symbols, &canons, "/w/a.rs", 5, 1), None);
    assert_eq!(find_matching_symbol(&symbols, &canons, "/w/b.rs", 3, 5), None);
    assert_eq!(find_matching_symbol(&symbols, &canons, "/w/a.rs", 11, 30), Some(2));
}

#[test]
fn the_first_location_that_names_a_symbol_decides() {
    let (symbols, canons) = fixture();
    let locations = vec![None, Some(("/w/b.rs".to_string(), 3, 5)), Some(("/w/a.rs".to_string(), 10, 1)), Some(("/w/a.rs".to_string(), 3, 1))];
    assert_eq!(resolve_locations(&symbols, &canons, &locations), Some(2));
    assert_eq!(resolve_locations(&symbols, &canons, &vec![None]), None);
}

#[test]
fn server_locations_are_read_as_one_based_file_positions() {
    assert_eq!(parse_location("file:///w/a.rs", 2, 4), Some(("/w/a.rs".to_string(), 3, 5)));
    assert_eq!(parse_location("untitled:buffer", 0, 0), None);
}

#[test]
fn definitions_are_requested_at_the_last_path_segment() {
    let cs = CallSite {
        id: None,
        file_id: None,
        from: None,
        from_temp_index: None,
        raw_name: "Foo::new".to_string(),
        file: "/w/a.rs".to_string(),
        range: TextRange { start_line: 5, start_col: 9, end_line: 5, end_col: 17 },
    };
    assert_eq!(definition_request_position(&cs), (4, 13));
}

#[test]
fn invariant_violations_are_reported_in_order() {
    assert_eq!(index_invariant_violation(0, 0, 0, 0), None);
    assert_eq!(
        index_invariant_violation(0, 2, 1, 0),
        Some("Invariant violation: 2 occurrences with invalid file_id".to_string())
    );
    assert_eq!(
        index_invariant_violation(0, 0, 0, 3),
        Some("Invariant violation: 3 edges pointing to non-existent symbol".to_string())
    );
}
