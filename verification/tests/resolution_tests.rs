use ctx_codegraph::model::{
    Language, LanguageObjectKind, Symbol, SymbolId, SymbolKind, SymbolResolution, TextRange,
};
use ctx_codegraph::resolution::{merge_found, resolve_candidates};

fn sym(id: i64, name: &str, qualified: &str) -> Symbol {
    Symbol {
        id: Some(SymbolId(id)),
        file_id: None,
        name: name.to_string(),
        qualified_name: qualified.to_string(),
        kind: SymbolKind::Method,
        language: Language::rust(),
        file: "/w/src/lib.rs".to_string(),
        range: TextRange { start_line: 3, start_col: 5, end_line: 9, end_col: 2 },
        body_range: None,
    }
}

#[test]
fn merged_rows_keep_first_of_each_id() {
    let rows = vec![sym(1, "a", "m::a"), sym(2, "b", "m::b"), sym(1, "a", "m::a"), sym(3, "c", "m::c"), sym(2, "b", "m::b")];
    let merged = merge_found(rows);
    let ids: Vec<Option<SymbolId>> = merged.iter().map(|s| s.id).collect();
    assert_eq!(ids, vec![Some(SymbolId(1)), Some(SymbolId(2)), Some(SymbolId(3))]);
}

#[test]
fn exact_qualified_name_wins() {
    let cs = vec![sym(1, "load", "a::load"), sym(2, "load", "b::load"), sym(3, "a::load", "x::y")];
    match resolve_candidates("a::load", cs) {
        SymbolResolution::Unique(o) => {
            assert_eq!(o.id, SymbolId(1));
            assert_eq!(o.kind, LanguageObjectKind::Method);
            assert_eq!(o.range.start_line, 3);
            assert_eq!(o.range.end_col, 2);
            assert_eq!(o.signature, None);
            assert_eq!(o.language.as_deref(), Some("rust"));
        },
        other => panic!("unexpected {other:?}"),
    }
}

#[test]
fn several_exact_names_are_ambiguous() {
    let cs = vec![sym(1, "load", "a::load"), sym(2, "load", "b::load"), sym(3, "loader", "c::loader")];
    match resolve_candidates("load", cs) {
        SymbolResolution::Ambiguous(v) => {
            let ids: Vec<SymbolId> = v.iter().map(|o| o.id).collect();
            assert_eq!(ids, vec![SymbolId(1), SymbolId(2)]);
        },
        other => panic!("unexpected {other:?}"),
    }
}

#[test]
fn partial_matches_decide_last() {
    let one = vec![sym(4, "loader", "c::loader")];
    assert!(matches!(resolve_candidates("load", one), SymbolResolution::Unique(o) if o.id == SymbolId(4)));
    let two = vec![sym(4, "loader", "c::loader"), sym(5, "unload", "c::unload")];
    assert!(matches!(resolve_candidates("load", two), SymbolResolution::Ambiguous(v) if v.len() == 2));
    assert!(matches!(resolve_candidates("load", vec![]), SymbolResolution::NotFound));
}
