use ctx_codegraph::diff::{compute_index_diff, file_record, DiskFile};
use ctx_codegraph::backend::ParserId;
use ctx_codegraph::index::BuildIndexOptions;
use ctx_codegraph::model::{
    CallSite, EdgeKind, FileChangeDetection, FileId, FileParseStatus, FileSnapshot, GraphEdge, Language, OccurrenceId,
    ResolutionConfidence, Symbol, SymbolId, SymbolKind, TextRange,
};
use ctx_codegraph::store_rows::{edge_rows, site_rows, symbol_rows, EdgeRowIds};
use ctx_codegraph::storage::{saved_id, stored_file_id};

fn snapshot(rel: &str, mtime: i64, size: u64) -> FileSnapshot {
    FileSnapshot {
        file_id: None,
        rel_path: rel.to_string(),
        abs_path: format!("/w/{}", rel),
        language: Language::rust(),
        backend_id: "rust-backend".to_string(),
        size_bytes: size,
        mtime_ms: mtime,
        mtime_ns: None,
        content_hash: Some("h".to_string()),
        parser_id: "tree-sitter-rust".to_string(),
        parser_version: "0.24".to_string(),
        parser_config_hash: "cfg".to_string(),
        indexed_at_ms: None,
        parse_status: FileParseStatus::Success,
    }
}

#[test]
fn file_records_keep_what_the_build_saw() {
    let s = snapshot("src/a.rs", 7, 9);
    let (path, r) = file_record(&s);
    assert_eq!(path, "/w/src/a.rs");
    assert_eq!(r.rel_path, "src/a.rs");
    assert_eq!((r.mtime_ms, r.size_bytes), (7, 9));
    assert_eq!(r.content_hash.as_deref(), Some("h"));
    assert_eq!(r.parse_status, FileParseStatus::Success);
}

#[test]
fn a_rebuild_right_after_a_rebuild_finds_nothing_changed() {
    let snaps = vec![snapshot("a.rs", 5, 3), snapshot("b.rs", 6, 4)];
    let records: Vec<_> = snaps.iter().map(file_record).collect();
    let disk = |p: &str, m: i64, s: u64| DiskFile {
        path: p.to_string(),
        size_bytes: Some(s),
        mtime_ms: Some(m),
        contents: Some(b"x".to_vec()),
        parser_id: ParserId("tree-sitter-rust".to_string()),
        parser_version: "0.24".to_string(),
    };
    let options = BuildIndexOptions {
        use_lsp: false,
        max_depth: None,
        include_tests: true,
        change_detection: FileChangeDetection::MtimeAndSize,
    };
    let d = compute_index_diff("/w", &options, &vec![disk("/w/a.rs", 5, 3), disk("/w/b.rs", 6, 4)], &records);
    assert!(d.added.is_empty() && d.modified.is_empty() && d.deleted.is_empty());
    assert_eq!(d.unchanged.len(), 2);
}

#[test]
fn symbols_find_their_files_by_absolute_then_relative_path() {
    let files = vec![snapshot("a.rs", 1, 1), snapshot("b.rs", 1, 1), snapshot("a.rs", 2, 2)];
    let ids = vec![10, 20, 30];
    // The last file with that absolute path.
    assert_eq!(stored_file_id(&files, &ids, "/w/a.rs"), Some(30));
    // Else the first whose relative path it is.
    assert_eq!(stored_file_id(&files, &ids, "b.rs"), Some(20));
    assert_eq!(stored_file_id(&files, &ids, "c.rs"), None);
}

#[test]
fn positions_map_to_saved_ids() {
    let ids = vec![100, 200];
    assert_eq!(saved_id(None, &ids, "Enclosing symbol"), Ok(None));
    assert_eq!(saved_id(Some(1), &ids, "Enclosing symbol"), Ok(Some(200)));
    assert_eq!(
        saved_id(Some(SymbolId(5).0), &ids, "Edge target symbol"),
        Err("Edge target symbol not saved to DB".to_string())
    );
}

fn range() -> TextRange {
    TextRange { start_line: 1, start_col: 0, end_line: 1, end_col: 5 }
}

fn symbol(file: &str) -> Symbol {
    Symbol {
        id: None,
        file_id: None,
        name: "f".to_string(),
        qualified_name: "f".to_string(),
        kind: SymbolKind::Function,
        language: Language::rust(),
        file: file.to_string(),
        range: range(),
        body_range: None,
    }
}

fn site(file: &str, from: Option<i64>) -> CallSite {
    CallSite {
        id: None,
        file_id: None,
        from: from.map(SymbolId),
        from_temp_index: None,
        raw_name: "g".to_string(),
        file: file.to_string(),
        range: range(),
    }
}

fn edge(from: Option<i64>, to: Option<i64>, occurrence: Option<i64>, from_file: Option<i64>) -> GraphEdge {
    GraphEdge {
        id: None,
        kind: EdgeKind::Call,
        from_file_id: from_file.map(FileId),
        from_symbol_id: from.map(SymbolId),
        to_symbol_id: to.map(SymbolId),
        to_external: None,
        occurrence_id: occurrence.map(OccurrenceId),
        raw_text: None,
        range: None,
        confidence: ResolutionConfidence::Syntax,
        produced_by: None,
    }
}

#[test]
fn symbol_rows_name_their_files_or_the_first_missing_one() {
    let files = vec![snapshot("a.rs", 1, 1), snapshot("b.rs", 1, 1)];
    let ids = vec![10, 20];
    assert_eq!(symbol_rows(&files, &ids, &vec![symbol("/w/b.rs"), symbol("a.rs")]), Ok(vec![20, 10]));
    assert_eq!(
        symbol_rows(&files, &ids, &vec![symbol("a.rs"), symbol("x.rs"), symbol("y.rs")]),
        Err("File not found for symbol: x.rs".to_string())
    );
}

#[test]
fn call_site_rows_name_their_file_and_enclosing_symbol() {
    let files = vec![snapshot("a.rs", 1, 1)];
    let ids = vec![10];
    let symbol_ids = vec![100, 200];
    assert_eq!(
        site_rows(&files, &ids, &symbol_ids, &vec![site("a.rs", Some(1)), site("a.rs", None)]),
        Ok(vec![(10, Some(200)), (10, None)])
    );
    assert_eq!(
        site_rows(&files, &ids, &symbol_ids, &vec![site("a.rs", Some(2))]),
        Err("Enclosing symbol not saved to DB".to_string())
    );
    assert_eq!(
        site_rows(&files, &ids, &symbol_ids, &vec![site("z.rs", Some(2))]),
        Err("File not found for occurrence: z.rs".to_string())
    );
}

#[test]
fn edge_rows_take_their_file_from_the_occurrence() {
    let symbol_ids = vec![100, 200];
    let occurrence_ids = vec![7];
    let occurrence_files = vec![10];
    assert_eq!(
        edge_rows(&symbol_ids, &occurrence_ids, &occurrence_files, &vec![
            edge(Some(0), Some(1), Some(0), Some(99)),
            edge(Some(1), None, None, Some(99)),
        ]),
        Ok(vec![
            EdgeRowIds { from_file: Some(10), from_symbol: Some(100), to_symbol: Some(200), occurrence: Some(7) },
            EdgeRowIds { from_file: Some(99), from_symbol: Some(200), to_symbol: None, occurrence: None },
        ])
    );
    assert_eq!(
        edge_rows(&symbol_ids, &occurrence_ids, &occurrence_files, &vec![edge(Some(5), Some(9), None, None)]),
        Err("Edge source symbol not saved to DB".to_string())
    );
    assert_eq!(
        edge_rows(&symbol_ids, &occurrence_ids, &occurrence_files, &vec![edge(None, Some(9), None, None)]),
        Err("Edge target symbol not saved to DB".to_string())
    );
    assert_eq!(
        edge_rows(&symbol_ids, &occurrence_ids, &occurrence_files, &vec![edge(None, None, Some(3), None)]),
        Err("Edge occurrence not saved to DB".to_string())
    );
}
