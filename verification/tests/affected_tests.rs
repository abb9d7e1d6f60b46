use ctx_codegraph::affected::{compute_affected_set, occurrences_to_resolve};
use ctx_codegraph::model::{
    EdgeKind, FileId, FileParseStatus, FileSnapshot, Language, Occurrence, OccurrenceId, OccurrenceKind, SymbolId,
    TextRange,
};
use ctx_codegraph::storage::StagedFileUpdate;

fn snapshot(path: &str) -> FileSnapshot {
    FileSnapshot {
        file_id: None,
        rel_path: path.to_string(),
        abs_path: format!("/w/{}", path),
        language: Language::rust(),
        backend_id: "rust-backend".to_string(),
        size_bytes: 10,
        mtime_ms: 1,
        mtime_ns: None,
        content_hash: None,
        parser_id: "tree-sitter-rust".to_string(),
        parser_version: "0.24".to_string(),
        parser_config_hash: "cfg".to_string(),
        indexed_at_ms: None,
        parse_status: FileParseStatus::Success,
    }
}

fn staged(path: &str, previous: Option<i64>) -> StagedFileUpdate {
    StagedFileUpdate {
        snapshot: snapshot(path),
        parse_result: Err("not parsed".to_string()),
        previous_file_id: previous.map(FileId),
    }
}

fn occurrence(id: i64, file: i64) -> Occurrence {
    Occurrence {
        id: Some(OccurrenceId(id)),
        file_id: Some(FileId(file)),
        enclosing_symbol: None,
        enclosing_temp_index: None,
        kind: OccurrenceKind::Call,
        raw_text: "f".to_string(),
        file: "/w/a.rs".to_string(),
        range: TextRange { start_line: 1, start_col: 0, end_line: 1, end_col: 1 },
        language: Language::rust(),
    }
}

#[test]
fn affected_set_follows_deleted_and_rewritten_files() {
    // File 1 was deleted, file 2 rewritten, file 3 is untouched; a deleted path
    // that was never stored contributes nothing.
    let deleted = vec![Some(FileId(1)), None];
    let staged = vec![staged("b.rs", Some(2)), staged("new.rs", None)];
    let symbol_files = vec![
        (SymbolId(10), FileId(1)),
        (SymbolId(20), FileId(2)),
        (SymbolId(30), FileId(3)),
        (SymbolId(21), FileId(2)),
    ];
    let edges = vec![
        (OccurrenceId(100), SymbolId(10)),
        (OccurrenceId(101), SymbolId(30)),
        (OccurrenceId(102), SymbolId(21)),
        (OccurrenceId(100), SymbolId(20)),
    ];
    let resolvers = vec!["rust-analyzer-lsp".to_string(), "noop".to_string()];
    let r = compute_affected_set(&deleted, &staged, &symbol_files, &edges, &resolvers);
    assert_eq!(r.files, vec![FileId(1), FileId(2)]);
    assert_eq!(r.symbols, vec![SymbolId(10), SymbolId(20), SymbolId(21)]);
    assert_eq!(r.occurrences, vec![OccurrenceId(100), OccurrenceId(102)]);
    assert_eq!(r.edge_kinds, vec![EdgeKind::Call]);
    assert_eq!(r.resolvers, vec!["noop".to_string(), "rust-analyzer-lsp".to_string()]);
}

#[test]
fn affected_set_is_empty_without_deletions_or_rewrites() {
    let r = compute_affected_set(
        &vec![None],
        &vec![staged("new.rs", None)],
        &vec![(SymbolId(1), FileId(1))],
        &vec![(OccurrenceId(5), SymbolId(1))],
        &vec![],
    );
    assert!(r.files.is_empty());
    assert!(r.symbols.is_empty());
    assert!(r.occurrences.is_empty());
    assert_eq!(r.resolvers, vec!["noop".to_string()]);
}

#[test]
fn occurrences_in_parsed_files_or_affected_are_resolved_again() {
    let stored = vec![occurrence(1, 7), occurrence(2, 8), occurrence(3, 9), occurrence(4, 7)];
    let r = occurrences_to_resolve(stored, &vec![FileId(7)], &vec![OccurrenceId(3)]);
    let ids: Vec<i64> = r.iter().map(|o| o.id.unwrap().0).collect();
    assert_eq!(ids, vec![1, 3, 4]);
    let none = occurrences_to_resolve(vec![occurrence(1, 7)], &vec![], &vec![]);
    assert!(none.is_empty());
}

#[test]
fn calls_into_a_deleted_file_are_resolved_again() {
    // Occurrence 100 lies in the untouched file 3 and was resolved to symbol 10
    // of the deleted file 1.
    let r = compute_affected_set(
        &vec![Some(FileId(1))],
        &vec![],
        &vec![(SymbolId(10), FileId(1)), (SymbolId(30), FileId(3))],
        &vec![(OccurrenceId(100), SymbolId(10)), (OccurrenceId(101), SymbolId(30))],
        &vec![],
    );
    let stored = vec![occurrence(100, 3), occurrence(101, 3)];
    let again = occurrences_to_resolve(stored, &vec![], &r.occurrences);
    let ids: Vec<i64> = again.iter().map(|o| o.id.unwrap().0).collect();
    assert_eq!(ids, vec![100]);
}
