use ctx_codegraph::backend::{ParserId, RustBackend};
use ctx_codegraph::diff::DiskFile;
use ctx_codegraph::index::BuildIndexOptions;
use ctx_codegraph::model::{CodeIndex, FileChangeDetection, FileParseStatus, FileSnapshot, Language};
use ctx_codegraph::storage::{
    check_db_compatibility, get_index_state, rebuild_index_db, IndexState, RebuildPlan, RebuildReason,
    StoredBackends,
};
use ctx_codegraph::stored_index::{full_rebuild_rows, lookup_row, read_probe, stored_metadata_of, StoredIndex};

fn options(include_tests: bool) -> BuildIndexOptions {
    BuildIndexOptions { use_lsp: false, max_depth: None, include_tests, change_detection: FileChangeDetection::MtimeAndSize }
}

fn snapshot(rel: &str, mtime: i64, size: u64) -> FileSnapshot {
    FileSnapshot {
        file_id: None,
        rel_path: rel.to_string(),
        abs_path: format!("/w/{}", rel),
        language: Language::rust(),
        backend_id: "rust-backend".to_string(),
        size_bytes: size,
        mtime_ms: mtime,
        mtime_ns: None,
        content_hash: None,
        parser_id: "tree-sitter-rust".to_string(),
        parser_version: "0.24".to_string(),
        parser_config_hash: "cfg".to_string(),
        indexed_at_ms: None,
        parse_status: FileParseStatus::Success,
    }
}

fn disk(path: &str, mtime: i64, size: u64) -> DiskFile {
    DiskFile {
        path: path.to_string(),
        size_bytes: Some(size),
        mtime_ms: Some(mtime),
        contents: Some(b"fn a() {}".to_vec()),
        parser_id: ParserId("tree-sitter-rust".to_string()),
        parser_version: "0.24".to_string(),
    }
}

fn index() -> CodeIndex {
    CodeIndex {
        root: "/w".to_string(),
        files: vec![snapshot("a.rs", 5, 3), snapshot("b.rs", 6, 4)],
        symbols: Vec::new(),
        occurrences: Vec::new(),
        call_sites: Vec::new(),
        edges: Vec::new(),
    }
}

fn backends(o: &BuildIndexOptions) -> Vec<ctx_codegraph::backend::BackendMetadata> {
    vec![RustBackend::new().metadata(o, &ParserId("tree-sitter-rust".to_string()), "0.24")]
}

#[test]
fn the_latest_row_of_a_key_is_read() {
    let rows = vec![
        ("a".to_string(), "1".to_string()),
        ("b".to_string(), "2".to_string()),
        ("a".to_string(), "3".to_string()),
    ];
    assert_eq!(lookup_row(&rows, "a").as_deref(), Some("3"));
    assert_eq!(lookup_row(&rows, "b").as_deref(), Some("2"));
    assert_eq!(lookup_row(&rows, "c"), None);
}

#[test]
fn a_rebuilt_store_reads_back_as_compatible_until_tests_flip() {
    let o = options(true);
    let stored = full_rebuild_rows(&index(), &o, backends(&o));
    assert_eq!(stored.files.as_ref().map(|f| f.len()), Some(2));
    let m = stored_metadata_of(stored.has_metadata_table, &stored.metadata, stored.backends.clone());
    assert_eq!(m.schema_version.as_deref(), Some("4"));
    assert_eq!(check_db_compatibility(&m, &o, &backends(&o)), None);
    let flipped = options(false);
    assert_eq!(
        check_db_compatibility(&m, &flipped, &backends(&flipped)),
        Some(RebuildReason::ParserConfigChanged)
    );
}

#[test]
fn a_rebuild_right_after_a_rebuild_reuses_the_store() {
    let o = options(true);
    let stored = full_rebuild_rows(&index(), &o, backends(&o));
    let found = vec![disk("/w/a.rs", 5, 3), disk("/w/b.rs", 6, 4)];
    let p = read_probe(true, true, true, stored, "/w", &o, &found, &backends(&o));
    assert_eq!(p.incompatibility, None);
    assert_eq!(p.diff.unchanged.len(), 2);
    let state = get_index_state(p, &o);
    assert!(matches!(state, IndexState::Ready));
    assert!(matches!(rebuild_index_db(state), RebuildPlan::Reuse));
}

#[test]
fn a_store_whose_files_cannot_be_read_is_corrupt() {
    let o = options(true);
    let mut stored = full_rebuild_rows(&index(), &o, backends(&o));
    stored.files = None;
    let p = read_probe(true, true, true, stored, "/w", &o, &Vec::new(), &backends(&o));
    assert_eq!(p.incompatibility, Some(RebuildReason::CorruptDatabase));
}

#[test]
fn an_empty_store_is_missing_its_metadata() {
    let o = options(true);
    let stored = StoredIndex { has_metadata_table: false, metadata: Vec::new(), backends: StoredBackends::Absent, files: None };
    let p = read_probe(true, true, true, stored, "/w", &o, &Vec::new(), &backends(&o));
    assert_eq!(p.incompatibility, Some(RebuildReason::MissingDatabase));
}
