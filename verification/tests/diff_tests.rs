use ctx_codegraph::backend::ParserId;
use ctx_codegraph::diff::{compute_index_diff, DiskFile};
use ctx_codegraph::index::BuildIndexOptions;
use ctx_codegraph::model::{FileChangeDetection, FileParseStatus};
use ctx_codegraph::model::CodeIndex;
use ctx_codegraph::storage::{compare_file, incremental_report, StoredFile};

fn stored(rel: &str, mtime: i64, size: u64, hash: Option<&str>, status: FileParseStatus) -> StoredFile {
    StoredFile {
        rel_path: rel.to_string(),
        language: "rust".to_string(),
        backend_id: "rust-backend".to_string(),
        mtime_ms: mtime,
        size_bytes: size,
        content_hash: hash.map(|h| h.to_string()),
        parser_id: "tree-sitter-rust".to_string(),
        parser_version: "0.24".to_string(),
        parser_config_hash: "cfg".to_string(),
        parse_status: status,
    }
}

fn disk(path: &str, mtime: Option<i64>, size: Option<u64>, contents: &[u8]) -> DiskFile {
    DiskFile {
        path: path.to_string(),
        size_bytes: size,
        mtime_ms: mtime,
        contents: Some(contents.to_vec()),
        parser_id: ParserId("tree-sitter-rust".to_string()),
        parser_version: "0.24".to_string(),
    }
}

fn options(change_detection: FileChangeDetection) -> BuildIndexOptions {
    BuildIndexOptions { use_lsp: false, max_depth: None, include_tests: true, change_detection }
}

const ABC_HASH: &str = "ba7816bf8f01cfea414140de5dae2223b00361a396177a9cb410ff61f20015ad";

#[test]
fn diff_sorts_files_by_time_and_size() {
    let records = vec![
        ("/w/a.rs".to_string(), stored("a.rs", 5, 3, None, FileParseStatus::Success)),
        ("/w/gone.rs".to_string(), stored("gone.rs", 5, 3, None, FileParseStatus::Success)),
        ("/w/b.rs".to_string(), stored("b.rs", 5, 3, None, FileParseStatus::Failed)),
        ("/w/d.rs".to_string(), stored("d.rs", 5, 3, None, FileParseStatus::Success)),
    ];
    let found = vec![
        disk("/w/a.rs", Some(5), Some(3), b"abc"),
        disk("/w/b.rs", Some(5), Some(3), b"abc"),
        disk("/w/c.rs", Some(9), Some(3), b"abc"),
        disk("/w/d.rs", None, Some(3), b"abc"),
        disk("/w/target/e.rs", Some(5), Some(3), b"abc"),
    ];
    let d = compute_index_diff("/w", &options(FileChangeDetection::MtimeAndSize), &found, &records);
    let added: Vec<&str> = d.added.iter().map(|s| s.rel_path.as_str()).collect();
    assert_eq!(added, vec!["c.rs"]);
    assert_eq!(d.added[0].mtime_ms, 9);
    let modified: Vec<&str> = d.modified.iter().map(|s| s.abs_path.as_str()).collect();
    assert_eq!(modified, vec!["/w/b.rs", "/w/d.rs"]);
    assert_eq!(d.modified[0].parse_status, FileParseStatus::Failed);
    assert_eq!(d.modified[1].mtime_ms, 0);
    let unchanged: Vec<&str> = d.unchanged.iter().map(|s| s.abs_path.as_str()).collect();
    assert_eq!(unchanged, vec!["/w/a.rs"]);
    assert_eq!(d.deleted, vec!["/w/gone.rs".to_string()]);
}

#[test]
fn diff_by_content_compares_hashes() {
    let records = vec![
        ("/w/a.rs".to_string(), stored("a.rs", 1, 1, Some(ABC_HASH), FileParseStatus::Success)),
        ("/w/b.rs".to_string(), stored("b.rs", 1, 1, Some("old"), FileParseStatus::Success)),
    ];
    let found = vec![disk("/w/a.rs", Some(7), Some(8), b"abc"), disk("/w/b.rs", Some(1), Some(1), b"abc")];
    let d = compute_index_diff("/w", &options(FileChangeDetection::ContentHash), &found, &records);
    assert_eq!(d.unchanged.len(), 1);
    assert_eq!(d.unchanged[0].abs_path, "/w/a.rs");
    assert_eq!(d.unchanged[0].mtime_ms, 7);
    assert_eq!(d.modified.len(), 1);
    assert_eq!(d.modified[0].content_hash.as_deref(), Some(ABC_HASH));
    assert!(d.added.is_empty());
    assert!(d.deleted.is_empty());
}

#[test]
fn paths_match_component_wise() {
    let records = vec![("/w//src/a.rs".to_string(), stored("src/a.rs", 1, 1, None, FileParseStatus::Success))];
    let found = vec![disk("/w/src/a.rs", Some(1), Some(1), b"")];
    let d = compute_index_diff("/w", &options(FileChangeDetection::MtimeAndSize), &found, &records);
    assert_eq!(d.unchanged.len(), 1);
    assert!(d.deleted.is_empty());
}

#[test]
fn compare_file_keeps_stored_hash_without_new_one() {
    let rec = stored("a.rs", 1, 1, Some("h"), FileParseStatus::Success);
    let (changed, s) = compare_file("/w/a.rs", &rec, FileChangeDetection::ContentHash, 1, 1, None);
    assert!(changed);
    assert_eq!(s.content_hash.as_deref(), Some("h"));
    let (changed2, s2) = compare_file("/w/a.rs", &rec, FileChangeDetection::MtimeAndSize, 1, 1, None);
    assert!(!changed2);
    assert_eq!(s2.rel_path, "a.rs");
}

#[test]
fn matching_records_leave_every_file_unchanged() {
    let records = vec![
        ("/w/a.rs".to_string(), stored("a.rs", 5, 3, None, FileParseStatus::Success)),
        ("/w/b.rs".to_string(), stored("b.rs", 6, 4, None, FileParseStatus::Success)),
    ];
    let found = vec![disk("/w/b.rs", Some(6), Some(4), b"abcd"), disk("/w/a.rs", Some(5), Some(3), b"abc")];
    let d = compute_index_diff("/w", &options(FileChangeDetection::MtimeAndSize), &found, &records);
    assert!(d.added.is_empty());
    assert!(d.modified.is_empty());
    assert!(d.deleted.is_empty());
    assert_eq!(d.unchanged.len(), 2);
}

#[test]
fn an_update_report_counts_each_file_once() {
    let records = vec![
        ("/w/a.rs".to_string(), stored("a.rs", 5, 3, None, FileParseStatus::Success)),
        ("/w/gone.rs".to_string(), stored("gone.rs", 5, 3, None, FileParseStatus::Success)),
        ("/w/b.rs".to_string(), stored("b.rs", 5, 3, None, FileParseStatus::Success)),
    ];
    let found = vec![
        disk("/w/a.rs", Some(5), Some(3), b"abc"),
        disk("/w/b.rs", Some(6), Some(3), b"abc"),
        disk("/w/c.rs", Some(9), Some(3), b"abc"),
        disk("/w/target/e.rs", Some(5), Some(3), b"abc"),
    ];
    let d = compute_index_diff("/w", &options(FileChangeDetection::MtimeAndSize), &found, &records);
    let index = CodeIndex {
        root: "/w".to_string(),
        files: Vec::new(),
        symbols: Vec::new(),
        occurrences: Vec::new(),
        call_sites: Vec::new(),
        edges: Vec::new(),
    };
    let r = incremental_report(&d, 2, 0, 0, &index);
    assert_eq!((r.added_files, r.modified_files, r.unchanged_files, r.deleted_files), (1, 1, 1, 1));
    assert_eq!(r.added_files + r.modified_files + r.unchanged_files, 3);
    assert!(!r.full_rebuild);
    assert_eq!(r.parsed_files, 2);
}
