use ctx_codegraph::backend::{ParsedFile, ParserId, ResolveOutput};
use ctx_codegraph::hashing::{content_hash, text_hash};
use ctx_codegraph::index::{
    build_index, call_edges, create_file_snapshot, drop_tests, occurrence_edges, should_index_path,
    BuildIndexOptions, FileInput,
};
use ctx_codegraph::model::{
    CallSite, EdgeKind, FileChangeDetection, FileId, FileParseStatus, Language, Occurrence,
    OccurrenceId, OccurrenceKind, ResolutionConfidence, Symbol, SymbolId, SymbolKind, TextRange,
};

fn range(line: usize) -> TextRange {
    TextRange { start_line: line, start_col: 1, end_line: line, end_col: 10 }
}

fn symbol(name: &str, kind: SymbolKind, file: &str) -> Symbol {
    Symbol {
        id: None,
        file_id: None,
        name: name.to_string(),
        qualified_name: format!("mod::{name}"),
        kind,
        language: Language::rust(),
        file: file.to_string(),
        range: range(1),
        body_range: None,
    }
}

fn site(from: Option<usize>, raw: &str, file: &str) -> CallSite {
    CallSite {
        id: None,
        file_id: None,
        from: None,
        from_temp_index: from,
        raw_name: raw.to_string(),
        file: file.to_string(),
        range: range(2),
    }
}

fn input(path: &str, parsed: Option<ParsedFile>) -> FileInput {
    FileInput {
        path: path.to_string(),
        size_bytes: Some(10),
        mtime_ms: Some(5),
        contents: Some(b"fn run() {}".to_vec()),
        parser_id: ParserId("tree-sitter-rust".to_string()),
        parser_version: "0.24".to_string(),
        parsed,
    }
}

fn options(include_tests: bool, change_detection: FileChangeDetection) -> BuildIndexOptions {
    BuildIndexOptions { use_lsp: false, max_depth: None, include_tests, change_detection }
}

#[test]
fn sha256_of_known_inputs() {
    assert_eq!(content_hash(b""), "e3b0c44298fc1c149afbf4c8996fb92427ae41e4649b934ca495991b7852b855");
    assert_eq!(text_hash("abc"), "ba7816bf8f01cfea414140de5dae2223b00361a396177a9cb410ff61f20015ad");
}

#[test]
fn paths_under_excluded_dirs_or_without_backend_are_skipped() {
    assert!(should_index_path("/w/src/lib.rs"));
    assert!(should_index_path("/w/app/main.py"));
    assert!(!should_index_path("/w/target/debug/build.rs"));
    assert!(!should_index_path("/w/.git/hooks/x.rs"));
    assert!(!should_index_path("/w/.codegraph/x.rs"));
    assert!(!should_index_path("/w/README.md"));
}

#[test]
fn snapshot_hashes_contents_only_by_content() {
    let pid = ParserId("tree-sitter-rust".to_string());
    let s = create_file_snapshot(
        "/w",
        "/w/src/lib.rs",
        FileChangeDetection::ContentHash,
        true,
        Some(3),
        None,
        Some(b"abc"),
        &pid,
        "0.24",
    );
    assert_eq!(s.rel_path, "src/lib.rs");
    assert_eq!(s.abs_path, "/w/src/lib.rs");
    assert_eq!(s.language.0, "rust");
    assert_eq!(s.backend_id, "rust-backend");
    assert_eq!(s.size_bytes, 3);
    assert_eq!(s.mtime_ms, 0);
    assert_eq!(
        s.content_hash.as_deref(),
        Some("ba7816bf8f01cfea414140de5dae2223b00361a396177a9cb410ff61f20015ad")
    );
    assert_eq!(s.parse_status, FileParseStatus::Success);
    let m = create_file_snapshot(
        "/w",
        "/other/x.py",
        FileChangeDetection::MtimeAndSize,
        true,
        None,
        Some(7),
        Some(b"abc"),
        &pid,
        "0.24",
    );
    assert_eq!(m.rel_path, "/other/x.py");
    assert_eq!(m.backend_id, "python-backend");
    assert_eq!(m.mtime_ms, 7);
    assert_eq!(m.content_hash, None);
}

#[test]
fn dropping_tests_renumbers_enclosing_positions() {
    let syms = vec![
        symbol("t1", SymbolKind::Test, "a.rs"),
        symbol("run", SymbolKind::Function, "a.rs"),
        symbol("t2", SymbolKind::Test, "a.rs"),
        symbol("load", SymbolKind::Function, "a.rs"),
    ];
    let sites = vec![
        site(Some(0), "x", "a.rs"),
        site(Some(1), "y", "a.rs"),
        site(None, "z", "a.rs"),
        site(Some(3), "w", "a.rs"),
        site(Some(9), "v", "a.rs"),
    ];
    let (kept, kept_sites) = drop_tests(&syms, &sites);
    let names: Vec<&str> = kept.iter().map(|s| s.name.as_str()).collect();
    assert_eq!(names, vec!["run", "load"]);
    let got: Vec<(&str, Option<usize>)> =
        kept_sites.iter().map(|c| (c.raw_name.as_str(), c.from_temp_index)).collect();
    assert_eq!(got, vec![("y", Some(0)), ("z", None), ("w", Some(1))]);
}

#[test]
fn build_index_gathers_parsed_files() {
    let lib = ParsedFile {
        symbols: vec![
            symbol("run", SymbolKind::Function, "/w/src/lib.rs"),
            symbol("test_it", SymbolKind::Test, "/w/src/lib.rs"),
        ],
        call_sites: vec![site(Some(0), "load", "/w/src/lib.rs"), site(Some(1), "run", "/w/src/lib.rs")],
    };
    let util = ParsedFile { symbols: vec![symbol("load", SymbolKind::Function, "/w/src/util.rs")], call_sites: vec![] };
    let files = vec![
        input("/w/src/lib.rs", Some(lib)),
        input("/w/target/debug/gen.rs", None),
        input("/w/README.md", None),
        input("/w/src/util.rs", Some(util)),
        input("/w/src/bad.rs", None),
    ];
    let index = build_index("/w", options(false, FileChangeDetection::MtimeAndSize), files);
    assert_eq!(index.root, "/w");
    let rels: Vec<&str> = index.files.iter().map(|f| f.rel_path.as_str()).collect();
    assert_eq!(rels, vec!["src/lib.rs", "src/util.rs", "src/bad.rs"]);
    let statuses: Vec<FileParseStatus> = index.files.iter().map(|f| f.parse_status).collect();
    assert_eq!(statuses, vec![FileParseStatus::Success, FileParseStatus::Success, FileParseStatus::Failed]);
    assert_eq!(index.files[0].size_bytes, 10);
    assert_eq!(index.files[0].mtime_ms, 5);
    let syms: Vec<(Option<SymbolId>, &str)> = index.symbols.iter().map(|s| (s.id, s.name.as_str())).collect();
    assert_eq!(syms, vec![(Some(SymbolId(0)), "run"), (Some(SymbolId(1)), "load")]);
    assert_eq!(index.call_sites.len(), 1);
    assert_eq!(index.call_sites[0].from, Some(SymbolId(0)));
    assert!(index.occurrences.is_empty());
    assert_eq!(index.edges.len(), 1);
    let e = &index.edges[0];
    assert_eq!(e.kind, EdgeKind::Call);
    assert_eq!(e.from_symbol_id, Some(SymbolId(0)));
    assert_eq!(e.to_symbol_id, Some(SymbolId(1)));
    assert_eq!(e.confidence, ResolutionConfidence::Heuristic);
    assert_eq!(e.raw_text.as_deref(), Some("load"));
    assert_eq!(e.occurrence_id, Some(OccurrenceId(0)));
}

#[test]
fn build_index_keeps_tests_when_asked() {
    let lib = ParsedFile {
        symbols: vec![
            symbol("run", SymbolKind::Function, "/w/src/lib.rs"),
            symbol("test_it", SymbolKind::Test, "/w/src/lib.rs"),
        ],
        call_sites: vec![site(Some(1), "run", "/w/src/lib.rs")],
    };
    let second = ParsedFile {
        symbols: vec![symbol("load", SymbolKind::Function, "/w/src/b.rs")],
        call_sites: vec![site(Some(0), "run", "/w/src/b.rs")],
    };
    let files = vec![input("/w/src/lib.rs", Some(lib)), input("/w/src/b.rs", Some(second))];
    let index = build_index("/w", options(true, FileChangeDetection::MtimeAndSize), files);
    assert_eq!(index.symbols.len(), 3);
    let froms: Vec<Option<SymbolId>> = index.call_sites.iter().map(|c| c.from).collect();
    assert_eq!(froms, vec![Some(SymbolId(1)), Some(SymbolId(2))]);
    let targets: Vec<Option<SymbolId>> = index.edges.iter().map(|e| e.to_symbol_id).collect();
    assert_eq!(targets, vec![Some(SymbolId(0)), Some(SymbolId(0))]);
}

#[test]
fn call_edges_prefer_language_server_answers() {
    let mut syms = vec![symbol("run", SymbolKind::Function, "a.rs"), symbol("load", SymbolKind::Function, "a.rs")];
    syms[0].id = Some(SymbolId(0));
    syms[1].id = Some(SymbolId(1));
    let mut inside = site(Some(0), "load", "a.rs");
    inside.from = Some(SymbolId(0));
    let outside = site(None, "run", "a.rs");
    let sites = vec![inside.clone(), outside, inside];
    let lsp = vec![
        None,
        None,
        Some(ResolveOutput { resolved_symbol_index: Some(0), confidence: ResolutionConfidence::LspExact }),
    ];
    let edges = call_edges(&syms, &sites, &lsp);
    assert_eq!(edges.len(), 2);
    assert_eq!(edges[0].to_symbol_id, Some(SymbolId(1)));
    assert_eq!(edges[0].confidence, ResolutionConfidence::Syntax);
    assert_eq!(edges[0].occurrence_id, Some(OccurrenceId(0)));
    assert_eq!(edges[1].to_symbol_id, Some(SymbolId(0)));
    assert_eq!(edges[1].confidence, ResolutionConfidence::LspExact);
    assert_eq!(edges[1].occurrence_id, Some(OccurrenceId(2)));
}

fn occurrence(kind: OccurrenceKind, enclosing: Option<i64>, raw: &str, id: i64) -> Occurrence {
    Occurrence {
        id: Some(OccurrenceId(id)),
        file_id: Some(FileId(1)),
        enclosing_symbol: enclosing.map(SymbolId),
        enclosing_temp_index: None,
        kind,
        raw_text: raw.to_string(),
        file: "/w/a.rs".to_string(),
        range: range(3),
        language: Language::rust(),
    }
}

#[test]
fn occurrence_edges_use_stored_symbol_ids() {
    let mut syms = vec![symbol("run", SymbolKind::Function, "/w/a.rs"), symbol("load", SymbolKind::Function, "/w/a.rs")];
    syms[0].id = Some(SymbolId(10));
    syms[1].id = Some(SymbolId(11));
    let occs = vec![
        occurrence(OccurrenceKind::Call, Some(10), "load", 3),
        occurrence(OccurrenceKind::Reference, Some(10), "load", 4),
        occurrence(OccurrenceKind::Call, None, "load", 5),
        occurrence(OccurrenceKind::Call, Some(11), "run", 6),
    ];
    let lsp = vec![
        None,
        None,
        None,
        Some(ResolveOutput { resolved_symbol_index: Some(0), confidence: ResolutionConfidence::LspExact }),
    ];
    let producers = vec!["noop".to_string(), "noop".to_string(), "noop".to_string(), "lsp".to_string()];
    let edges = occurrence_edges(&occs, &syms, &lsp, &producers);
    assert_eq!(edges.len(), 2);
    assert_eq!(edges[0].occurrence_id, Some(OccurrenceId(3)));
    assert_eq!(edges[0].from_file_id, Some(FileId(1)));
    assert_eq!(edges[0].from_symbol_id, Some(SymbolId(10)));
    assert_eq!(edges[0].to_symbol_id, Some(SymbolId(11)));
    assert_eq!(edges[0].confidence, ResolutionConfidence::Syntax);
    assert_eq!(edges[0].produced_by.as_deref(), Some("noop"));
    assert_eq!(edges[1].occurrence_id, Some(OccurrenceId(6)));
    assert_eq!(edges[1].to_symbol_id, Some(SymbolId(10)));
    assert_eq!(edges[1].confidence, ResolutionConfidence::LspExact);
    assert_eq!(edges[1].produced_by.as_deref(), Some("lsp"));
}
