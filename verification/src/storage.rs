//! The decisions of index storage: where the workspace root is, whether a stored
//! index can be reused, what changed on disk, and what a rebuild reports.
//!
//! The caller reads the database and the file system; the functions here decide
//! from what was read.
use vstd::prelude::*;
use crate::backend::{BackendMetadata, ParsedFile, bool_text};
use crate::hashing::{hex_text, sha256_of, text_hash};
use crate::index::BuildIndexOptions;
use crate::model::{
    CodeIndex, FileChangeDetection, FileId, FileParseStatus, FileSnapshot, GraphEdge, Language,
    ResolutionConfidence,
};
use crate::paths::{paths_equal, same_path};
use crate::strings::{chars_of, decimal, extend_str, owned, push_decimal, str_eq, string_from_chars};

verus! {

/// The last file whose absolute path is the same path as `p`, or -1.
pub open spec fn last_abs_match(files: Seq<FileSnapshot>, p: Seq<char>) -> int
    decreases files.len(),
{
    if files.len() == 0 {
        -1
    } else if same_path(files.last().abs_path@, p) {
        files.len() - 1
    } else {
        last_abs_match(files.drop_last(), p)
    }
}

/// The first file whose relative or absolute path is the same path as `p`, or -1
/// (searching from file `from` on).
pub open spec fn first_any_match(files: Seq<FileSnapshot>, p: Seq<char>, from: int) -> int
    decreases files.len() - from,
{
    if from < 0 || from >= files.len() {
        -1
    } else if same_path(files[from].rel_path@, p) || same_path(files[from].abs_path@, p) {
        from
    } else {
        first_any_match(files, p, from + 1)
    }
}

/// The stored id of the file that a symbol or call site names by `p`: the id of
/// the last file whose absolute path is that path, else of the first file whose
/// relative or absolute path is; none when no file is. `ids[k]` is the id the
/// `k`-th file was stored under.
pub open spec fn file_id_for(files: Seq<FileSnapshot>, ids: Seq<i64>, p: Seq<char>) -> Option<i64> {
    let a = last_abs_match(files, p);
    let b = first_any_match(files, p, 0);
    if a >= 0 {
        Some(ids[a])
    } else if b >= 0 {
        Some(ids[b])
    } else {
        None
    }
}

proof fn lemma_last_abs_range(files: Seq<FileSnapshot>, p: Seq<char>)
    ensures
        -1 <= last_abs_match(files, p) < files.len(),
    decreases files.len(),
{
    if files.len() > 0 {
        lemma_last_abs_range(files.drop_last(), p);
    }
}

proof fn lemma_first_any_range(files: Seq<FileSnapshot>, p: Seq<char>, from: int)
    ensures
        -1 <= first_any_match(files, p, from) < files.len(),
    decreases files.len() - from,
{
    if 0 <= from < files.len() {
        lemma_first_any_range(files, p, from + 1);
    }
}

/// The stored id of the file a symbol or call site names (see `file_id_for`).
pub fn stored_file_id(files: &Vec<FileSnapshot>, ids: &Vec<i64>, p: &str) -> (r: Option<i64>)
    requires
        ids.len() == files.len(),
    ensures
        r == file_id_for(files@, ids@, p@),
{
    let mut k: usize = files.len();
    assert(files@.take(files.len() as int) =~= files@);
    while k > 0
        invariant
            k <= files.len(),
            ids.len() == files.len(),
            last_abs_match(files@, p@) == last_abs_match(files@.take(k as int), p@),
        decreases k,
    {
        proof {
            assert(files@.take(k as int).drop_last() =~= files@.take(k - 1));
            assert(files@.take(k as int).last() == files@[k - 1]);
        }
        if paths_equal(files[k - 1].abs_path.as_str(), p) {
            proof {
                lemma_last_abs_range(files@, p@);
            }
            return Some(ids[k - 1]);
        }
        k = k - 1;
    }
    assert(last_abs_match(files@.take(0), p@) == -1);
    let mut j: usize = 0;
    while j < files.len()
        invariant
            j <= files.len(),
            ids.len() == files.len(),
            last_abs_match(files@, p@) == -1,
            first_any_match(files@, p@, 0) == first_any_match(files@, p@, j as int),
        decreases files.len() - j,
    {
        if paths_equal(files[j].rel_path.as_str(), p) || paths_equal(files[j].abs_path.as_str(), p) {
            return Some(ids[j]);
        }
        j = j + 1;
    }
    None
}

/// The stored id of an item the index names by its position among the saved
/// items (`ids[k]` is the id the `k`-th was stored under): none when it names
/// none; an error "<what> not saved to DB" when no item was saved at that
/// position.
pub fn saved_id(position: Option<i64>, ids: &Vec<i64>, what: &str) -> (r: Result<Option<i64>, String>)
    ensures
        match position {
            None => r matches Ok(x) && x is None,
            Some(t) => if 0 <= t < ids.len() {
                r matches Ok(x) && x == Some(ids@[t as int])
            } else {
                r matches Err(e) && e@ == what@ + " not saved to DB"@
            },
        },
{
    match position {
        None => Ok(None),
        Some(t) => {
            if 0 <= t && (t as u64) < (ids.len() as u64) {
                Ok(Some(ids[t as usize]))
            } else {
                let mut v = chars_of(what);
                extend_str(&mut v, " not saved to DB");
                Err(string_from_chars(&v))
            }
        },
    }
}

/// Why a stored index has to be rebuilt from scratch.
#[derive(Debug, Clone, Copy, PartialEq, Eq, Structural)]
pub enum RebuildReason {
    MissingDatabase,
    CorruptDatabase,
    SchemaVersionChanged,
    IndexerVersionChanged,
    ParserVersionChanged,
    ParserConfigChanged,
    ResolverVersionChanged,
    ResolverConfigChanged,
    ChangeDetectionStrategyChanged,
    BackendSetChanged,
    PreviousRunIncomplete,
}

/// The files added, modified, deleted and unchanged since the index was stored.
#[derive(Debug, Clone)]
pub struct IndexDiff {
    pub added: Vec<FileSnapshot>,
    pub modified: Vec<FileSnapshot>,
    pub deleted: Vec<String>,
    pub unchanged: Vec<FileSnapshot>,
}

/// Whether the stored index can be used as it is.
#[derive(Debug, Clone)]
pub enum IndexState {
    Missing,
    Ready,
    NeedsFullRebuild(RebuildReason),
    NeedsIncrementalUpdate(IndexDiff),
}

/// A file parsed for an incremental update, with the id it had in the index.
#[derive(Debug)]
pub struct StagedFileUpdate {
    pub snapshot: FileSnapshot,
    pub parse_result: Result<ParsedFile, String>,
    pub previous_file_id: Option<FileId>,
}

/// What a build of the index did.
#[derive(Debug, Clone, Copy)]
pub struct BuildReport {
    pub full_rebuild: bool,
    pub full_rebuild_reason: Option<RebuildReason>,
    pub added_files: usize,
    pub modified_files: usize,
    pub deleted_files: usize,
    pub unchanged_files: usize,
    pub parsed_files: usize,
    pub reused_files: usize,
    pub symbols_written: usize,
    pub call_sites_written: usize,
    pub edges_written: usize,
    pub lsp_edges_exact: usize,
    pub syntax_edges: usize,
    pub heuristic_edges: usize,
    pub unresolved_edges: usize,
}

/// The entries whose presence in a directory marks a workspace root: the
/// version-control and configuration markers, then those of each backend.
pub open spec fn root_markers() -> Seq<Seq<char>> {
    seq![
        ".git"@,
        ".ctxconfig"@,
        "Cargo.toml"@,
        "pyproject.toml"@,
        "requirements.txt"@,
        "setup.py"@,
    ]
}

pub fn workspace_root_markers() -> (r: Vec<&'static str>)
    ensures
        r@.map_values(|s: &str| s@) == root_markers(),
{
    let r = vec![".git", ".ctxconfig", "Cargo.toml", "pyproject.toml", "requirements.txt", "setup.py"];
    assert(r@.map_values(|s: &str| s@) =~= root_markers());
    r
}

/// The first marked directory among `dirs`, or `start` when none is marked.
pub open spec fn first_marked(start: Seq<char>, dirs: Seq<String>, marked: Seq<bool>) -> Seq<char>
    decreases dirs.len(),
{
    if dirs.len() == 0 {
        start
    } else if marked[0] {
        dirs[0]@
    } else {
        first_marked(start, dirs.drop_first(), marked.drop_first())
    }
}

/// The workspace root of `start_dir`: the nearest of its (canonical) directory and
/// that directory's ancestors, listed nearest first in `dirs`, that holds one of
/// the root markers (`marked[i]` says whether `dirs[i]` does); `start_dir` itself
/// when none does.
pub fn find_workspace_root(start_dir: &str, dirs: &Vec<String>, marked: &Vec<bool>) -> (r: String)
    requires
        marked.len() == dirs.len(),
    ensures
        r@ == first_marked(start_dir@, dirs@, marked@),
{
    let mut i: usize = 0;
    assert(dirs@.skip(0) =~= dirs@ && marked@.skip(0) =~= marked@);
    while i < dirs.len()
        invariant
            i <= dirs.len(),
            marked.len() == dirs.len(),
            first_marked(start_dir@, dirs@, marked@) == first_marked(
                start_dir@,
                dirs@.skip(i as int),
                marked@.skip(i as int),
            ),
        decreases dirs.len() - i,
    {
        if marked[i] {
            assert(dirs@.skip(i as int)[0] == dirs@[i as int]);
            return dirs[i].clone();
        }
        assert(dirs@.skip(i as int).drop_first() =~= dirs@.skip(i + 1));
        assert(marked@.skip(i as int).drop_first() =~= marked@.skip(i + 1));
        i = i + 1;
    }
    string_from_chars(&chars_of(start_dir))
}

/// `{:?}` of an optional count.
pub open spec fn opt_count_debug(o: Option<usize>) -> Seq<char> {
    match o {
        Some(n) => "Some("@ + decimal(n as nat) + ")"@,
        None => "None"@,
    }
}

/// The text whose hash fingerprints the parser options.
pub open spec fn parser_config_text(options: BuildIndexOptions) -> Seq<char> {
    "include_tests:"@ + bool_text(options.include_tests)
}

/// The text whose hash fingerprints the resolver options.
pub open spec fn resolver_config_text(options: BuildIndexOptions) -> Seq<char> {
    "use_lsp:"@ + bool_text(options.use_lsp) + ",max_depth:"@ + opt_count_debug(options.max_depth)
}

/// The hash of a text: SHA-256 of its UTF-8 bytes, in lowercase hexadecimal.
pub open spec fn hash_of_text(t: Seq<char>) -> Seq<char> {
    hex_text(sha256_of(vstd::utf8::encode_utf8(t)))
}

/// The resolver recorded for the options.
pub open spec fn resolver_name(options: BuildIndexOptions) -> Seq<char> {
    if options.use_lsp {
        "lsp"@
    } else {
        "noop"@
    }
}

/// The name of a change-detection strategy.
pub open spec fn strategy_name(c: FileChangeDetection) -> Seq<char> {
    match c {
        FileChangeDetection::MtimeAndSize => "MtimeAndSize"@,
        FileChangeDetection::ContentHash => "ContentHash"@,
    }
}

fn push_bool_text(v: &mut Vec<char>, b: bool)
    ensures
        final(v)@ == old(v)@ + bool_text(b),
{
    if b {
        extend_str(v, "true");
    } else {
        extend_str(v, "false");
    }
}

/// The hash of the parser options.
pub fn parser_config_hash(options: &BuildIndexOptions) -> (s: String)
    ensures
        s@ == hash_of_text(parser_config_text(*options)),
{
    let mut v: Vec<char> = Vec::new();
    extend_str(&mut v, "include_tests:");
    push_bool_text(&mut v, options.include_tests);
    assert(v@ =~= parser_config_text(*options));
    let t = string_from_chars(&v);
    text_hash(t.as_str())
}

/// The hash of the resolver options.
pub fn resolver_config_hash(options: &BuildIndexOptions) -> (s: String)
    ensures
        s@ == hash_of_text(resolver_config_text(*options)),
{
    let mut v: Vec<char> = Vec::new();
    extend_str(&mut v, "use_lsp:");
    push_bool_text(&mut v, options.use_lsp);
    extend_str(&mut v, ",max_depth:");
    match options.max_depth {
        Some(n) => {
            extend_str(&mut v, "Some(");
            push_decimal(&mut v, n);
            extend_str(&mut v, ")");
        },
        None => extend_str(&mut v, "None"),
    }
    assert(v@ =~= resolver_config_text(*options));
    let t = string_from_chars(&v);
    text_hash(t.as_str())
}

/// The metadata a build records, as key and value, in the order written (the
/// backends' own metadata is recorded beside them).
pub open spec fn metadata_entries(options: BuildIndexOptions) -> Seq<(Seq<char>, Seq<char>)> {
    Seq::empty().push(("schema_version"@, "4"@)).push(("indexer_version"@, "0.1.0"@)).push(
        ("parser_config_hash"@, hash_of_text(parser_config_text(options))),
    ).push(("resolver_id"@, resolver_name(options))).push(("resolver_version"@, "0.1.0"@)).push(
        ("resolver_config_hash"@, hash_of_text(resolver_config_text(options))),
    ).push(("change_detection_strategy"@, strategy_name(options.change_detection))).push(
        ("base_index_ready"@, "true"@),
    ).push(
        (
            "lsp_enrichment"@,
            if options.use_lsp {
                "complete"@
            } else {
                "none"@
            },
        ),
    )
}

/// Key-value rows as text.
pub open spec fn rows_view(rows: Seq<(String, String)>) -> Seq<(Seq<char>, Seq<char>)> {
    rows.map_values(|e: (String, String)| (e.0@, e.1@))
}

/// The metadata a build records (see `metadata_entries`).
pub fn index_metadata(options: &BuildIndexOptions) -> (r: Vec<(String, String)>)
    ensures
        rows_view(r@) == metadata_entries(*options),
{
    let mut r: Vec<(String, String)> = Vec::new();
    r.push((owned("schema_version"), owned("4")));
    r.push((owned("indexer_version"), owned("0.1.0")));
    r.push((owned("parser_config_hash"), parser_config_hash(options)));
    r.push((owned("resolver_id"), owned(if options.use_lsp {
        "lsp"
    } else {
        "noop"
    })));
    r.push((owned("resolver_version"), owned("0.1.0")));
    r.push((owned("resolver_config_hash"), resolver_config_hash(options)));
    r.push((owned("change_detection_strategy"), owned(match options.change_detection {
        FileChangeDetection::MtimeAndSize => "MtimeAndSize",
        FileChangeDetection::ContentHash => "ContentHash",
    })));
    r.push((owned("base_index_ready"), owned("true")));
    r.push((owned("lsp_enrichment"), owned(if options.use_lsp {
        "complete"
    } else {
        "none"
    })));
    assert(rows_view(r@) =~= metadata_entries(*options));
    r
}

/// The backends' metadata as stored: missing, unreadable, or a list.
#[derive(Debug, Clone)]
pub enum StoredBackends {
    Absent,
    Corrupt,
    Listed(Vec<BackendMetadata>),
}

/// What a stored index records about how it was built, as read from it.
#[derive(Debug, Clone)]
pub struct StoredMetadata {
    pub table_exists: bool,
    pub schema_version: Option<String>,
    pub indexer_version: Option<String>,
    pub parser_config_hash: Option<String>,
    pub resolver_id: Option<String>,
    pub resolver_version: Option<String>,
    pub resolver_config_hash: Option<String>,
    pub change_detection_strategy: Option<String>,
    pub base_index_ready: Option<String>,
    pub backends: StoredBackends,
}

/// A metadata value is present and equal to `expected`.
pub open spec fn meta_is(v: Option<String>, expected: Seq<char>) -> bool {
    v matches Some(s) && s@ == expected
}

/// The view of an optional string.
pub open spec fn opt_text(o: Option<String>) -> Option<Seq<char>> {
    match o {
        Some(s) => Some(s@),
        None => None,
    }
}

/// The first current backend with the given id.
pub open spec fn find_backend(current: Seq<BackendMetadata>, id: Seq<char>) -> Option<BackendMetadata>
    decreases current.len(),
{
    if current.len() == 0 {
        None
    } else if current[0].backend_id@ == id {
        Some(current[0])
    } else {
        find_backend(current.drop_first(), id)
    }
}

/// The first difference between the stored backends and the current ones: a
/// stored backend no longer present, a new parser version, another resolver or
/// configuration, or a new resolver version.
pub open spec fn backends_verdict(stored: Seq<BackendMetadata>, current: Seq<BackendMetadata>) -> Option<
    RebuildReason,
>
    decreases stored.len(),
{
    if stored.len() == 0 {
        None
    } else {
        let s = stored[0];
        match find_backend(current, s.backend_id@) {
            None => Some(RebuildReason::BackendSetChanged),
            Some(c) => if c.parser_version@ != s.parser_version@ {
                Some(RebuildReason::ParserVersionChanged)
            } else if opt_text(c.resolver_id) != opt_text(s.resolver_id) || c.config_hash@
                != s.config_hash@ {
                Some(RebuildReason::ResolverConfigChanged)
            } else if opt_text(c.resolver_version) != opt_text(s.resolver_version) {
                Some(RebuildReason::ResolverVersionChanged)
            } else {
                backends_verdict(stored.drop_first(), current)
            },
        }
    }
}

/// Why a stored index cannot be reused with these options and backends, checked
/// in order: no metadata, another schema, indexer, parser configuration,
/// resolver, resolver version or configuration, change detection, an unfinished
/// build, then the backends; `None` when it can be reused.
pub open spec fn compatibility(
    m: StoredMetadata,
    options: BuildIndexOptions,
    current: Seq<BackendMetadata>,
) -> Option<RebuildReason> {
    if !m.table_exists {
        Some(RebuildReason::MissingDatabase)
    } else if !meta_is(m.schema_version, "4"@) {
        Some(RebuildReason::SchemaVersionChanged)
    } else if !meta_is(m.indexer_version, "0.1.0"@) {
        Some(RebuildReason::IndexerVersionChanged)
    } else if !meta_is(m.parser_config_hash, hash_of_text(parser_config_text(options))) {
        Some(RebuildReason::ParserConfigChanged)
    } else if !meta_is(m.resolver_id, resolver_name(options)) {
        Some(RebuildReason::ResolverConfigChanged)
    } else if !meta_is(m.resolver_version, "0.1.0"@) {
        Some(RebuildReason::ResolverVersionChanged)
    } else if !meta_is(m.resolver_config_hash, hash_of_text(resolver_config_text(options))) {
        Some(RebuildReason::ResolverConfigChanged)
    } else if !meta_is(m.change_detection_strategy, strategy_name(options.change_detection)) {
        Some(RebuildReason::ChangeDetectionStrategyChanged)
    } else if !meta_is(m.base_index_ready, "true"@) {
        Some(RebuildReason::PreviousRunIncomplete)
    } else {
        match m.backends {
            StoredBackends::Absent => Some(RebuildReason::BackendSetChanged),
            StoredBackends::Corrupt => Some(RebuildReason::CorruptDatabase),
            StoredBackends::Listed(v) => backends_verdict(v@, current),
        }
    }
}

fn meta_matches(v: &Option<String>, expected: &str) -> (r: bool)
    ensures
        r == meta_is(*v, expected@),
{
    match v {
        Some(s) => str_eq(s.as_str(), expected),
        None => false,
    }
}

fn opt_text_eq(a: &Option<String>, b: &Option<String>) -> (r: bool)
    ensures
        r == (opt_text(*a) == opt_text(*b)),
{
    match (a, b) {
        (Some(x), Some(y)) => str_eq(x.as_str(), y.as_str()),
        (None, None) => true,
        _ => false,
    }
}

fn find_backend_index(current: &Vec<BackendMetadata>, id: &str) -> (r: Option<usize>)
    ensures
        match r {
            Some(i) => i < current.len() && find_backend(current@, id@) == Some(current@[i as int]),
            None => find_backend(current@, id@) is None,
        },
{
    let mut i: usize = 0;
    assert(current@.skip(0) =~= current@);
    while i < current.len()
        invariant
            i <= current.len(),
            find_backend(current@, id@) == find_backend(current@.skip(i as int), id@),
        decreases current.len() - i,
    {
        assert(current@.skip(i as int)[0] == current@[i as int]);
        if str_eq(current[i].backend_id.as_str(), id) {
            return Some(i);
        }
        assert(current@.skip(i as int).drop_first() =~= current@.skip(i + 1));
        i = i + 1;
    }
    None
}

fn backends_check(stored: &Vec<BackendMetadata>, current: &Vec<BackendMetadata>) -> (r: Option<
    RebuildReason,
>)
    ensures
        r == backends_verdict(stored@, current@),
{
    let mut i: usize = 0;
    assert(stored@.skip(0) =~= stored@);
    while i < stored.len()
        invariant
            i <= stored.len(),
            backends_verdict(stored@, current@) == backends_verdict(stored@.skip(i as int), current@),
        decreases stored.len() - i,
    {
        let s = &stored[i];
        assert(stored@.skip(i as int)[0] == stored@[i as int]);
        assert(stored@.skip(i as int).drop_first() =~= stored@.skip(i + 1));
        match find_backend_index(current, s.backend_id.as_str()) {
            None => {
                return Some(RebuildReason::BackendSetChanged);
            },
            Some(k) => {
                let c = &current[k];
                if !str_eq(c.parser_version.as_str(), s.parser_version.as_str()) {
                    return Some(RebuildReason::ParserVersionChanged);
                }
                if !opt_text_eq(&c.resolver_id, &s.resolver_id) || !str_eq(
                    c.config_hash.as_str(),
                    s.config_hash.as_str(),
                ) {
                    return Some(RebuildReason::ResolverConfigChanged);
                }
                if !opt_text_eq(&c.resolver_version, &s.resolver_version) {
                    return Some(RebuildReason::ResolverVersionChanged);
                }
            },
        }
        i = i + 1;
    }
    None
}

/// Why the stored index cannot be reused (see `compatibility`), given the
/// metadata read from it and the current backends' metadata.
pub fn check_db_compatibility(
    stored: &StoredMetadata,
    options: &BuildIndexOptions,
    current: &Vec<BackendMetadata>,
) -> (r: Option<RebuildReason>)
    ensures
        r == compatibility(*stored, *options, current@),
{
    if !stored.table_exists {
        return Some(RebuildReason::MissingDatabase);
    }
    if !meta_matches(&stored.schema_version, "4") {
        return Some(RebuildReason::SchemaVersionChanged);
    }
    if !meta_matches(&stored.indexer_version, "0.1.0") {
        return Some(RebuildReason::IndexerVersionChanged);
    }
    let parser_hash = parser_config_hash(options);
    if !meta_matches(&stored.parser_config_hash, parser_hash.as_str()) {
        return Some(RebuildReason::ParserConfigChanged);
    }
    let resolver = if options.use_lsp {
        "lsp"
    } else {
        "noop"
    };
    if !meta_matches(&stored.resolver_id, resolver) {
        return Some(RebuildReason::ResolverConfigChanged);
    }
    if !meta_matches(&stored.resolver_version, "0.1.0") {
        return Some(RebuildReason::ResolverVersionChanged);
    }
    let resolver_hash = resolver_config_hash(options);
    if !meta_matches(&stored.resolver_config_hash, resolver_hash.as_str()) {
        return Some(RebuildReason::ResolverConfigChanged);
    }
    let strategy = match options.change_detection {
        FileChangeDetection::MtimeAndSize => "MtimeAndSize",
        FileChangeDetection::ContentHash => "ContentHash",
    };
    if !meta_matches(&stored.change_detection_strategy, strategy) {
        return Some(RebuildReason::ChangeDetectionStrategyChanged);
    }
    if !meta_matches(&stored.base_index_ready, "true") {
        return Some(RebuildReason::PreviousRunIncomplete);
    }
    match &stored.backends {
        StoredBackends::Absent => Some(RebuildReason::BackendSetChanged),
        StoredBackends::Corrupt => Some(RebuildReason::CorruptDatabase),
        StoredBackends::Listed(v) => backends_check(v, current),
    }
}

/// The value a key-value table holds for `key` after the entries were written in
/// order, a later write replacing an earlier one.
pub open spec fn lookup(entries: Seq<(Seq<char>, Seq<char>)>, key: Seq<char>) -> Option<Seq<char>>
    decreases entries.len(),
{
    if entries.len() == 0 {
        None
    } else if entries.last().0 == key {
        Some(entries.last().1)
    } else {
        lookup(entries.drop_last(), key)
    }
}

/// No two backends share an id.
pub open spec fn distinct_backend_ids(bs: Seq<BackendMetadata>) -> bool {
    forall|i: int, j: int|
        0 <= i < j < bs.len() ==> #[trigger] bs[i].backend_id@ != #[trigger] bs[j].backend_id@
}

proof fn lemma_find_own(current: Seq<BackendMetadata>, i: int)
    requires
        distinct_backend_ids(current),
        0 <= i < current.len(),
    ensures
        find_backend(current, current[i].backend_id@) == Some(current[i]),
    decreases i,
{
    if i > 0 {
        let rest = current.drop_first();
        assert(current[0].backend_id@ != current[i].backend_id@);
        assert(distinct_backend_ids(rest)) by {
            assert forall|a: int, b: int| 0 <= a < b < rest.len() implies #[trigger] rest[a].backend_id@
                != #[trigger] rest[b].backend_id@ by {
                assert(rest[a] == current[a + 1] && rest[b] == current[b + 1]);
            }
        }
        assert(rest[i - 1] == current[i]);
        lemma_find_own(rest, i - 1);
    }
}

proof fn lemma_same_backends(current: Seq<BackendMetadata>, k: int)
    requires
        distinct_backend_ids(current),
        0 <= k <= current.len(),
    ensures
        backends_verdict(current.skip(k), current) is None,
    decreases current.len() - k,
{
    let s = current.skip(k);
    if k < current.len() {
        lemma_find_own(current, k);
        assert(s[0] == current[k]);
        assert(s.drop_first() =~= current.skip(k + 1));
        lemma_same_backends(current, k + 1);
    } else {
        assert(s.len() == 0);
    }
}

/// The stored metadata reads back what a build with these options wrote (see
/// `index_metadata`), with the current backends' metadata listed.
pub open spec fn written_metadata(m: StoredMetadata, options: BuildIndexOptions, current: Seq<BackendMetadata>) -> bool {
    &&& m.table_exists
    &&& opt_text(m.schema_version) == lookup(metadata_entries(options), "schema_version"@)
    &&& opt_text(m.indexer_version) == lookup(metadata_entries(options), "indexer_version"@)
    &&& opt_text(m.parser_config_hash) == lookup(metadata_entries(options), "parser_config_hash"@)
    &&& opt_text(m.resolver_id) == lookup(metadata_entries(options), "resolver_id"@)
    &&& opt_text(m.resolver_version) == lookup(metadata_entries(options), "resolver_version"@)
    &&& opt_text(m.resolver_config_hash) == lookup(metadata_entries(options), "resolver_config_hash"@)
    &&& opt_text(m.change_detection_strategy) == lookup(metadata_entries(options), "change_detection_strategy"@)
    &&& opt_text(m.base_index_ready) == lookup(metadata_entries(options), "base_index_ready"@)
    &&& m.backends matches StoredBackends::Listed(v) && v@ == current
    &&& distinct_backend_ids(current)
}

/// A stored index read back as a build with these options recorded it, with the
/// current backends' metadata, is accepted by the compatibility check.
pub proof fn law_written_metadata_is_compatible(
    m: StoredMetadata,
    options: BuildIndexOptions,
    current: Seq<BackendMetadata>,
)
    requires
        written_metadata(m, options, current),
    ensures
        compatibility(m, options, current) is None,
{
    reveal_strlit("schema_version");
    reveal_strlit("indexer_version");
    reveal_strlit("parser_config_hash");
    reveal_strlit("resolver_id");
    reveal_strlit("resolver_version");
    reveal_strlit("resolver_config_hash");
    reveal_strlit("change_detection_strategy");
    reveal_strlit("base_index_ready");
    reveal_strlit("lsp_enrichment");
    reveal_with_fuel(lookup, 10);
    let e = metadata_entries(options);
    assert("schema_version"@.len() == 14 && "indexer_version"@.len() == 15);
    assert("parser_config_hash"@.len() == 18 && "resolver_id"@.len() == 11);
    assert("resolver_version"@.len() == 16 && "resolver_config_hash"@.len() == 20);
    assert("change_detection_strategy"@.len() == 25 && "base_index_ready"@.len() == 16);
    assert("lsp_enrichment"@.len() == 14);
    assert("schema_version"@[0] == 's' && "lsp_enrichment"@[0] == 'l');
    assert("resolver_version"@[0] == 'r' && "base_index_ready"@[0] == 'b');
    assert(lookup(e, "schema_version"@) == Some("4"@));
    assert(lookup(e, "indexer_version"@) == Some("0.1.0"@));
    assert(lookup(e, "parser_config_hash"@) == Some(hash_of_text(parser_config_text(options))));
    assert(lookup(e, "resolver_id"@) == Some(resolver_name(options)));
    assert(lookup(e, "resolver_version"@) == Some("0.1.0"@));
    assert(lookup(e, "resolver_config_hash"@) == Some(hash_of_text(resolver_config_text(options))));
    assert(lookup(e, "change_detection_strategy"@) == Some(strategy_name(options.change_detection)));
    assert(lookup(e, "base_index_ready"@) == Some("true"@));
    lemma_same_backends(current, 0);
    assert(current.skip(0) =~= current);
}

/// A stored index written with some options no longer fits when tests are
/// included where they were left out, or the other way round: the check asks for
/// a full rebuild because the parser configuration changed. (This rests on the
/// two configurations' hashes differing, which the `requires` states.)
pub proof fn law_flipping_tests_makes_index_incompatible(
    m: StoredMetadata,
    options: BuildIndexOptions,
    current: Seq<BackendMetadata>,
)
    requires
        m.table_exists,
        opt_text(m.schema_version) == lookup(metadata_entries(options), "schema_version"@),
        opt_text(m.indexer_version) == lookup(metadata_entries(options), "indexer_version"@),
        opt_text(m.parser_config_hash) == lookup(metadata_entries(options), "parser_config_hash"@),
        hash_of_text(parser_config_text(options)) != hash_of_text(
            parser_config_text(BuildIndexOptions { include_tests: !options.include_tests, ..options }),
        ),
    ensures
        compatibility(m, BuildIndexOptions { include_tests: !options.include_tests, ..options }, current)
            == Some(RebuildReason::ParserConfigChanged),
{
    reveal_strlit("schema_version");
    reveal_strlit("indexer_version");
    reveal_strlit("parser_config_hash");
    reveal_strlit("resolver_id");
    reveal_strlit("resolver_version");
    reveal_strlit("resolver_config_hash");
    reveal_strlit("change_detection_strategy");
    reveal_strlit("base_index_ready");
    reveal_strlit("lsp_enrichment");
    reveal_with_fuel(lookup, 10);
    let e = metadata_entries(options);
    assert("schema_version"@.len() == 14 && "indexer_version"@.len() == 15);
    assert("parser_config_hash"@.len() == 18 && "resolver_id"@.len() == 11);
    assert("resolver_version"@.len() == 16 && "resolver_config_hash"@.len() == 20);
    assert("change_detection_strategy"@.len() == 25 && "base_index_ready"@.len() == 16);
    assert("lsp_enrichment"@.len() == 14);
    assert("schema_version"@[0] == 's' && "lsp_enrichment"@[0] == 'l');
    assert("resolver_version"@[0] == 'r' && "base_index_ready"@[0] == 'b');
    assert(lookup(e, "schema_version"@) == Some("4"@));
    assert(lookup(e, "indexer_version"@) == Some("0.1.0"@));
    assert(lookup(e, "parser_config_hash"@) == Some(hash_of_text(parser_config_text(options))));
}

/// Rebuilding right after a rebuild reuses the index: when the stored metadata
/// is what a build with these options wrote (with the current backends), the
/// database opens, nothing changed on disk, and the recorded language-server
/// enrichment is the one written, the stored index is ready.
pub proof fn law_rebuild_after_rebuild_reuses(
    p: IndexProbe,
    m: StoredMetadata,
    options: BuildIndexOptions,
    current: Seq<BackendMetadata>,
)
    requires
        p.db_exists,
        p.opened,
        p.foreign_keys_on,
        p.incompatibility == compatibility(m, options, current),
        written_metadata(m, options, current),
        no_changes(p.diff),
        opt_text(p.lsp_enrichment) == lookup(metadata_entries(options), "lsp_enrichment"@),
    ensures
        index_state_of(p, options.use_lsp) is Ready,
{
    law_written_metadata_is_compatible(m, options, current);
    reveal_strlit("schema_version");
    reveal_strlit("indexer_version");
    reveal_strlit("parser_config_hash");
    reveal_strlit("resolver_id");
    reveal_strlit("resolver_version");
    reveal_strlit("resolver_config_hash");
    reveal_strlit("change_detection_strategy");
    reveal_strlit("base_index_ready");
    reveal_strlit("lsp_enrichment");
    reveal_strlit("none");
    reveal_strlit("complete");
    reveal_with_fuel(lookup, 10);
    let e = metadata_entries(options);
    assert("lsp_enrichment"@.len() == 14);
    assert("lsp_enrichment"@[0] == 'l');
    assert(lookup(e, "lsp_enrichment"@) == Some(if options.use_lsp { "complete"@ } else { "none"@ }));
    assert("complete"@ != "none"@) by {
        assert("complete"@.len() != "none"@.len());
    }
}

/// What was found while checking the stored index, in the order it is checked:
/// whether the database file exists, opens, and accepts foreign keys; why it is
/// incompatible, if it is; what changed on disk; and the recorded language-server
/// enrichment. A step that was not reached may hold anything.
#[derive(Debug, Clone)]
pub struct IndexProbe {
    pub db_exists: bool,
    pub opened: bool,
    pub foreign_keys_on: bool,
    pub incompatibility: Option<RebuildReason>,
    pub diff: IndexDiff,
    pub lsp_enrichment: Option<String>,
}

/// Whether a diff holds no change.
pub open spec fn no_changes(d: IndexDiff) -> bool {
    d.added@.len() == 0 && d.modified@.len() == 0 && d.deleted@.len() == 0
}

/// The state of a stored index: rebuilt from scratch when it is missing,
/// unreadable or incompatible; updated when files changed, or when a language
/// server is used and the index was never enriched by one (no recorded
/// enrichment counts as none); ready otherwise.
pub open spec fn index_state_of(p: IndexProbe, use_lsp: bool) -> IndexState {
    if !p.db_exists {
        IndexState::NeedsFullRebuild(RebuildReason::MissingDatabase)
    } else if !p.opened || !p.foreign_keys_on {
        IndexState::NeedsFullRebuild(RebuildReason::CorruptDatabase)
    } else if p.incompatibility is Some {
        IndexState::NeedsFullRebuild(p.incompatibility->0)
    } else if !no_changes(p.diff) {
        IndexState::NeedsIncrementalUpdate(p.diff)
    } else if use_lsp && (match p.lsp_enrichment {
        Some(s) => s@ == "none"@,
        None => true,
    }) {
        IndexState::NeedsIncrementalUpdate(p.diff)
    } else {
        IndexState::Ready
    }
}

/// The state of a stored index (see `index_state_of`).
pub fn get_index_state(probe: IndexProbe, options: &BuildIndexOptions) -> (r: IndexState)
    ensures
        r == index_state_of(probe, options.use_lsp),
{
    if !probe.db_exists {
        return IndexState::NeedsFullRebuild(RebuildReason::MissingDatabase);
    }
    if !probe.opened || !probe.foreign_keys_on {
        return IndexState::NeedsFullRebuild(RebuildReason::CorruptDatabase);
    }
    if let Some(reason) = probe.incompatibility {
        return IndexState::NeedsFullRebuild(reason);
    }
    let unchanged = probe.diff.added.len() == 0 && probe.diff.modified.len() == 0
        && probe.diff.deleted.len() == 0;
    if !unchanged {
        return IndexState::NeedsIncrementalUpdate(probe.diff);
    }
    if options.use_lsp {
        let never = match &probe.lsp_enrichment {
            Some(s) => str_eq(s.as_str(), "none"),
            None => true,
        };
        if never {
            return IndexState::NeedsIncrementalUpdate(probe.diff);
        }
    }
    IndexState::Ready
}

/// Whether the stored index can be used as it is.
pub fn validate_index_db(state: &IndexState) -> (r: bool)
    ensures
        r == (*state is Ready),
{
    match state {
        IndexState::Ready => true,
        _ => false,
    }
}

/// What a rebuild does for a given state of the stored index.
#[derive(Debug, Clone)]
pub enum RebuildPlan {
    /// Rebuild every file, for the reason given.
    Full(RebuildReason),
    /// Load the stored index as it is.
    Reuse,
    /// Re-parse the files of the diff.
    Incremental(IndexDiff),
}

/// The plan for a rebuild: from scratch when the index is missing (for that
/// reason) or must be rebuilt (for its reason), reuse when it is ready, an
/// incremental update otherwise.
pub open spec fn plan_of(state: IndexState) -> RebuildPlan {
    match state {
        IndexState::Missing => RebuildPlan::Full(RebuildReason::MissingDatabase),
        IndexState::NeedsFullRebuild(reason) => RebuildPlan::Full(reason),
        IndexState::Ready => RebuildPlan::Reuse,
        IndexState::NeedsIncrementalUpdate(d) => RebuildPlan::Incremental(d),
    }
}

/// The plan for a rebuild (see `plan_of`).
pub fn rebuild_index_db(state: IndexState) -> (r: RebuildPlan)
    ensures
        r == plan_of(state),
{
    match state {
        IndexState::Missing => RebuildPlan::Full(RebuildReason::MissingDatabase),
        IndexState::NeedsFullRebuild(reason) => RebuildPlan::Full(reason),
        IndexState::Ready => RebuildPlan::Reuse,
        IndexState::NeedsIncrementalUpdate(d) => RebuildPlan::Incremental(d),
    }
}

/// How many of the edges have the given confidence.
pub open spec fn count_confidence(edges: Seq<GraphEdge>, c: ResolutionConfidence) -> nat
    decreases edges.len(),
{
    if edges.len() == 0 {
        0
    } else {
        count_confidence(edges.drop_last(), c) + if edges.last().confidence == c {
            1nat
        } else {
            0nat
        }
    }
}

proof fn lemma_count_bound(edges: Seq<GraphEdge>, c: ResolutionConfidence)
    ensures
        count_confidence(edges, c) <= edges.len(),
    decreases edges.len(),
{
    if edges.len() > 0 {
        lemma_count_bound(edges.drop_last(), c);
    }
}

/// How many of the edges have the given confidence.
pub fn count_edges_with(edges: &Vec<GraphEdge>, c: ResolutionConfidence) -> (n: usize)
    ensures
        n == count_confidence(edges@, c),
{
    let mut n: usize = 0;
    let mut i: usize = 0;
    while i < edges.len()
        invariant
            i <= edges.len(),
            n == count_confidence(edges@.take(i as int), c),
            n <= i,
        decreases edges.len() - i,
    {
        proof {
            assert(edges@.take(i + 1).drop_last() =~= edges@.take(i as int));
        }
        if edges[i].confidence == c {
            n = n + 1;
        }
        i = i + 1;
    }
    assert(edges@.take(edges.len() as int) =~= edges@);
    n
}

/// The report of a rebuild that reused the stored index: nothing parsed or
/// written, every file reused, and the stored edges counted by confidence.
pub fn reuse_report(index: &CodeIndex) -> (r: BuildReport)
    ensures
        !r.full_rebuild,
        r.full_rebuild_reason is None,
        r.added_files == 0 && r.modified_files == 0 && r.deleted_files == 0,
        r.unchanged_files == index.files@.len() && r.reused_files == index.files@.len(),
        r.parsed_files == 0 && r.symbols_written == 0 && r.call_sites_written == 0,
        r.edges_written == index.edges@.len(),
        r.lsp_edges_exact == count_confidence(index.edges@, ResolutionConfidence::LspExact),
        r.syntax_edges == count_confidence(index.edges@, ResolutionConfidence::Syntax),
        r.heuristic_edges == count_confidence(index.edges@, ResolutionConfidence::Heuristic),
        r.unresolved_edges == count_confidence(index.edges@, ResolutionConfidence::Unresolved),
{
    BuildReport {
        full_rebuild: false,
        full_rebuild_reason: None,
        added_files: 0,
        modified_files: 0,
        deleted_files: 0,
        unchanged_files: index.files.len(),
        parsed_files: 0,
        reused_files: index.files.len(),
        symbols_written: 0,
        call_sites_written: 0,
        edges_written: index.edges.len(),
        lsp_edges_exact: count_edges_with(&index.edges, ResolutionConfidence::LspExact),
        syntax_edges: count_edges_with(&index.edges, ResolutionConfidence::Syntax),
        heuristic_edges: count_edges_with(&index.edges, ResolutionConfidence::Heuristic),
        unresolved_edges: count_edges_with(&index.edges, ResolutionConfidence::Unresolved),
    }
}

/// The report of an incremental update: the diff's counts, what was parsed and
/// written, and the updated index's edges counted by confidence.
pub fn incremental_report(
    diff: &IndexDiff,
    parsed_files: usize,
    symbols_written: usize,
    call_sites_written: usize,
    index: &CodeIndex,
) -> (r: BuildReport)
    ensures
        !r.full_rebuild,
        r.full_rebuild_reason is None,
        r.added_files == diff.added@.len(),
        r.modified_files == diff.modified@.len(),
        r.deleted_files == diff.deleted@.len(),
        r.unchanged_files == diff.unchanged@.len() && r.reused_files == diff.unchanged@.len(),
        r.parsed_files == parsed_files,
        r.symbols_written == symbols_written,
        r.call_sites_written == call_sites_written,
        r.edges_written == index.edges@.len(),
        r.lsp_edges_exact == count_confidence(index.edges@, ResolutionConfidence::LspExact),
        r.syntax_edges == count_confidence(index.edges@, ResolutionConfidence::Syntax),
        r.heuristic_edges == count_confidence(index.edges@, ResolutionConfidence::Heuristic),
        r.unresolved_edges == count_confidence(index.edges@, ResolutionConfidence::Unresolved),
{
    BuildReport {
        full_rebuild: false,
        full_rebuild_reason: None,
        added_files: diff.added.len(),
        modified_files: diff.modified.len(),
        deleted_files: diff.deleted.len(),
        unchanged_files: diff.unchanged.len(),
        parsed_files,
        reused_files: diff.unchanged.len(),
        symbols_written,
        call_sites_written,
        edges_written: index.edges.len(),
        lsp_edges_exact: count_edges_with(&index.edges, ResolutionConfidence::LspExact),
        syntax_edges: count_edges_with(&index.edges, ResolutionConfidence::Syntax),
        heuristic_edges: count_edges_with(&index.edges, ResolutionConfidence::Heuristic),
        unresolved_edges: count_edges_with(&index.edges, ResolutionConfidence::Unresolved),
    }
}

/// A file as the index recorded it.
#[derive(Debug, Clone)]
pub struct StoredFile {
    pub rel_path: String,
    pub language: String,
    pub backend_id: String,
    pub mtime_ms: i64,
    pub size_bytes: u64,
    pub content_hash: Option<String>,
    pub parser_id: String,
    pub parser_version: String,
    pub parser_config_hash: String,
    pub parse_status: FileParseStatus,
}

/// Whether a file the index holds changed: by time and size, or by content
/// hash; a file whose parse failed always counts as changed.
pub open spec fn file_modified(
    stored: StoredFile,
    change_detection: FileChangeDetection,
    disk_mtime: i64,
    disk_size: u64,
    disk_hash: Option<Seq<char>>,
) -> bool {
    match change_detection {
        FileChangeDetection::MtimeAndSize => disk_mtime != stored.mtime_ms || disk_size
            != stored.size_bytes || stored.parse_status == FileParseStatus::Failed,
        FileChangeDetection::ContentHash => disk_hash != opt_text(stored.content_hash)
            || stored.parse_status == FileParseStatus::Failed,
    }
}

/// The description of a file the index holds, with what was measured on disk:
/// the content hash computed now if any, else the stored one.
pub open spec fn disk_snapshot_ok(
    s: FileSnapshot,
    path: Seq<char>,
    stored: StoredFile,
    change_detection: FileChangeDetection,
    disk_mtime: i64,
    disk_size: u64,
    disk_hash: Option<Seq<char>>,
) -> bool {
    &&& s.file_id is None
    &&& s.rel_path@ == stored.rel_path@
    &&& s.abs_path@ == path
    &&& s.language.0@ == stored.language@
    &&& s.backend_id@ == stored.backend_id@
    &&& s.size_bytes == disk_size
    &&& s.mtime_ms == disk_mtime
    &&& s.mtime_ns is None
    &&& opt_text(s.content_hash) == (if change_detection == FileChangeDetection::ContentHash
        && disk_hash is Some {
        disk_hash
    } else {
        opt_text(stored.content_hash)
    })
    &&& s.parser_id@ == stored.parser_id@
    &&& s.parser_version@ == stored.parser_version@
    &&& s.parser_config_hash@ == stored.parser_config_hash@
    &&& s.indexed_at_ms is None
    &&& s.parse_status == stored.parse_status
}

/// Compares a file on disk with the index's record of it: whether it changed
/// (see `file_modified`) and its description (see `disk_snapshot_ok`). The hash
/// is what was computed from the file when changes are detected by content.
pub fn compare_file(
    path: &str,
    stored: &StoredFile,
    change_detection: FileChangeDetection,
    disk_mtime: i64,
    disk_size: u64,
    disk_hash: Option<String>,
) -> (r: (bool, FileSnapshot))
    ensures
        r.0 == file_modified(*stored, change_detection, disk_mtime, disk_size, opt_text(disk_hash)),
        disk_snapshot_ok(r.1, path@, *stored, change_detection, disk_mtime, disk_size, opt_text(disk_hash)),
{
    let failed = match stored.parse_status {
        FileParseStatus::Failed => true,
        FileParseStatus::Success => false,
    };
    let modified = match change_detection {
        FileChangeDetection::MtimeAndSize => disk_mtime != stored.mtime_ms || disk_size
            != stored.size_bytes || failed,
        FileChangeDetection::ContentHash => !opt_text_eq(&disk_hash, &stored.content_hash)
            || failed,
    };
    let hash = match change_detection {
        FileChangeDetection::ContentHash => match disk_hash {
            Some(h) => Some(h),
            None => crate::model::copy_opt_string(&stored.content_hash),
        },
        FileChangeDetection::MtimeAndSize => crate::model::copy_opt_string(&stored.content_hash),
    };
    let snapshot = FileSnapshot {
        file_id: None,
        rel_path: stored.rel_path.clone(),
        abs_path: owned(path),
        language: Language(stored.language.clone()),
        backend_id: stored.backend_id.clone(),
        size_bytes: disk_size,
        mtime_ms: disk_mtime,
        mtime_ns: None,
        content_hash: hash,
        parser_id: stored.parser_id.clone(),
        parser_version: stored.parser_version.clone(),
        parser_config_hash: stored.parser_config_hash.clone(),
        indexed_at_ms: None,
        parse_status: stored.parse_status,
    };
    (modified, snapshot)
}

/// The first invariant a stored index breaks, given how many symbols and
/// occurrences name a missing file and how many edges name a missing source or
/// target symbol; nothing when it breaks none.
pub open spec fn violation_message(
    bad_symbols: nat,
    bad_occurrences: nat,
    bad_sources: nat,
    bad_targets: nat,
) -> Option<Seq<char>> {
    if bad_symbols > 0 {
        Some("Invariant violation: "@ + decimal(bad_symbols) + " symbols with invalid file_id"@)
    } else if bad_occurrences > 0 {
        Some("Invariant violation: "@ + decimal(bad_occurrences) + " occurrences with invalid file_id"@)
    } else if bad_sources > 0 {
        Some("Invariant violation: "@ + decimal(bad_sources) + " edges with invalid source symbol id"@)
    } else if bad_targets > 0 {
        Some("Invariant violation: "@ + decimal(bad_targets) + " edges pointing to non-existent symbol"@)
    } else {
        None
    }
}

/// The first invariant a stored index breaks (see `violation_message`).
pub fn index_invariant_violation(
    bad_symbols: usize,
    bad_occurrences: usize,
    bad_sources: usize,
    bad_targets: usize,
) -> (r: Option<String>)
    ensures
        match violation_message(
            bad_symbols as nat,
            bad_occurrences as nat,
            bad_sources as nat,
            bad_targets as nat,
        ) {
            Some(m) => r matches Some(s) && s@ == m,
            None => r is None,
        },
{
    let (n, what) = if bad_symbols > 0 {
        (bad_symbols, " symbols with invalid file_id")
    } else if bad_occurrences > 0 {
        (bad_occurrences, " occurrences with invalid file_id")
    } else if bad_sources > 0 {
        (bad_sources, " edges with invalid source symbol id")
    } else if bad_targets > 0 {
        (bad_targets, " edges pointing to non-existent symbol")
    } else {
        return None;
    };
    let mut v = chars_of("Invariant violation: ");
    push_decimal(&mut v, n);
    extend_str(&mut v, what);
    Some(string_from_chars(&v))
}

} // verus!
