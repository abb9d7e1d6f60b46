//! Building the code index of a workspace from the files its backends parsed.
//!
//! The caller walks the workspace, measures and parses each file it keeps; the
//! functions here decide which paths are indexed, describe each file, gather the
//! symbols and call sites of all files (dropping tests when asked), give them
//! their ids, and resolve each call to an edge.
use vstd::prelude::*;
use crate::backend::{
    BackendKind, ParsedFile, ParserId, PythonBackend, ResolveOutput, RustBackend, backend_for,
    find_by_path, fingerprint_text,
};
use crate::hashing::{content_hash, hex_text, sha256_of};
use crate::model::{
    CallSite, CodeIndex, EdgeKind, FileChangeDetection, FileParseStatus, FileSnapshot, GraphEdge, Occurrence, OccurrenceKind,
    Language, OccurrenceId, ResolutionConfidence, Symbol, SymbolId, SymbolKind, copy_opt_string,
};
use crate::noop::{name_only_result, resolve_name_only};
use crate::paths::{components_of, path_components, relative_display, relative_path};
use crate::strings::{owned, str_eq};

verus! {

/// How an index is built.
#[derive(Debug, Clone, Copy)]
pub struct BuildIndexOptions {
    pub use_lsp: bool,
    pub max_depth: Option<usize>,
    pub include_tests: bool,
    pub change_detection: FileChangeDetection,
}

impl Default for BuildIndexOptions {
    /// No language server, no depth limit, tests included, changes detected by
    /// modification time and size.
    fn default() -> (o: BuildIndexOptions)
        ensures
            !o.use_lsp,
            o.max_depth is None,
            o.include_tests,
            o.change_detection == FileChangeDetection::MtimeAndSize,
    {
        BuildIndexOptions {
            use_lsp: false,
            max_depth: None,
            include_tests: true,
            change_detection: FileChangeDetection::MtimeAndSize,
        }
    }
}

/// A directory whose contents are never indexed.
pub open spec fn excluded_dir(c: Seq<char>) -> bool {
    c == "target"@ || c == ".git"@ || c == ".codegraph"@ || c == ".ctx-codegraph"@
}

/// A path is indexed when none of its components is an excluded directory and a
/// backend takes it.
pub open spec fn indexable(p: Seq<char>) -> bool {
    &&& forall|i: int| 0 <= i < components_of(p).len() ==> !excluded_dir(#[trigger] components_of(p)[i])
    &&& backend_for(p) is Some
}

/// Whether a path is indexed (see `indexable`).
pub fn should_index_path(path: &str) -> (r: bool)
    ensures
        r == indexable(path@),
{
    let comps = path_components(path);
    let ghost cv = comps@.map_values(|s: String| s@);
    let mut i: usize = 0;
    while i < comps.len()
        invariant
            i <= comps.len(),
            cv == comps@.map_values(|s: String| s@),
            cv == components_of(path@),
            forall|j: int| 0 <= j < i ==> !excluded_dir(#[trigger] cv[j]),
        decreases comps.len() - i,
    {
        let c = comps[i].as_str();
        assert(cv[i as int] == c@);
        if str_eq(c, "target") || str_eq(c, ".git") || str_eq(c, ".codegraph") || str_eq(
            c,
            ".ctx-codegraph",
        ) {
            return false;
        }
        i = i + 1;
    }
    find_by_path(path).is_some()
}

/// The name of a backend's language.
pub open spec fn backend_language(b: BackendKind) -> Seq<char> {
    match b {
        BackendKind::Rust => "rust"@,
        BackendKind::Python => "python"@,
    }
}

/// The id of a backend.
pub open spec fn backend_id_text(b: BackendKind) -> Seq<char> {
    match b {
        BackendKind::Rust => "rust-backend"@,
        BackendKind::Python => "python-backend"@,
    }
}

/// The description of a file to index: its path relative to the workspace root
/// (or as given outside it), what was measured of it (a size or time that could
/// not be read counts as 0), its content hash when changes are detected by
/// content (none when it could not be read), and the backend and parser that
/// take it, with the fingerprint of the options the parse depends on.
pub open spec fn snapshot_ok(
    s: FileSnapshot,
    root: Seq<char>,
    abs: Seq<char>,
    change_detection: FileChangeDetection,
    include_tests: bool,
    size_bytes: Option<u64>,
    mtime_ms: Option<i64>,
    contents: Option<Seq<u8>>,
    parser_id: Seq<char>,
    parser_version: Seq<char>,
) -> bool {
    let b = backend_for(abs)->0;
    &&& s.file_id is None
    &&& s.rel_path@ == relative_display(abs, root)
    &&& s.abs_path@ == abs
    &&& s.language.0@ == backend_language(b)
    &&& s.backend_id@ == backend_id_text(b)
    &&& s.size_bytes == (match size_bytes {
        Some(n) => n,
        None => 0,
    })
    &&& s.mtime_ms == (match mtime_ms {
        Some(t) => t,
        None => 0,
    })
    &&& s.mtime_ns is None
    &&& (if change_detection == FileChangeDetection::ContentHash {
        match contents {
            Some(c) => s.content_hash matches Some(h) && h@ == hex_text(sha256_of(c)),
            None => s.content_hash is None,
        }
    } else {
        s.content_hash is None
    })
    &&& s.parser_id@ == parser_id
    &&& s.parser_version@ == parser_version
    &&& s.parser_config_hash@ == fingerprint_text(
        BuildIndexOptions { use_lsp: false, max_depth: None, include_tests, change_detection },
    )
    &&& s.indexed_at_ms is None
    &&& s.parse_status == FileParseStatus::Success
}

/// Describes a file to index (see `snapshot_ok`), from what the caller measured
/// and read of it.
pub fn create_file_snapshot(
    workspace_root: &str,
    abs_path: &str,
    change_detection: FileChangeDetection,
    include_tests: bool,
    size_bytes: Option<u64>,
    mtime_ms: Option<i64>,
    contents: Option<&[u8]>,
    parser_id: &ParserId,
    parser_version: &str,
) -> (s: FileSnapshot)
    requires
        backend_for(abs_path@) is Some,
    ensures
        snapshot_ok(
            s,
            workspace_root@,
            abs_path@,
            change_detection,
            include_tests,
            size_bytes,
            mtime_ms,
            match contents {
                Some(c) => Some(c@),
                None => None,
            },
            parser_id.0@,
            parser_version@,
        ),
{
    let rel = relative_path(abs_path, workspace_root);
    let hash = match change_detection {
        FileChangeDetection::ContentHash => match contents {
            Some(c) => Some(content_hash(c)),
            None => None,
        },
        FileChangeDetection::MtimeAndSize => None,
    };
    let config = BuildIndexOptions {
        use_lsp: false,
        max_depth: None,
        include_tests,
        change_detection,
    };
    let (language, backend_id, fingerprint) = match find_by_path(abs_path) {
        Some(BackendKind::Rust) => {
            let b = RustBackend::new();
            (b.language(), b.id().0, b.config_fingerprint(&config))
        },
        _ => {
            let b = PythonBackend::new();
            (b.language(), b.id().0, b.config_fingerprint(&config))
        },
    };
    FileSnapshot {
        file_id: None,
        rel_path: rel,
        abs_path: owned(abs_path),
        language,
        backend_id,
        size_bytes: match size_bytes {
            Some(n) => n,
            None => 0,
        },
        mtime_ms: match mtime_ms {
            Some(t) => t,
            None => 0,
        },
        mtime_ns: None,
        content_hash: hash,
        parser_id: parser_id.0.clone(),
        parser_version: owned(parser_version),
        parser_config_hash: fingerprint,
        indexed_at_ms: None,
        parse_status: FileParseStatus::Success,
    }
}

/// How many of the first `n` symbols are not tests.
pub open spec fn kept_count(syms: Seq<Symbol>, n: nat) -> nat
    decreases n,
{
    if n == 0 {
        0
    } else {
        kept_count(syms, (n - 1) as nat) + if syms[n - 1].kind == SymbolKind::Test {
            0nat
        } else {
            1nat
        }
    }
}

/// The symbols that are not tests, in order.
pub open spec fn non_tests(syms: Seq<Symbol>) -> Seq<Symbol>
    decreases syms.len(),
{
    if syms.len() == 0 {
        Seq::empty()
    } else if syms.last().kind == SymbolKind::Test {
        non_tests(syms.drop_last())
    } else {
        non_tests(syms.drop_last()).push(syms.last())
    }
}

/// Where the symbol at position `old` lands once tests are dropped: nowhere if it
/// is a test or there is no such symbol.
pub open spec fn remapped(syms: Seq<Symbol>, old: usize) -> Option<usize> {
    if old < syms.len() && syms[old as int].kind != SymbolKind::Test {
        Some(kept_count(syms, old as nat) as usize)
    } else {
        None
    }
}

/// The call sites kept once tests are dropped, with their enclosing symbol's new
/// position: a call site inside a dropped symbol is dropped too.
pub open spec fn kept_sites(syms: Seq<Symbol>, sites: Seq<CallSite>) -> Seq<CallSite>
    decreases sites.len(),
{
    if sites.len() == 0 {
        Seq::empty()
    } else {
        let rest = kept_sites(syms, sites.drop_last());
        let cs = sites.last();
        match cs.from_temp_index {
            None => rest.push(cs),
            Some(i) => match remapped(syms, i) {
                Some(j) => rest.push(CallSite { from_temp_index: Some(j), ..cs }),
                None => rest,
            },
        }
    }
}

/// Call sites with their enclosing symbol's position moved up by `offset`.
pub open spec fn shifted_sites(sites: Seq<CallSite>, offset: nat) -> Seq<CallSite> {
    sites.map_values(
        |cs: CallSite|
            match cs.from_temp_index {
                Some(i) => CallSite { from_temp_index: Some((i + offset) as usize), ..cs },
                None => cs,
            },
    )
}

fn copy_call_site(cs: &CallSite, from_temp_index: Option<usize>) -> (r: CallSite)
    ensures
        r == (CallSite { from_temp_index, ..*cs }),
{
    CallSite {
        id: cs.id,
        file_id: cs.file_id,
        from: cs.from,
        from_temp_index,
        raw_name: cs.raw_name.clone(),
        file: cs.file.clone(),
        range: cs.range,
    }
}

pub(crate) fn copy_symbol(s: &Symbol) -> (r: Symbol)
    ensures
        r == *s,
{
    Symbol {
        id: s.id,
        file_id: s.file_id,
        name: s.name.clone(),
        qualified_name: s.qualified_name.clone(),
        kind: s.kind,
        language: Language(s.language.0.clone()),
        file: s.file.clone(),
        range: s.range,
        body_range: s.body_range,
    }
}

proof fn lemma_kept_count_bound(syms: Seq<Symbol>, n: nat)
    requires
        n <= syms.len(),
    ensures
        kept_count(syms, n) <= n,
        kept_count(syms, n) == non_tests(syms.take(n as int)).len(),
    decreases n,
{
    if n > 0 {
        lemma_kept_count_bound(syms, (n - 1) as nat);
        assert(syms.take(n as int).drop_last() =~= syms.take(n - 1));
    } else {
        assert(syms.take(0) =~= Seq::<Symbol>::empty());
    }
}

proof fn lemma_kept_sites_bound(syms: Seq<Symbol>, sites: Seq<CallSite>)
    ensures
        forall|k: int|
            0 <= k < kept_sites(syms, sites).len() ==> ((#[trigger] kept_sites(syms, sites)[k]).from_temp_index matches Some(
                x,
            ) ==> x < non_tests(syms).len()),
    decreases sites.len(),
{
    if sites.len() > 0 {
        lemma_kept_sites_bound(syms, sites.drop_last());
        let cs = sites.last();
        match cs.from_temp_index {
            Some(i) => {
                if i < syms.len() && syms[i as int].kind != SymbolKind::Test {
                    lemma_kept_count_bound(syms, i as nat);
                    lemma_kept_count_bound(syms, syms.len());
                    lemma_kept_count_mono(syms, i as nat + 1, syms.len());
                    assert(syms.take(syms.len() as int) =~= syms);
                }
            },
            None => {},
        }
    }
}

proof fn lemma_kept_count_mono(syms: Seq<Symbol>, a: nat, b: nat)
    requires
        a <= b <= syms.len(),
    ensures
        kept_count(syms, a) <= kept_count(syms, b),
    decreases b - a,
{
    if a < b {
        lemma_kept_count_mono(syms, a, (b - 1) as nat);
    }
}

/// Dropping tests leaves no test among the symbols, and every call site kept
/// inside a symbol points at one of the symbols kept.
pub proof fn law_dropped_tests_point_at_kept_symbols(syms: Seq<Symbol>, sites: Seq<CallSite>)
    ensures
        forall|k: int| 0 <= k < non_tests(syms).len() ==> (#[trigger] non_tests(syms)[k]).kind != SymbolKind::Test,
        forall|k: int|
            0 <= k < kept_sites(syms, sites).len() ==> ((#[trigger] kept_sites(syms, sites)[k]).from_temp_index matches Some(
                x,
            ) ==> x < non_tests(syms).len()),
    decreases syms.len(),
{
    lemma_kept_sites_bound(syms, sites);
    if syms.len() > 0 {
        law_dropped_tests_point_at_kept_symbols(syms.drop_last(), Seq::empty());
        let pre = non_tests(syms.drop_last());
        assert forall|k: int| 0 <= k < non_tests(syms).len() implies (#[trigger] non_tests(syms)[k]).kind
            != SymbolKind::Test by {
            if k < pre.len() {
                assert(non_tests(syms)[k] == pre[k]);
            }
        }
    }
}

/// Drops the test symbols of one file, and the call sites inside them, moving
/// the others' enclosing-symbol positions to match.
pub fn drop_tests(symbols: &Vec<Symbol>, sites: &Vec<CallSite>) -> (r: (Vec<Symbol>, Vec<CallSite>))
    ensures
        r.0@ == non_tests(symbols@),
        r.1@ == kept_sites(symbols@, sites@),
{
    let mut kept: Vec<Symbol> = Vec::new();
    let mut map: Vec<Option<usize>> = Vec::new();
    let mut i: usize = 0;
    while i < symbols.len()
        invariant
            i <= symbols.len(),
            kept@ == non_tests(symbols@.take(i as int)),
            kept.len() == kept_count(symbols@, i as nat),
            map.len() == i,
            forall|k: int| 0 <= k < i ==> #[trigger] map@[k] == remapped(symbols@, k as usize),
        decreases symbols.len() - i,
    {
        proof {
            assert(symbols@.take(i + 1).drop_last() =~= symbols@.take(i as int));
            assert(symbols@.take(i + 1).last() == symbols@[i as int]);
            lemma_kept_count_bound(symbols@, i as nat);
        }
        if symbols[i].kind == SymbolKind::Test {
            map.push(None);
        } else {
            map.push(Some(kept.len()));
            kept.push(copy_symbol(&symbols[i]));
        }
        i = i + 1;
    }
    assert(symbols@.take(symbols.len() as int) =~= symbols@);
    let mut out: Vec<CallSite> = Vec::new();
    let mut j: usize = 0;
    while j < sites.len()
        invariant
            j <= sites.len(),
            map.len() == symbols.len(),
            forall|k: int| 0 <= k < map.len() ==> #[trigger] map@[k] == remapped(symbols@, k as usize),
            out@ == kept_sites(symbols@, sites@.take(j as int)),
        decreases sites.len() - j,
    {
        proof {
            assert(sites@.take(j + 1).drop_last() =~= sites@.take(j as int));
            assert(sites@.take(j + 1).last() == sites@[j as int]);
        }
        let cs = &sites[j];
        match cs.from_temp_index {
            None => {
                out.push(copy_call_site(cs, None));
            },
            Some(old) => {
                let target = if old < map.len() {
                    map[old]
                } else {
                    None
                };
                match target {
                    Some(new_idx) => {
                        out.push(copy_call_site(cs, Some(new_idx)));
                    },
                    None => {},
                }
            },
        }
        j = j + 1;
    }
    assert(sites@.take(sites.len() as int) =~= sites@);
    (kept, out)
}

/// The files, symbols and call sites gathered so far.
pub struct IndexBuilder {
    pub files: Vec<FileSnapshot>,
    pub symbols: Vec<Symbol>,
    pub call_sites: Vec<CallSite>,
}

impl IndexBuilder {
    pub fn new() -> (b: IndexBuilder)
        ensures
            b.files@.len() == 0 && b.symbols@.len() == 0 && b.call_sites@.len() == 0,
    {
        IndexBuilder { files: Vec::new(), symbols: Vec::new(), call_sites: Vec::new() }
    }

    /// Adds one file. A file that could not be parsed is recorded as failed and
    /// adds nothing else. A parsed file adds its symbols (without tests, unless
    /// they are included) and its call sites, whose enclosing-symbol positions
    /// are moved past the symbols gathered before.
    pub fn add_file(&mut self, snapshot: FileSnapshot, parsed: Option<ParsedFile>, include_tests: bool)
        requires
            parsed matches Some(p) ==> old(self).symbols.len() + p.symbols.len() <= usize::MAX,
            parsed matches Some(p) ==> forall|k: int|
                0 <= k < p.call_sites.len() ==> ((#[trigger] p.call_sites@[k]).from_temp_index matches Some(
                    x,
                ) ==> old(self).symbols.len() + x <= usize::MAX),
        ensures
            parsed is None ==> final(self).files@ == old(self).files@.push(
                FileSnapshot { parse_status: FileParseStatus::Failed, ..snapshot },
            ),
            parsed is None ==> final(self).symbols == old(self).symbols,
            parsed is None ==> final(self).call_sites == old(self).call_sites,
            parsed is Some ==> {
                let p = parsed->0;
                let syms = if include_tests {
                    p.symbols@
                } else {
                    non_tests(p.symbols@)
                };
                let sites = if include_tests {
                    p.call_sites@
                } else {
                    kept_sites(p.symbols@, p.call_sites@)
                };
                &&& final(self).files@ == old(self).files@.push(snapshot)
                &&& final(self).symbols@ == old(self).symbols@ + syms
                &&& final(self).call_sites@ == old(self).call_sites@ + shifted_sites(
                    sites,
                    old(self).symbols.len() as nat,
                )
            },
    {
        match parsed {
            None => {
                let mut s = snapshot;
                s.parse_status = FileParseStatus::Failed;
                assert(s == (FileSnapshot { parse_status: FileParseStatus::Failed, ..snapshot }));
                self.files.push(s);
            },
            Some(p) => {
                self.files.push(snapshot);
                let ghost f1 = self.files@;
                let (syms, sites) = if include_tests {
                    (p.symbols, p.call_sites)
                } else {
                    drop_tests(&p.symbols, &p.call_sites)
                };
                proof {
                    if !include_tests {
                        lemma_kept_count_bound(p.symbols@, p.symbols.len() as nat);
                        assert(p.symbols@.take(p.symbols.len() as int) =~= p.symbols@);
                        lemma_kept_sites_bound(p.symbols@, p.call_sites@);
                    }
                }
                let offset = self.symbols.len();
                let ghost s0 = self.symbols@;
                let ghost c0 = self.call_sites@;
                let mut i: usize = 0;
                while i < sites.len()
                    invariant
                        i <= sites.len(),
                        self.files@ == f1,
                        offset == s0.len(),
                        offset + syms.len() <= usize::MAX,
                        self.symbols@ == s0,
                        forall|k: int|
                            0 <= k < sites.len() ==> ((#[trigger] sites@[k]).from_temp_index matches Some(x)
                                ==> offset + x <= usize::MAX),
                        self.call_sites@ == c0 + shifted_sites(sites@.take(i as int), offset as nat),
                    decreases sites.len() - i,
                {
                    let cs = &sites[i];
                    let idx = match cs.from_temp_index {
                        Some(x) => Some(x + offset),
                        None => None,
                    };
                    self.call_sites.push(copy_call_site(cs, idx));
                    i = i + 1;
                    assert(self.call_sites@ =~= c0 + shifted_sites(
                        sites@.take(i as int),
                        offset as nat,
                    ));
                }
                assert(sites@.take(sites.len() as int) =~= sites@);
                let mut k: usize = 0;
                while k < syms.len()
                    invariant
                        k <= syms.len(),
                        self.files@ == f1,
                        self.symbols@ == s0 + syms@.take(k as int),
                        self.call_sites@ == c0 + shifted_sites(sites@, offset as nat),
                    decreases syms.len() - k,
                {
                    self.symbols.push(copy_symbol(&syms[k]));
                    k = k + 1;
                    assert(self.symbols@ =~= s0 + syms@.take(k as int));
                }
                assert(syms@.take(syms.len() as int) =~= syms@);
            },
        }
    }
}

/// A symbol with the id given by its position.
pub open spec fn with_position_id(s: Symbol, i: int) -> Symbol {
    Symbol { id: Some(SymbolId(i as i64)), ..s }
}

/// A call site with its enclosing symbol's id, given by that symbol's position.
pub open spec fn with_enclosing_id(cs: CallSite) -> CallSite {
    match cs.from_temp_index {
        Some(x) => CallSite { from: Some(SymbolId(x as i64)), ..cs },
        None => cs,
    }
}

impl IndexBuilder {
    /// The gathered files; the symbols with ids by position; the call sites with
    /// their enclosing symbol's id.
    pub fn finish(self) -> (r: (Vec<FileSnapshot>, Vec<Symbol>, Vec<CallSite>))
        ensures
            r.0 == self.files,
            r.1@.len() == self.symbols@.len(),
            forall|i: int| 0 <= i < r.1@.len() ==> #[trigger] r.1@[i] == with_position_id(self.symbols@[i], i),
            r.2@ == self.call_sites@.map_values(|cs: CallSite| with_enclosing_id(cs)),
    {
        let IndexBuilder { files, symbols, call_sites } = self;
        let mut syms: Vec<Symbol> = Vec::new();
        let mut i: usize = 0;
        while i < symbols.len()
            invariant
                i <= symbols.len(),
                syms@.len() == i,
                forall|k: int| 0 <= k < i ==> #[trigger] syms@[k] == with_position_id(symbols@[k], k),
            decreases symbols.len() - i,
        {
            let mut s = copy_symbol(&symbols[i]);
            s.id = Some(SymbolId(i as i64));
            syms.push(s);
            i = i + 1;
        }
        let mut sites: Vec<CallSite> = Vec::new();
        let mut j: usize = 0;
        while j < call_sites.len()
            invariant
                j <= call_sites.len(),
                sites@ == call_sites@.take(j as int).map_values(|cs: CallSite| with_enclosing_id(cs)),
            decreases call_sites.len() - j,
        {
            let cs = &call_sites[j];
            let mut c = copy_call_site(cs, cs.from_temp_index);
            match cs.from_temp_index {
                Some(x) => {
                    c.from = Some(SymbolId(x as i64));
                },
                None => {},
            }
            sites.push(c);
            j = j + 1;
            assert(sites@ =~= call_sites@.take(j as int).map_values(
                |cs: CallSite| with_enclosing_id(cs),
            ));
        }
        assert(call_sites@.take(call_sites.len() as int) =~= call_sites@);
        (files, syms, sites)
    }
}

/// The symbol id of a position, if any.
pub open spec fn position_id(i: Option<usize>) -> Option<SymbolId> {
    match i {
        Some(x) => Some(SymbolId(x as i64)),
        None => None,
    }
}

/// The positions of the call sites that lie inside a symbol; each becomes an edge.
pub open spec fn edge_sites(sites: Seq<CallSite>) -> Seq<int>
    decreases sites.len(),
{
    if sites.len() == 0 {
        Seq::empty()
    } else if sites.last().from is Some {
        edge_sites(sites.drop_last()).push(sites.len() - 1)
    } else {
        edge_sites(sites.drop_last())
    }
}

/// The positions of edge sites are positions of call sites.
proof fn lemma_edge_sites_range(sites: Seq<CallSite>)
    ensures
        forall|t: int|
            0 <= t < edge_sites(sites).len() ==> 0 <= #[trigger] edge_sites(sites)[t] < sites.len(),
    decreases sites.len(),
{
    if sites.len() > 0 {
        let pre = edge_sites(sites.drop_last());
        lemma_edge_sites_range(sites.drop_last());
        assert forall|t: int| 0 <= t < edge_sites(sites).len() implies 0 <= #[trigger] edge_sites(
            sites,
        )[t] < sites.len() by {
            if t < pre.len() {
                assert(edge_sites(sites)[t] == pre[t]);
            }
        }
    }
}

/// The call edge for the `k`-th call site: from its enclosing symbol to the
/// symbol the language server found, or else to the one its name designates.
pub open spec fn call_edge_ok(
    e: GraphEdge,
    k: int,
    cs: CallSite,
    symbols: Seq<Symbol>,
    lsp: Option<ResolveOutput>,
) -> bool {
    &&& e.id is None
    &&& e.kind == EdgeKind::Call
    &&& e.from_file_id is None
    &&& e.from_symbol_id == cs.from
    &&& e.to_external is None
    &&& e.occurrence_id == Some(OccurrenceId(k as i64))
    &&& e.raw_text matches Some(t) && t@ == cs.raw_name@
    &&& e.range == Some(cs.range)
    &&& e.produced_by is None
    &&& match lsp_answer(lsp) {
        Some((i, c)) => e.to_symbol_id == Some(SymbolId(i as i64)) && e.confidence == c,
        None => exists|r: (Option<usize>, ResolutionConfidence)|
            name_only_result(cs.raw_name@, symbols, cs.file@, r) && e.to_symbol_id == position_id(
                r.0,
            ) && e.confidence == r.1,
    }
}

/// The symbol the language server resolved a call to, with its confidence.
pub open spec fn lsp_answer(lsp: Option<ResolveOutput>) -> Option<(usize, ResolutionConfidence)> {
    match lsp {
        Some(out) => match out.resolved_symbol_index {
            Some(i) => Some((i, out.confidence)),
            None => None,
        },
        None => None,
    }
}

/// Resolves each call site inside a symbol to a call edge, in order (see
/// `call_edge_ok`); `lsp[k]` is what the language server answered for the `k`-th
/// call site, when it was asked and answered.
pub fn call_edges(symbols: &Vec<Symbol>, sites: &Vec<CallSite>, lsp: &Vec<Option<ResolveOutput>>) -> (r: Vec<
    GraphEdge,
>)
    requires
        lsp.len() == sites.len(),
    ensures
        r@.len() == edge_sites(sites@).len(),
        forall|q: int|
            0 <= q < r@.len() ==> call_edge_ok(
                #[trigger] r@[q],
                edge_sites(sites@)[q],
                sites@[edge_sites(sites@)[q]],
                symbols@,
                lsp@[edge_sites(sites@)[q]],
            ),
{
    let mut edges: Vec<GraphEdge> = Vec::new();
    let mut k: usize = 0;
    while k < sites.len()
        invariant
            k <= sites.len(),
            lsp.len() == sites.len(),
            edges@.len() == edge_sites(sites@.take(k as int)).len(),
            forall|t: int| 0 <= t < edge_sites(sites@.take(k as int)).len() ==> #[trigger] edge_sites(sites@.take(k as int))[t] < k,
            forall|q: int|
                0 <= q < edges@.len() ==> call_edge_ok(
                    #[trigger] edges@[q],
                    edge_sites(sites@.take(k as int))[q],
                    sites@[edge_sites(sites@.take(k as int))[q]],
                    symbols@,
                    lsp@[edge_sites(sites@.take(k as int))[q]],
                ),
        decreases sites.len() - k,
    {
        proof {
            assert(sites@.take(k + 1).drop_last() =~= sites@.take(k as int));
            assert(sites@.take(k + 1).last() == sites@[k as int]);
        }
        let cs = &sites[k];
        if cs.from.is_some() {
            let lsp_hit = match &lsp[k] {
                Some(out) => match out.resolved_symbol_index {
                    Some(i) => Some((i, out.confidence)),
                    None => None,
                },
                None => None,
            };
            let (to, confidence) = match lsp_hit {
                Some((i, c)) => (Some(SymbolId(i as i64)), c),
                None => {
                    let r = resolve_name_only(cs.raw_name.as_str(), symbols.as_slice(), cs.file.as_str());
                    let to = match r.0 {
                        Some(i) => Some(SymbolId(i as i64)),
                        None => None,
                    };
                    (to, r.1)
                },
            };
            let e = GraphEdge {
                id: None,
                kind: EdgeKind::Call,
                from_file_id: None,
                from_symbol_id: cs.from,
                to_symbol_id: to,
                to_external: None,
                occurrence_id: Some(OccurrenceId(k as i64)),
                raw_text: Some(cs.raw_name.clone()),
                range: Some(cs.range),
                confidence,
                produced_by: None,
            };
            let ghost e0 = edges@;
            edges.push(e);
            proof {
                let es = edge_sites(sites@.take(k + 1));
                assert(es == edge_sites(sites@.take(k as int)).push(k as int));
                assert forall|q: int| 0 <= q < edges@.len() implies call_edge_ok(
                    #[trigger] edges@[q],
                    es[q],
                    sites@[es[q]],
                    symbols@,
                    lsp@[es[q]],
                ) by {
                    if q < e0.len() {
                        assert(edges@[q] == e0[q]);
                    }
                }
            }
        }
        k = k + 1;
    }
    assert(sites@.take(sites.len() as int) =~= sites@);
    edges
}

/// The positions of the call occurrences that lie inside a symbol; each becomes
/// an edge.
pub open spec fn call_occurrences(occs: Seq<Occurrence>) -> Seq<int>
    decreases occs.len(),
{
    if occs.len() == 0 {
        Seq::empty()
    } else if occs.last().kind == OccurrenceKind::Call && occs.last().enclosing_symbol is Some {
        call_occurrences(occs.drop_last()).push(occs.len() - 1)
    } else {
        call_occurrences(occs.drop_last())
    }
}

/// The stored id of the symbol at a position, if there is one.
pub open spec fn symbol_db_id(symbols: Seq<Symbol>, i: Option<usize>) -> Option<SymbolId> {
    match i {
        Some(k) => if k < symbols.len() {
            symbols[k as int].id
        } else {
            None
        },
        None => None,
    }
}

/// The edge for a stored call occurrence, resolved again against the stored
/// symbols: to the symbol the language server found, or else to the one its text
/// designates; recorded as produced by `producer`.
pub open spec fn occurrence_edge_ok(
    e: GraphEdge,
    o: Occurrence,
    symbols: Seq<Symbol>,
    lsp: Option<ResolveOutput>,
    producer: Seq<char>,
) -> bool {
    &&& e.id is None
    &&& e.kind == EdgeKind::Call
    &&& e.from_file_id == o.file_id
    &&& e.from_symbol_id == o.enclosing_symbol
    &&& e.to_external is None
    &&& e.occurrence_id == o.id
    &&& e.raw_text matches Some(t) && t@ == o.raw_text@
    &&& e.range == Some(o.range)
    &&& e.produced_by matches Some(p) && p@ == producer
    &&& match lsp_answer(lsp) {
        Some((i, c)) => e.to_symbol_id == symbol_db_id(symbols, Some(i)) && e.confidence == c,
        None => exists|r: (Option<usize>, ResolutionConfidence)|
            name_only_result(o.raw_text@, symbols, o.file@, r) && e.to_symbol_id == symbol_db_id(
                symbols,
                r.0,
            ) && e.confidence == r.1,
    }
}

/// The edges for stored occurrences being resolved again: one for each call
/// occurrence inside a symbol, in order (see `occurrence_edge_ok`); `lsp[k]` is
/// what the language server answered for the `k`-th occurrence, and
/// `producers[k]` the resolver its file's backend names.
pub fn occurrence_edges(
    occs: &Vec<Occurrence>,
    symbols: &Vec<Symbol>,
    lsp: &Vec<Option<ResolveOutput>>,
    producers: &Vec<String>,
) -> (r: Vec<GraphEdge>)
    requires
        lsp.len() == occs.len(),
        producers.len() == occs.len(),
        forall|k: int|
            0 <= k < occs.len() ==> (#[trigger] lsp@[k] matches Some(out) ==> (out.resolved_symbol_index matches Some(
                i,
            ) ==> i < symbols.len())),
    ensures
        r@.len() == call_occurrences(occs@).len(),
        forall|q: int|
            0 <= q < r@.len() ==> occurrence_edge_ok(
                #[trigger] r@[q],
                occs@[call_occurrences(occs@)[q]],
                symbols@,
                lsp@[call_occurrences(occs@)[q]],
                producers@[call_occurrences(occs@)[q]]@,
            ),
{
    let mut edges: Vec<GraphEdge> = Vec::new();
    let mut k: usize = 0;
    while k < occs.len()
        invariant
            k <= occs.len(),
            lsp.len() == occs.len(),
            producers.len() == occs.len(),
            edges@.len() == call_occurrences(occs@.take(k as int)).len(),
            forall|t: int|
                0 <= t < call_occurrences(occs@.take(k as int)).len() ==> #[trigger] call_occurrences(
                    occs@.take(k as int),
                )[t] < k,
            forall|q: int|
                0 <= q < edges@.len() ==> occurrence_edge_ok(
                    #[trigger] edges@[q],
                    occs@[call_occurrences(occs@.take(k as int))[q]],
                    symbols@,
                    lsp@[call_occurrences(occs@.take(k as int))[q]],
                    producers@[call_occurrences(occs@.take(k as int))[q]]@,
                ),
        decreases occs.len() - k,
    {
        proof {
            assert(occs@.take(k + 1).drop_last() =~= occs@.take(k as int));
            assert(occs@.take(k + 1).last() == occs@[k as int]);
        }
        let o = &occs[k];
        let is_call = match o.kind {
            OccurrenceKind::Call => true,
            _ => false,
        };
        if is_call && o.enclosing_symbol.is_some() {
            let lsp_hit = match &lsp[k] {
                Some(out) => match out.resolved_symbol_index {
                    Some(i) => Some((i, out.confidence)),
                    None => None,
                },
                None => None,
            };
            let (idx, confidence) = match lsp_hit {
                Some((i, c)) => (Some(i), c),
                None => resolve_name_only(o.raw_text.as_str(), symbols.as_slice(), o.file.as_str()),
            };
            let to = match idx {
                Some(i) => if i < symbols.len() {
                    symbols[i].id
                } else {
                    None
                },
                None => None,
            };
            let e = GraphEdge {
                id: None,
                kind: EdgeKind::Call,
                from_file_id: o.file_id,
                from_symbol_id: o.enclosing_symbol,
                to_symbol_id: to,
                to_external: None,
                occurrence_id: o.id,
                raw_text: Some(o.raw_text.clone()),
                range: Some(o.range),
                confidence,
                produced_by: Some(producers[k].clone()),
            };
            let ghost e0 = edges@;
            edges.push(e);
            proof {
                let es = call_occurrences(occs@.take(k + 1));
                assert(es == call_occurrences(occs@.take(k as int)).push(k as int));
                assert forall|q: int| 0 <= q < edges@.len() implies occurrence_edge_ok(
                    #[trigger] edges@[q],
                    occs@[es[q]],
                    symbols@,
                    lsp@[es[q]],
                    producers@[es[q]]@,
                ) by {
                    if q < e0.len() {
                        assert(edges@[q] == e0[q]);
                    }
                }
            }
        }
        k = k + 1;
    }
    assert(occs@.take(occs.len() as int) =~= occs@);
    edges
}

/// The index of a workspace from its files, symbols, call sites and edges.
pub fn code_index(
    root: &str,
    files: Vec<FileSnapshot>,
    symbols: Vec<Symbol>,
    call_sites: Vec<CallSite>,
    edges: Vec<GraphEdge>,
) -> (i: CodeIndex)
    ensures
        i.root@ == root@,
        i.files == files,
        i.symbols == symbols,
        i.occurrences@.len() == 0,
        i.call_sites == call_sites,
        i.edges == edges,
{
    CodeIndex { root: owned(root), files, symbols, occurrences: Vec::new(), call_sites, edges }
}

/// A file found under the workspace root: its path, what the caller measured
/// and read of it, the parser that took it, and what that parser made of it
/// (nothing when parsing failed).
pub struct FileInput {
    pub path: String,
    pub size_bytes: Option<u64>,
    pub mtime_ms: Option<i64>,
    pub contents: Option<Vec<u8>>,
    pub parser_id: ParserId,
    pub parser_version: String,
    pub parsed: Option<ParsedFile>,
}

/// The inputs whose paths are indexed, in order.
pub open spec fn kept_inputs(files: Seq<FileInput>) -> Seq<FileInput>
    decreases files.len(),
{
    if files.len() == 0 {
        Seq::empty()
    } else if indexable(files.last().path@) {
        kept_inputs(files.drop_last()).push(files.last())
    } else {
        kept_inputs(files.drop_last())
    }
}

/// The symbols a file adds: none when it was not parsed; its tests dropped
/// unless they are included.
pub open spec fn file_symbols(f: FileInput, include_tests: bool) -> Seq<Symbol> {
    match f.parsed {
        Some(p) => if include_tests {
            p.symbols@
        } else {
            non_tests(p.symbols@)
        },
        None => Seq::empty(),
    }
}

/// The call sites a file adds, with enclosing-symbol positions within the file.
pub open spec fn file_sites(f: FileInput, include_tests: bool) -> Seq<CallSite> {
    match f.parsed {
        Some(p) => if include_tests {
            p.call_sites@
        } else {
            kept_sites(p.symbols@, p.call_sites@)
        },
        None => Seq::empty(),
    }
}

/// The symbols of the files, in order.
pub open spec fn gathered_symbols(files: Seq<FileInput>, include_tests: bool) -> Seq<Symbol>
    decreases files.len(),
{
    if files.len() == 0 {
        Seq::empty()
    } else {
        gathered_symbols(files.drop_last(), include_tests) + file_symbols(files.last(), include_tests)
    }
}

/// The call sites of the files, in order, each enclosing-symbol position moved
/// past the symbols of the files before.
pub open spec fn gathered_sites(files: Seq<FileInput>, include_tests: bool) -> Seq<CallSite>
    decreases files.len(),
{
    if files.len() == 0 {
        Seq::empty()
    } else {
        gathered_sites(files.drop_last(), include_tests) + shifted_sites(
            file_sites(files.last(), include_tests),
            gathered_symbols(files.drop_last(), include_tests).len(),
        )
    }
}

/// The bytes read of a file, as a sequence.
pub open spec fn bytes_view(c: Option<Vec<u8>>) -> Option<Seq<u8>> {
    match c {
        Some(b) => Some(b@),
        None => None,
    }
}

/// The description of a kept input (see `snapshot_ok`), marked failed when its
/// parser gave nothing.
pub open spec fn input_snapshot_ok(s: FileSnapshot, root: Seq<char>, f: FileInput, options: BuildIndexOptions) -> bool {
    &&& snapshot_ok(
        FileSnapshot { parse_status: FileParseStatus::Success, ..s },
        root,
        f.path@,
        options.change_detection,
        options.include_tests,
        f.size_bytes,
        f.mtime_ms,
        bytes_view(f.contents),
        f.parser_id.0@,
        f.parser_version@,
    )
    &&& s.parse_status == (if f.parsed is None {
        FileParseStatus::Failed
    } else {
        FileParseStatus::Success
    })
}

/// A file's symbol positions, and its call sites' enclosing-symbol positions,
/// fit in a `usize` once moved past `before` symbols.
pub open spec fn fits_after(f: FileInput, before: nat) -> bool {
    f.parsed matches Some(p) ==> {
        &&& before + p.symbols.len() <= usize::MAX
        &&& forall|j: int|
            0 <= j < p.call_sites.len() ==> ((#[trigger] p.call_sites@[j]).from_temp_index matches Some(
                x,
            ) ==> before + x <= usize::MAX)
    }
}

/// Every symbol position, and every enclosing-symbol position of a call site
/// moved past the symbols before its file, fits in a `usize`.
pub open spec fn positions_fit(kept: Seq<FileInput>, include_tests: bool) -> bool {
    forall|k: int|
        0 <= k < kept.len() ==> fits_after(#[trigger] kept[k], gathered_symbols(kept.take(k), include_tests).len())
}

/// The edges of an index: one per call site inside a symbol, resolved by name
/// (see `call_edge_ok`).
pub open spec fn name_edges_ok(edges: Seq<GraphEdge>, symbols: Seq<Symbol>, sites: Seq<CallSite>) -> bool {
    &&& edges.len() == edge_sites(sites).len()
    &&& forall|q: int|
        0 <= q < edges.len() ==> call_edge_ok(
            #[trigger] edges[q],
            edge_sites(sites)[q],
            sites[edge_sites(sites)[q]],
            symbols,
            None,
        )
}

/// The inputs kept from a prefix lead the inputs kept from the whole.
proof fn lemma_kept_prefix(files: Seq<FileInput>, m: int)
    requires
        0 <= m <= files.len(),
    ensures
        kept_inputs(files.take(m)).len() <= kept_inputs(files).len(),
        kept_inputs(files).take(kept_inputs(files.take(m)).len() as int) == kept_inputs(files.take(m)),
    decreases files.len(),
{
    if m == files.len() {
        assert(files.take(m) =~= files);
        assert(kept_inputs(files).take(kept_inputs(files).len() as int) =~= kept_inputs(files));
    } else {
        assert(files.drop_last().take(m) =~= files.take(m));
        lemma_kept_prefix(files.drop_last(), m);
        let a = kept_inputs(files.take(m));
        let whole = kept_inputs(files);
        let pre = kept_inputs(files.drop_last());
        assert(whole.take(a.len() as int) =~= pre.take(a.len() as int));
    }
}

/// The index of the workspace at `root` from the files found under it, in the
/// order found: the files whose paths are indexed, each described (see
/// `input_snapshot_ok`); their symbols, with ids by position; their call sites,
/// each with its enclosing symbol's id; and an edge for each call site inside a
/// symbol, resolved by name (`call_edges` rebuilds them from language-server
/// answers).
pub fn build_index(root: &str, options: BuildIndexOptions, files: Vec<FileInput>) -> (r: CodeIndex)
    requires
        positions_fit(kept_inputs(files@), options.include_tests),
    ensures
        ({
            let kept = kept_inputs(files@);
            let syms = gathered_symbols(kept, options.include_tests);
            let sites = gathered_sites(kept, options.include_tests);
            &&& r.root@ == root@
            &&& r.files@.len() == kept.len()
            &&& forall|k: int|
                0 <= k < kept.len() ==> input_snapshot_ok(#[trigger] r.files@[k], root@, kept[k], options)
            &&& r.symbols@.len() == syms.len()
            &&& forall|i: int| 0 <= i < syms.len() ==> #[trigger] r.symbols@[i] == with_position_id(syms[i], i)
            &&& r.call_sites@ == sites.map_values(|cs: CallSite| with_enclosing_id(cs))
            &&& r.occurrences@.len() == 0
            &&& name_edges_ok(r.edges@, r.symbols@, r.call_sites@)
        }),
{
    let ghost all = files@;
    let mut b = IndexBuilder::new();
    let ghost mut n: int = 0;
    for f in it: files.into_iter()
        invariant
            it.seq() == all,
            n == it.index(),
            0 <= n <= all.len(),
            positions_fit(kept_inputs(all), options.include_tests),
            b.files@.len() == kept_inputs(all.take(n as int)).len(),
            forall|k: int|
                0 <= k < b.files@.len() ==> input_snapshot_ok(
                    #[trigger] b.files@[k],
                    root@,
                    kept_inputs(all.take(n as int))[k],
                    options,
                ),
            b.symbols@ == gathered_symbols(kept_inputs(all.take(n as int)), options.include_tests),
            b.call_sites@ == gathered_sites(kept_inputs(all.take(n as int)), options.include_tests),
    {
        let ghost kept0 = kept_inputs(all.take(n as int));
        proof {
            assert(all.take(n + 1).drop_last() =~= all.take(n as int));
            assert(f == all[n as int]);
            lemma_kept_prefix(all, n + 1);
        }
        if should_index_path(f.path.as_str()) {
            let ghost fv = f;
            let ghost kept1 = kept0.push(fv);
            proof {
                assert(kept_inputs(all.take(n + 1)) == kept1);
                assert(kept_inputs(all).take(kept1.len() as int)[kept0.len() as int] == kept1[kept0.len() as int]);
                assert(kept_inputs(all)[kept0.len() as int] == fv);
                assert(kept_inputs(all).take(kept0.len() as int) =~= kept0);
                assert(kept1.drop_last() =~= kept0);
            }
            let FileInput { path, size_bytes, mtime_ms, contents, parser_id, parser_version, parsed } = f;
            let bytes: Option<&[u8]> = match &contents {
                Some(c) => Some(c.as_slice()),
                None => None,
            };
            let snap = create_file_snapshot(
                root,
                path.as_str(),
                options.change_detection,
                options.include_tests,
                size_bytes,
                mtime_ms,
                bytes,
                &parser_id,
                parser_version.as_str(),
            );
            let ghost old_files = b.files@;
            b.add_file(snap, parsed, options.include_tests);
            proof {
                assert(input_snapshot_ok(b.files@[kept0.len() as int], root@, fv, options));
                assert forall|k: int| 0 <= k < b.files@.len() implies input_snapshot_ok(
                    #[trigger] b.files@[k],
                    root@,
                    kept1[k],
                    options,
                ) by {
                    if k < kept0.len() {
                        assert(b.files@[k] == old_files[k]);
                    }
                }
            }
        } else {
            proof {
                assert(kept_inputs(all.take(n + 1)) == kept0);
            }
        }
        proof {
            n = n + 1;
        }
    }
    assert(all.take(n as int) =~= all);
    let (fs, syms, sites) = b.finish();
    let mut none: Vec<Option<crate::backend::ResolveOutput>> = Vec::new();
    let mut j: usize = 0;
    while j < sites.len()
        invariant
            j <= sites.len(),
            none.len() == j,
            forall|k: int| 0 <= k < j ==> #[trigger] none@[k] is None,
        decreases sites.len() - j,
    {
        none.push(None);
        j = j + 1;
    }
    let edges = call_edges(&syms, &sites, &none);
    assert forall|q: int| 0 <= q < edges@.len() implies call_edge_ok(
        #[trigger] edges@[q],
        edge_sites(sites@)[q],
        sites@[edge_sites(sites@)[q]],
        syms@,
        None,
    ) by {
        lemma_edge_sites_range(sites@);
        assert(none@[edge_sites(sites@)[q]] is None);
    }
    code_index(root, fs, syms, sites, edges)
}

} // verus!
