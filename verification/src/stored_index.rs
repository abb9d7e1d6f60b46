//! A stored index as the rows that decide whether it can be reused: what a full
//! rebuild stores, what is read back from the store, and the probe made from it.
//!
//! The caller writes the rows to the database and reads them back; the functions
//! here say which rows a rebuild writes and what is concluded from the rows read.
use vstd::prelude::*;
use crate::backend::BackendMetadata;
use crate::diff::{
    DiskFile, compute_index_diff, deleted_paths, file_record, index_diff_ok,
    law_rebuild_after_rebuild_reparses_nothing, record_ok,
};
use crate::index::{BuildIndexOptions, FileInput, bytes_view, input_snapshot_ok, kept_inputs};
use crate::model::{CodeIndex, FileSnapshot};
use crate::paths::same_path;
use crate::storage::{
    IndexDiff, IndexProbe, RebuildPlan, RebuildReason, StoredBackends, StoredFile, StoredMetadata,
    check_db_compatibility, compatibility, distinct_backend_ids, hash_of_text, index_metadata, index_state_of,
    law_flipping_tests_makes_index_incompatible, law_rebuild_after_rebuild_reuses, law_written_metadata_is_compatible,
    lookup, metadata_entries, no_changes, opt_text, parser_config_text, plan_of, rows_view, written_metadata,
};
use crate::strings::str_eq;

verus! {

/// The rows of a stored index: whether the metadata table exists, its key-value
/// rows in the order written, the backends' metadata recorded beside them, and
/// the file records (path, record), or nothing where they could not be read.
#[derive(Debug, Clone)]
pub struct StoredIndex {
    pub has_metadata_table: bool,
    pub metadata: Vec<(String, String)>,
    pub backends: StoredBackends,
    pub files: Option<Vec<(String, StoredFile)>>,
}

/// Two stored backend lists are the same.
pub open spec fn same_backends(a: StoredBackends, b: StoredBackends) -> bool {
    match (a, b) {
        (StoredBackends::Absent, StoredBackends::Absent) => true,
        (StoredBackends::Corrupt, StoredBackends::Corrupt) => true,
        (StoredBackends::Listed(x), StoredBackends::Listed(y)) => x@ == y@,
        _ => false,
    }
}

/// `m` is the metadata read from a metadata table holding `rows` (each key's
/// latest value), with the backends as stored.
pub open spec fn metadata_read(
    m: StoredMetadata,
    table_exists: bool,
    rows: Seq<(Seq<char>, Seq<char>)>,
    backends: StoredBackends,
) -> bool {
    &&& m.table_exists == table_exists
    &&& opt_text(m.schema_version) == lookup(rows, "schema_version"@)
    &&& opt_text(m.indexer_version) == lookup(rows, "indexer_version"@)
    &&& opt_text(m.parser_config_hash) == lookup(rows, "parser_config_hash"@)
    &&& opt_text(m.resolver_id) == lookup(rows, "resolver_id"@)
    &&& opt_text(m.resolver_version) == lookup(rows, "resolver_version"@)
    &&& opt_text(m.resolver_config_hash) == lookup(rows, "resolver_config_hash"@)
    &&& opt_text(m.change_detection_strategy) == lookup(rows, "change_detection_strategy"@)
    &&& opt_text(m.base_index_ready) == lookup(rows, "base_index_ready"@)
    &&& same_backends(m.backends, backends)
}

/// The latest value written for `key`, if any.
pub fn lookup_row(rows: &Vec<(String, String)>, key: &str) -> (r: Option<String>)
    ensures
        opt_text(r) == lookup(rows_view(rows@), key@),
{
    let mut i: usize = rows.len();
    assert(rows@.take(i as int) =~= rows@);
    while i > 0
        invariant
            i <= rows.len(),
            lookup(rows_view(rows@), key@) == lookup(rows_view(rows@.take(i as int)), key@),
        decreases i,
    {
        let k = i - 1;
        proof {
            let t = rows_view(rows@.take(i as int));
            assert(t.last() == (rows@[k as int].0@, rows@[k as int].1@));
            assert(t.drop_last() =~= rows_view(rows@.take(k as int)));
        }
        if str_eq(rows[k].0.as_str(), key) {
            return Some(rows[k].1.clone());
        }
        i = k;
    }
    None
}

/// The metadata read from a metadata table (whether it exists, and its rows),
/// with the backends as stored (see `metadata_read`).
pub fn stored_metadata_of(
    has_metadata_table: bool,
    rows: &Vec<(String, String)>,
    backends: StoredBackends,
) -> (m: StoredMetadata)
    ensures
        metadata_read(m, has_metadata_table, rows_view(rows@), backends),
{
    let m = StoredMetadata {
        table_exists: has_metadata_table,
        schema_version: lookup_row(rows, "schema_version"),
        indexer_version: lookup_row(rows, "indexer_version"),
        parser_config_hash: lookup_row(rows, "parser_config_hash"),
        resolver_id: lookup_row(rows, "resolver_id"),
        resolver_version: lookup_row(rows, "resolver_version"),
        resolver_config_hash: lookup_row(rows, "resolver_config_hash"),
        change_detection_strategy: lookup_row(rows, "change_detection_strategy"),
        base_index_ready: lookup_row(rows, "base_index_ready"),
        backends,
    };
    assert(same_backends(m.backends, backends)) by {
        match backends {
            StoredBackends::Listed(v) => {},
            _ => {},
        }
    }
    m
}

/// What a full rebuild of an index whose files are `snaps` leaves stored: the
/// metadata rows a build with these options writes, the current backends'
/// metadata, and a record of each file, in order.
pub open spec fn stored_after_rebuild(
    s: StoredIndex,
    snaps: Seq<FileSnapshot>,
    options: BuildIndexOptions,
    current: Seq<BackendMetadata>,
) -> bool {
    &&& s.has_metadata_table
    &&& rows_view(s.metadata@) == metadata_entries(options)
    &&& s.backends matches StoredBackends::Listed(v) && v@ == current
    &&& s.files matches Some(fs) && fs@.len() == snaps.len() && forall|k: int|
        0 <= k < snaps.len() ==> record_ok(#[trigger] snaps[k], fs@[k])
}

/// The rows a full rebuild of `index` stores (see `stored_after_rebuild`).
pub fn full_rebuild_rows(
    index: &CodeIndex,
    options: &BuildIndexOptions,
    current: Vec<BackendMetadata>,
) -> (s: StoredIndex)
    ensures
        stored_after_rebuild(s, index.files@, *options, current@),
{
    let mut files: Vec<(String, StoredFile)> = Vec::new();
    let mut i: usize = 0;
    while i < index.files.len()
        invariant
            i <= index.files.len(),
            files@.len() == i,
            forall|k: int| 0 <= k < i ==> record_ok(#[trigger] index.files@[k], files@[k]),
        decreases index.files.len() - i,
    {
        files.push(file_record(&index.files[i]));
        i = i + 1;
    }
    StoredIndex {
        has_metadata_table: true,
        metadata: index_metadata(options),
        backends: StoredBackends::Listed(current),
        files: Some(files),
    }
}

/// `p` is what is concluded from a stored index read back as `s`, the database
/// having been found, opened and set to check foreign keys as the flags say:
/// why it cannot be reused, checked on the metadata read; when it can, an
/// unreadable file table makes it corrupt, and otherwise the disk is compared
/// with the file records; and the recorded language-server enrichment.
pub open spec fn probe_read_ok(
    p: IndexProbe,
    db_exists: bool,
    opened: bool,
    foreign_keys_on: bool,
    s: StoredIndex,
    root: Seq<char>,
    options: BuildIndexOptions,
    disk: Seq<DiskFile>,
    current: Seq<BackendMetadata>,
) -> bool {
    &&& p.db_exists == db_exists
    &&& p.opened == opened
    &&& p.foreign_keys_on == foreign_keys_on
    &&& exists|m: StoredMetadata|
        #[trigger] metadata_read(m, s.has_metadata_table, rows_view(s.metadata@), s.backends) && ({
            let c = compatibility(m, options, current);
            if c is Some {
                p.incompatibility == c
            } else {
                match s.files {
                    None => p.incompatibility == Some(RebuildReason::CorruptDatabase),
                    Some(fs) => p.incompatibility is None && index_diff_ok(p.diff, root, options, disk, fs@),
                }
            }
        })
    &&& opt_text(p.lsp_enrichment) == lookup(rows_view(s.metadata@), "lsp_enrichment"@)
}

/// The probe of a stored index read back as `stored` (see `probe_read_ok`).
pub fn read_probe(
    db_exists: bool,
    opened: bool,
    foreign_keys_on: bool,
    stored: StoredIndex,
    root: &str,
    options: &BuildIndexOptions,
    disk: &Vec<DiskFile>,
    current: &Vec<BackendMetadata>,
) -> (p: IndexProbe)
    ensures
        probe_read_ok(p, db_exists, opened, foreign_keys_on, stored, root@, *options, disk@, current@),
{
    let ghost whole = stored;
    let StoredIndex { has_metadata_table, metadata, backends, files } = stored;
    let lsp_enrichment = lookup_row(&metadata, "lsp_enrichment");
    let m = stored_metadata_of(has_metadata_table, &metadata, backends);
    let mut incompatibility = check_db_compatibility(&m, options, current);
    let mut diff = IndexDiff { added: Vec::new(), modified: Vec::new(), deleted: Vec::new(), unchanged: Vec::new() };
    if incompatibility.is_none() {
        match &files {
            None => {
                incompatibility = Some(RebuildReason::CorruptDatabase);
            },
            Some(fs) => {
                diff = compute_index_diff(root, options, disk, fs);
            },
        }
    }
    let p = IndexProbe { db_exists, opened, foreign_keys_on, incompatibility, diff, lsp_enrichment };
    assert(metadata_read(m, whole.has_metadata_table, rows_view(whole.metadata@), whole.backends));
    p
}

/// The metadata a full rebuild stores, read back, is the metadata the build
/// wrote (with the current backends).
proof fn lemma_read_back_is_written(
    m: StoredMetadata,
    s: StoredIndex,
    snaps: Seq<FileSnapshot>,
    options: BuildIndexOptions,
    current: Seq<BackendMetadata>,
)
    requires
        stored_after_rebuild(s, snaps, options, current),
        distinct_backend_ids(current),
        metadata_read(m, s.has_metadata_table, rows_view(s.metadata@), s.backends),
    ensures
        written_metadata(m, options, current),
{
}

/// A fully rebuilt index, read back, is accepted by the compatibility check with
/// the options it was built with and the current backends; read with tests
/// included where they were left out (or the other way round), it asks for a
/// full rebuild because the parser configuration changed. (The second part
/// rests on the two configurations' hashes differing.)
pub proof fn law_rebuilt_index_fits_until_tests_flip(
    s: StoredIndex,
    snaps: Seq<FileSnapshot>,
    options: BuildIndexOptions,
    current: Seq<BackendMetadata>,
    m: StoredMetadata,
)
    requires
        stored_after_rebuild(s, snaps, options, current),
        distinct_backend_ids(current),
        metadata_read(m, s.has_metadata_table, rows_view(s.metadata@), s.backends),
    ensures
        compatibility(m, options, current) is None,
        hash_of_text(parser_config_text(options)) != hash_of_text(
            parser_config_text(BuildIndexOptions { include_tests: !options.include_tests, ..options }),
        ) ==> compatibility(m, BuildIndexOptions { include_tests: !options.include_tests, ..options }, current)
            == Some(RebuildReason::ParserConfigChanged),
{
    lemma_read_back_is_written(m, s, snaps, options, current);
    law_written_metadata_is_compatible(m, options, current);
    if hash_of_text(parser_config_text(options)) != hash_of_text(
        parser_config_text(BuildIndexOptions { include_tests: !options.include_tests, ..options }),
    ) {
        law_flipping_tests_makes_index_incompatible(m, options, current);
    }
}

/// Rebuilding right after a full rebuild reuses the stored index. The first build
/// indexed the kept inputs as `snaps` (as `build_index` describes them), every
/// one of them parsed, and the indexed paths name distinct files; the store holds
/// what that rebuild stored, with distinct current backends; the files on disk
/// are still what the build read; and the probe is made from the store read back
/// (the database found, opened and checking foreign keys). Then the index is
/// ready and the plan is to reuse it.
pub proof fn law_rebuild_after_rebuild_reuses_index(
    root: Seq<char>,
    options: BuildIndexOptions,
    inputs: Seq<FileInput>,
    snaps: Seq<FileSnapshot>,
    s: StoredIndex,
    disk: Seq<DiskFile>,
    current: Seq<BackendMetadata>,
    p: IndexProbe,
)
    requires
        snaps.len() == kept_inputs(inputs).len(),
        forall|k: int| 0 <= k < snaps.len() ==> input_snapshot_ok(#[trigger] snaps[k], root, kept_inputs(inputs)[k], options),
        forall|k: int| 0 <= k < snaps.len() ==> (#[trigger] kept_inputs(inputs)[k]).parsed is Some,
        forall|a: int, b: int|
            0 <= a < snaps.len() && 0 <= b < snaps.len() ==> (same_path(
                #[trigger] kept_inputs(inputs)[a].path@,
                #[trigger] kept_inputs(inputs)[b].path@,
            ) <==> a == b),
        stored_after_rebuild(s, snaps, options, current),
        distinct_backend_ids(current),
        disk.len() == inputs.len(),
        forall|i: int|
            0 <= i < disk.len() ==> {
                &&& (#[trigger] disk[i]).path@ == inputs[i].path@
                &&& disk[i].size_bytes == inputs[i].size_bytes
                &&& disk[i].mtime_ms == inputs[i].mtime_ms
                &&& bytes_view(disk[i].contents) == bytes_view(inputs[i].contents)
            },
        probe_read_ok(p, true, true, true, s, root, options, disk, current),
    ensures
        index_state_of(p, options.use_lsp) is Ready,
        plan_of(index_state_of(p, options.use_lsp)) == RebuildPlan::Reuse,
{
    let m = choose|m: StoredMetadata|
        #[trigger] metadata_read(m, s.has_metadata_table, rows_view(s.metadata@), s.backends) && ({
            let c = compatibility(m, options, current);
            if c is Some {
                p.incompatibility == c
            } else {
                match s.files {
                    None => p.incompatibility == Some(RebuildReason::CorruptDatabase),
                    Some(fs) => p.incompatibility is None && index_diff_ok(p.diff, root, options, disk, fs@),
                }
            }
        });
    lemma_read_back_is_written(m, s, snaps, options, current);
    law_written_metadata_is_compatible(m, options, current);
    let records = s.files->0@;
    law_rebuild_after_rebuild_reparses_nothing(root, options, inputs, snaps, records, disk);
    assert(p.diff.deleted@.map_values(|x: String| x@) == deleted_paths(records, disk));
    assert(p.diff.deleted@.len() == 0);
    assert(no_changes(p.diff));
    law_rebuild_after_rebuild_reuses(p, m, options, current);
}

} // verus!
