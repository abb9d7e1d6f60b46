//! Comparing the files on disk with the index's records of them.
//!
//! The caller walks the workspace, measures and reads each file, and loads the
//! stored file records; the functions here sort the files into added, modified,
//! unchanged and deleted.
use vstd::prelude::*;
use crate::backend::ParserId;
use crate::hashing::{content_hash, hex_text, sha256_of};
use crate::index::{BuildIndexOptions, FileInput, bytes_view, create_file_snapshot, indexable, input_snapshot_ok, kept_inputs, should_index_path, snapshot_ok};
use crate::model::{FileChangeDetection, FileParseStatus, FileSnapshot};
use crate::paths::{paths_equal, same_path};
use crate::storage::{BuildReport, IndexDiff, StoredFile, compare_file, disk_snapshot_ok, file_modified, opt_text};
use crate::strings::{owned};

verus! {

/// A file found on disk: its path, what was measured and read of it (nothing
/// where that failed), and the parser that takes it.
pub struct DiskFile {
    pub path: String,
    pub size_bytes: Option<u64>,
    pub mtime_ms: Option<i64>,
    pub contents: Option<Vec<u8>>,
    pub parser_id: ParserId,
    pub parser_version: String,
}

/// The position of the first stored record of the same path as `p`, or -1.
pub open spec fn stored_pos(stored: Seq<(String, StoredFile)>, p: Seq<char>) -> int
    decreases stored.len(),
{
    if stored.len() == 0 {
        -1
    } else if stored_pos(stored.drop_last(), p) >= 0 {
        stored_pos(stored.drop_last(), p)
    } else if same_path(stored.last().0@, p) {
        stored.len() - 1
    } else {
        -1
    }
}

/// The file's modification time, 0 where it could not be read.
pub open spec fn mtime_or_zero(f: DiskFile) -> i64 {
    match f.mtime_ms {
        Some(t) => t,
        None => 0,
    }
}

/// The file's size, 0 where it could not be read.
pub open spec fn size_or_zero(f: DiskFile) -> u64 {
    match f.size_bytes {
        Some(n) => n,
        None => 0,
    }
}

/// The file's content hash, when changes are detected by content and the file
/// could be read.
pub open spec fn disk_hash_of(f: DiskFile, cd: FileChangeDetection) -> Option<Seq<char>> {
    if cd == FileChangeDetection::ContentHash {
        match f.contents {
            Some(c) => Some(hex_text(sha256_of(c@))),
            None => None,
        }
    } else {
        None
    }
}

/// How a disk file compares with the records: 0 when none has its path (added),
/// 1 when the first that does shows it changed (modified), 2 otherwise
/// (unchanged).
pub open spec fn diff_class(f: DiskFile, stored: Seq<(String, StoredFile)>, cd: FileChangeDetection) -> int {
    let pos = stored_pos(stored, f.path@);
    if pos < 0 {
        0
    } else if file_modified(stored[pos].1, cd, mtime_or_zero(f), size_or_zero(f), disk_hash_of(f, cd)) {
        1
    } else {
        2
    }
}

/// The indexed disk files of one class, in order.
pub open spec fn disk_of_class(
    disk: Seq<DiskFile>,
    stored: Seq<(String, StoredFile)>,
    cd: FileChangeDetection,
    class: int,
) -> Seq<DiskFile>
    decreases disk.len(),
{
    if disk.len() == 0 {
        Seq::empty()
    } else if indexable(disk.last().path@) && diff_class(disk.last(), stored, cd) == class {
        disk_of_class(disk.drop_last(), stored, cd, class).push(disk.last())
    } else {
        disk_of_class(disk.drop_last(), stored, cd, class)
    }
}

/// Some indexed disk file has the same path as `p`.
pub open spec fn on_disk(disk: Seq<DiskFile>, p: Seq<char>) -> bool {
    exists|i: int| 0 <= i < disk.len() && indexable(#[trigger] disk[i].path@) && same_path(disk[i].path@, p)
}

/// The stored paths that no indexed disk file has, in order.
pub open spec fn deleted_paths(stored: Seq<(String, StoredFile)>, disk: Seq<DiskFile>) -> Seq<Seq<char>>
    decreases stored.len(),
{
    if stored.len() == 0 {
        Seq::empty()
    } else if on_disk(disk, stored.last().0@) {
        deleted_paths(stored.drop_last(), disk)
    } else {
        deleted_paths(stored.drop_last(), disk).push(stored.last().0@)
    }
}

/// The disk files whose paths are indexed, in order.
pub open spec fn indexed_disk(disk: Seq<DiskFile>) -> Seq<DiskFile>
    decreases disk.len(),
{
    if disk.len() == 0 {
        Seq::empty()
    } else if indexable(disk.last().path@) {
        indexed_disk(disk.drop_last()).push(disk.last())
    } else {
        indexed_disk(disk.drop_last())
    }
}

/// Every indexed file on disk is exactly one of added, modified or unchanged.
pub proof fn law_diff_partitions_disk_files(
    disk: Seq<DiskFile>,
    stored: Seq<(String, StoredFile)>,
    cd: FileChangeDetection,
)
    ensures
        disk_of_class(disk, stored, cd, 0).len() + disk_of_class(disk, stored, cd, 1).len()
            + disk_of_class(disk, stored, cd, 2).len() == indexed_disk(disk).len(),
    decreases disk.len(),
{
    if disk.len() > 0 {
        law_diff_partitions_disk_files(disk.drop_last(), stored, cd);
    }
}

/// A file whose record matches it is unchanged: when every indexed file on disk
/// has a record of its path that was parsed, with its time and size (and, when
/// changes are detected by content, its hash), nothing is added or modified.
pub proof fn law_matching_records_leave_files_unchanged(
    disk: Seq<DiskFile>,
    stored: Seq<(String, StoredFile)>,
    cd: FileChangeDetection,
)
    requires
        forall|i: int|
            0 <= i < disk.len() && indexable(#[trigger] disk[i].path@) ==> {
                let pos = stored_pos(stored, disk[i].path@);
                &&& pos >= 0
                &&& stored[pos].1.parse_status == FileParseStatus::Success
                &&& stored[pos].1.mtime_ms == mtime_or_zero(disk[i])
                &&& stored[pos].1.size_bytes == size_or_zero(disk[i])
                &&& (cd == FileChangeDetection::ContentHash ==> opt_text(stored[pos].1.content_hash)
                    == disk_hash_of(disk[i], cd))
            },
    ensures
        disk_of_class(disk, stored, cd, 0).len() == 0,
        disk_of_class(disk, stored, cd, 1).len() == 0,
    decreases disk.len(),
{
    if disk.len() > 0 {
        let pre = disk.drop_last();
        assert forall|i: int| 0 <= i < pre.len() && indexable(#[trigger] pre[i].path@) implies {
            let pos = stored_pos(stored, pre[i].path@);
            &&& pos >= 0
            &&& stored[pos].1.parse_status == FileParseStatus::Success
            &&& stored[pos].1.mtime_ms == mtime_or_zero(pre[i])
            &&& stored[pos].1.size_bytes == size_or_zero(pre[i])
            &&& (cd == FileChangeDetection::ContentHash ==> opt_text(stored[pos].1.content_hash)
                == disk_hash_of(pre[i], cd))
        } by {
            assert(pre[i] == disk[i]);
            assert(indexable(disk[i].path@));
        }
        law_matching_records_leave_files_unchanged(pre, stored, cd);
        let last = disk.last();
        if indexable(last.path@) {
            assert(disk[disk.len() - 1] == last);
            assert(diff_class(last, stored, cd) == 2);
        }
    }
}

/// The record a build stores for a file it indexed, under the file's absolute
/// path.
pub open spec fn record_ok(s: FileSnapshot, r: (String, StoredFile)) -> bool {
    &&& r.0@ == s.abs_path@
    &&& r.1.rel_path@ == s.rel_path@
    &&& r.1.language@ == s.language.0@
    &&& r.1.backend_id@ == s.backend_id@
    &&& r.1.mtime_ms == s.mtime_ms
    &&& r.1.size_bytes == s.size_bytes
    &&& opt_text(r.1.content_hash) == opt_text(s.content_hash)
    &&& r.1.parser_id@ == s.parser_id@
    &&& r.1.parser_version@ == s.parser_version@
    &&& r.1.parser_config_hash@ == s.parser_config_hash@
    &&& r.1.parse_status == s.parse_status
}

/// The record a build stores for a file it indexed (see `record_ok`).
pub fn file_record(s: &FileSnapshot) -> (r: (String, StoredFile))
    ensures
        record_ok(*s, r),
{
    let content_hash = match &s.content_hash {
        Some(h) => Some(h.clone()),
        None => None,
    };
    (
        s.abs_path.clone(),
        StoredFile {
            rel_path: s.rel_path.clone(),
            language: s.language.0.clone(),
            backend_id: s.backend_id.clone(),
            mtime_ms: s.mtime_ms,
            size_bytes: s.size_bytes,
            content_hash,
            parser_id: s.parser_id.clone(),
            parser_version: s.parser_version.clone(),
            parser_config_hash: s.parser_config_hash.clone(),
            parse_status: s.parse_status,
        },
    )
}

/// `stored_pos` is the first record of the same path, or -1 when there is none.
proof fn lemma_stored_pos(stored: Seq<(String, StoredFile)>, p: Seq<char>)
    ensures
        stored_pos(stored, p) < stored.len(),
        stored_pos(stored, p) >= 0 ==> same_path(stored[stored_pos(stored, p)].0@, p),
        forall|j: int| 0 <= j < stored.len() && (stored_pos(stored, p) < 0 || j < stored_pos(stored, p))
            ==> !#[trigger] same_path(stored[j].0@, p),
    decreases stored.len(),
{
    if stored.len() > 0 {
        let pre = stored.drop_last();
        lemma_stored_pos(pre, p);
        assert forall|j: int| 0 <= j < pre.len() implies pre[j] == stored[j] by {}
    }
}

/// An input whose path is indexed is kept.
proof fn lemma_input_kept(inputs: Seq<FileInput>, i: int)
    requires
        0 <= i < inputs.len(),
        indexable(inputs[i].path@),
    ensures
        exists|k: int| 0 <= k < kept_inputs(inputs).len() && kept_inputs(inputs)[k] == inputs[i],
    decreases inputs.len(),
{
    let pre = inputs.drop_last();
    if i < inputs.len() - 1 {
        lemma_input_kept(pre, i);
        let k = choose|k: int| 0 <= k < kept_inputs(pre).len() && kept_inputs(pre)[k] == pre[i];
        assert(kept_inputs(inputs)[k] == kept_inputs(pre)[k]);
    } else {
        let n = kept_inputs(pre).len() as int;
        assert(kept_inputs(inputs)[n] == inputs[i]);
    }
}

/// A kept input is an input with an indexed path.
proof fn lemma_kept_is_input(inputs: Seq<FileInput>, k: int)
    requires
        0 <= k < kept_inputs(inputs).len(),
    ensures
        exists|i: int| 0 <= i < inputs.len() && inputs[i] == kept_inputs(inputs)[k] && indexable(inputs[i].path@),
    decreases inputs.len(),
{
    let pre = inputs.drop_last();
    if k < kept_inputs(pre).len() {
        lemma_kept_is_input(pre, k);
        let i = choose|i: int| 0 <= i < pre.len() && pre[i] == kept_inputs(pre)[k] && indexable(pre[i].path@);
        assert(inputs[i] == pre[i]);
        assert(kept_inputs(inputs)[k] == kept_inputs(pre)[k]);
    } else {
        assert(inputs[inputs.len() - 1] == kept_inputs(inputs)[k]);
    }
}

/// When every record's path is an indexed file on disk, nothing is deleted.
proof fn lemma_nothing_deleted(stored: Seq<(String, StoredFile)>, disk: Seq<DiskFile>)
    requires
        forall|k: int| 0 <= k < stored.len() ==> on_disk(disk, #[trigger] stored[k].0@),
    ensures
        deleted_paths(stored, disk).len() == 0,
    decreases stored.len(),
{
    if stored.len() > 0 {
        let pre = stored.drop_last();
        assert forall|k: int| 0 <= k < pre.len() implies on_disk(disk, #[trigger] pre[k].0@) by {
            assert(pre[k] == stored[k]);
        }
        lemma_nothing_deleted(pre, disk);
        assert(on_disk(disk, stored[stored.len() - 1].0@));
    }
}

/// Rebuilding right after a rebuild re-parses nothing. The first build indexed
/// the kept inputs as `snaps` (as `build_index` describes them), every one of
/// them parsed, and stored them as `records`; the indexed paths name distinct
/// files; and the files on disk are still what the build read. Then comparing the
/// disk with the records finds no file added, modified or deleted.
pub proof fn law_rebuild_after_rebuild_reparses_nothing(
    root: Seq<char>,
    options: BuildIndexOptions,
    inputs: Seq<FileInput>,
    snaps: Seq<FileSnapshot>,
    records: Seq<(String, StoredFile)>,
    disk: Seq<DiskFile>,
)
    requires
        snaps.len() == kept_inputs(inputs).len(),
        forall|k: int| 0 <= k < snaps.len() ==> input_snapshot_ok(#[trigger] snaps[k], root, kept_inputs(inputs)[k], options),
        forall|k: int| 0 <= k < snaps.len() ==> (#[trigger] kept_inputs(inputs)[k]).parsed is Some,
        records.len() == snaps.len(),
        forall|k: int| 0 <= k < snaps.len() ==> record_ok(#[trigger] snaps[k], records[k]),
        forall|a: int, b: int|
            0 <= a < snaps.len() && 0 <= b < snaps.len() ==> (same_path(
                #[trigger] kept_inputs(inputs)[a].path@,
                #[trigger] kept_inputs(inputs)[b].path@,
            ) <==> a == b),
        disk.len() == inputs.len(),
        forall|i: int|
            0 <= i < disk.len() ==> {
                &&& (#[trigger] disk[i]).path@ == inputs[i].path@
                &&& disk[i].size_bytes == inputs[i].size_bytes
                &&& disk[i].mtime_ms == inputs[i].mtime_ms
                &&& bytes_view(disk[i].contents) == bytes_view(inputs[i].contents)
            },
    ensures
        disk_of_class(disk, records, options.change_detection, 0).len() == 0,
        disk_of_class(disk, records, options.change_detection, 1).len() == 0,
        deleted_paths(records, disk).len() == 0,
{
    let cd = options.change_detection;
    let kept = kept_inputs(inputs);
    assert forall|i: int| 0 <= i < disk.len() && indexable(#[trigger] disk[i].path@) implies {
        let pos = stored_pos(records, disk[i].path@);
        &&& pos >= 0
        &&& records[pos].1.parse_status == FileParseStatus::Success
        &&& records[pos].1.mtime_ms == mtime_or_zero(disk[i])
        &&& records[pos].1.size_bytes == size_or_zero(disk[i])
        &&& (cd == FileChangeDetection::ContentHash ==> opt_text(records[pos].1.content_hash)
            == disk_hash_of(disk[i], cd))
    } by {
        let p = disk[i].path@;
        lemma_input_kept(inputs, i);
        let k = choose|k: int| 0 <= k < kept.len() && kept[k] == inputs[i];
        assert(input_snapshot_ok(snaps[k], root, kept[k], options));
        assert(record_ok(snaps[k], records[k]));
        assert(kept[k].parsed is Some);
        assert(same_path(kept[k].path@, kept[k].path@));
        assert(records[k].0@ == p);
        lemma_stored_pos(records, p);
        let pos = stored_pos(records, p);
        if pos < 0 || k < pos {
            assert(!same_path(records[k].0@, p));
        }
        assert(0 <= pos <= k);
        assert(same_path(records[pos].0@, p));
        assert(input_snapshot_ok(snaps[pos], root, kept[pos], options));
        assert(record_ok(snaps[pos], records[pos]));
        assert(records[pos].0@ == kept[pos].path@);
        assert(same_path(kept[pos].path@, kept[k].path@));
        assert(pos == k);
    }
    law_matching_records_leave_files_unchanged(disk, records, cd);
    assert forall|k: int| 0 <= k < records.len() implies on_disk(disk, #[trigger] records[k].0@) by {
        lemma_kept_is_input(inputs, k);
        let i = choose|i: int| 0 <= i < inputs.len() && inputs[i] == kept[k] && indexable(inputs[i].path@);
        assert(record_ok(snaps[k], records[k]));
        assert(input_snapshot_ok(snaps[k], root, kept[k], options));
        assert(same_path(kept[k].path@, kept[k].path@));
        assert(disk[i].path@ == records[k].0@);
        assert(indexable(disk[i].path@) && same_path(disk[i].path@, records[k].0@));
    }
    lemma_nothing_deleted(records, disk);
}

/// An incremental update's report counts every indexed file on disk exactly
/// once, as added, modified or unchanged, and counts as deleted the stored
/// records that no indexed file on disk has: given the diff the comparison
/// makes and the counts `incremental_report` takes from it.
pub proof fn law_update_report_counts_each_file_once(
    r: BuildReport,
    diff: IndexDiff,
    root: Seq<char>,
    options: BuildIndexOptions,
    disk: Seq<DiskFile>,
    stored: Seq<(String, StoredFile)>,
)
    requires
        index_diff_ok(diff, root, options, disk, stored),
        r.added_files == diff.added@.len(),
        r.modified_files == diff.modified@.len(),
        r.unchanged_files == diff.unchanged@.len(),
        r.deleted_files == diff.deleted@.len(),
    ensures
        r.added_files + r.modified_files + r.unchanged_files == indexed_disk(disk).len(),
        r.deleted_files == deleted_paths(stored, disk).len(),
{
    law_diff_partitions_disk_files(disk, stored, options.change_detection);
    assert(diff.deleted@.map_values(|x: String| x@).len() == diff.deleted@.len());
}

/// No path counted as deleted is the path of an indexed file on disk.
pub proof fn law_deleted_paths_are_not_on_disk(stored: Seq<(String, StoredFile)>, disk: Seq<DiskFile>)
    ensures
        forall|k: int|
            0 <= k < deleted_paths(stored, disk).len() ==> !on_disk(disk, #[trigger] deleted_paths(stored, disk)[k]),
    decreases stored.len(),
{
    if stored.len() > 0 {
        law_deleted_paths_are_not_on_disk(stored.drop_last(), disk);
        let pre = deleted_paths(stored.drop_last(), disk);
        assert forall|k: int| 0 <= k < deleted_paths(stored, disk).len() implies !on_disk(
            disk,
            #[trigger] deleted_paths(stored, disk)[k],
        ) by {
            if k < pre.len() {
                assert(deleted_paths(stored, disk)[k] == pre[k]);
            }
        }
    }
}

/// The description of an unchanged or modified file against its first record.
pub open spec fn known_snapshot_ok(
    s: FileSnapshot,
    f: DiskFile,
    stored: Seq<(String, StoredFile)>,
    cd: FileChangeDetection,
) -> bool {
    disk_snapshot_ok(
        s,
        f.path@,
        stored[stored_pos(stored, f.path@)].1,
        cd,
        mtime_or_zero(f),
        size_or_zero(f),
        disk_hash_of(f, cd),
    )
}

/// The description of an added file.
pub open spec fn added_snapshot_ok(s: FileSnapshot, root: Seq<char>, f: DiskFile, options: BuildIndexOptions) -> bool {
    snapshot_ok(
        s,
        root,
        f.path@,
        options.change_detection,
        options.include_tests,
        f.size_bytes,
        f.mtime_ms,
        bytes_view(f.contents),
        f.parser_id.0@,
        f.parser_version@,
    )
}

fn first_stored(stored: &Vec<(String, StoredFile)>, p: &str) -> (r: Option<usize>)
    ensures
        match r {
            Some(i) => i == stored_pos(stored@, p@) && 0 <= i < stored.len(),
            None => stored_pos(stored@, p@) < 0,
        },
{
    let mut i: usize = 0;
    while i < stored.len()
        invariant
            i <= stored.len(),
            stored_pos(stored@.take(i as int), p@) < 0,
        decreases stored.len() - i,
    {
        proof {
            assert(stored@.take(i + 1).drop_last() =~= stored@.take(i as int));
        }
        if paths_equal(stored[i].0.as_str(), p) {
            proof {
                assert(stored@.take(i + 1).last() == stored@[i as int]);
                assert(stored_pos(stored@.take(i + 1), p@) == i);
                lemma_stored_pos_prefix(stored@, i + 1);
            }
            return Some(i);
        }
        i = i + 1;
    }
    assert(stored@.take(stored.len() as int) =~= stored@);
    None
}

/// A match found in a prefix is the first match of the whole.
proof fn lemma_stored_pos_prefix(stored: Seq<(String, StoredFile)>, m: int)
    requires
        0 <= m <= stored.len(),
    ensures
        forall|p: Seq<char>| #[trigger] stored_pos(stored.take(m), p) >= 0 ==> stored_pos(stored, p) == stored_pos(stored.take(m), p),
    decreases stored.len(),
{
    if m < stored.len() {
        assert(stored.drop_last().take(m) =~= stored.take(m));
        lemma_stored_pos_prefix(stored.drop_last(), m);
    } else {
        assert(stored.take(m) =~= stored);
    }
}

fn disk_hash(f: &DiskFile, cd: FileChangeDetection) -> (r: Option<String>)
    ensures
        opt_text(r) == disk_hash_of(*f, cd),
{
    match cd {
        FileChangeDetection::ContentHash => match &f.contents {
            Some(c) => Some(content_hash(c.as_slice())),
            None => None,
        },
        FileChangeDetection::MtimeAndSize => None,
    }
}

/// `r` sorts the files on disk against the stored records as
/// `compute_index_diff` does.
pub open spec fn index_diff_ok(
    r: IndexDiff,
    root: Seq<char>,
    options: BuildIndexOptions,
    disk: Seq<DiskFile>,
    stored: Seq<(String, StoredFile)>,
) -> bool {
    let cd = options.change_detection;
    let added = disk_of_class(disk, stored, cd, 0);
    let modified = disk_of_class(disk, stored, cd, 1);
    let unchanged = disk_of_class(disk, stored, cd, 2);
    &&& r.added@.len() == added.len()
    &&& forall|k: int| 0 <= k < added.len() ==> added_snapshot_ok(#[trigger] r.added@[k], root, added[k], options)
    &&& r.modified@.len() == modified.len()
    &&& forall|k: int|
        0 <= k < modified.len() ==> known_snapshot_ok(#[trigger] r.modified@[k], modified[k], stored, cd)
    &&& r.unchanged@.len() == unchanged.len()
    &&& forall|k: int|
        0 <= k < unchanged.len() ==> known_snapshot_ok(#[trigger] r.unchanged@[k], unchanged[k], stored, cd)
    &&& r.deleted@.map_values(|s: String| s@) == deleted_paths(stored, disk)
}

/// Sorts the files found under `root` against the stored records (path, record):
/// the indexed files no record has are added, described afresh; those whose
/// first record shows a change are modified and the others unchanged, both
/// described from the record and what was measured now; the recorded paths that
/// no indexed file has are deleted. Each file is listed once, in the order given.
pub fn compute_index_diff(
    root: &str,
    options: &BuildIndexOptions,
    disk: &Vec<DiskFile>,
    stored: &Vec<(String, StoredFile)>,
) -> (r: IndexDiff)
    ensures
        index_diff_ok(r, root@, *options, disk@, stored@),
{
    let cd = options.change_detection;
    let mut added: Vec<FileSnapshot> = Vec::new();
    let mut modified: Vec<FileSnapshot> = Vec::new();
    let mut unchanged: Vec<FileSnapshot> = Vec::new();
    let mut i: usize = 0;
    while i < disk.len()
        invariant
            i <= disk.len(),
            cd == options.change_detection,
            added@.len() == disk_of_class(disk@.take(i as int), stored@, cd, 0).len(),
            forall|k: int|
                0 <= k < added@.len() ==> added_snapshot_ok(
                    #[trigger] added@[k],
                    root@,
                    disk_of_class(disk@.take(i as int), stored@, cd, 0)[k],
                    *options,
                ),
            modified@.len() == disk_of_class(disk@.take(i as int), stored@, cd, 1).len(),
            forall|k: int|
                0 <= k < modified@.len() ==> known_snapshot_ok(
                    #[trigger] modified@[k],
                    disk_of_class(disk@.take(i as int), stored@, cd, 1)[k],
                    stored@,
                    cd,
                ),
            unchanged@.len() == disk_of_class(disk@.take(i as int), stored@, cd, 2).len(),
            forall|k: int|
                0 <= k < unchanged@.len() ==> known_snapshot_ok(
                    #[trigger] unchanged@[k],
                    disk_of_class(disk@.take(i as int), stored@, cd, 2)[k],
                    stored@,
                    cd,
                ),
        decreases disk.len() - i,
    {
        let ghost pre = disk@.take(i as int);
        let ghost next = disk@.take(i + 1);
        proof {
            assert(next.drop_last() =~= pre);
            assert(next.last() == disk@[i as int]);
        }
        let f = &disk[i];
        if should_index_path(f.path.as_str()) {
            match first_stored(stored, f.path.as_str()) {
                None => {
                    let bytes: Option<&[u8]> = match &f.contents {
                        Some(c) => Some(c.as_slice()),
                        None => None,
                    };
                    let s = create_file_snapshot(
                        root,
                        f.path.as_str(),
                        cd,
                        options.include_tests,
                        f.size_bytes,
                        f.mtime_ms,
                        bytes,
                        &f.parser_id,
                        f.parser_version.as_str(),
                    );
                    let ghost old_added = added@;
                    added.push(s);
                    proof {
                        assert forall|k: int| 0 <= k < added@.len() implies added_snapshot_ok(
                            #[trigger] added@[k],
                            root@,
                            disk_of_class(next, stored@, cd, 0)[k],
                            *options,
                        ) by {
                            if k < old_added.len() {
                                assert(added@[k] == old_added[k]);
                            }
                        }
                    }
                },
                Some(pos) => {
                    let mtime = match f.mtime_ms {
                        Some(t) => t,
                        None => 0,
                    };
                    let size = match f.size_bytes {
                        Some(n) => n,
                        None => 0,
                    };
                    let h = disk_hash(f, cd);
                    let (changed, s) = compare_file(f.path.as_str(), &stored[pos].1, cd, mtime, size, h);
                    if changed {
                        let ghost old_m = modified@;
                        modified.push(s);
                        proof {
                            assert forall|k: int| 0 <= k < modified@.len() implies known_snapshot_ok(
                                #[trigger] modified@[k],
                                disk_of_class(next, stored@, cd, 1)[k],
                                stored@,
                                cd,
                            ) by {
                                if k < old_m.len() {
                                    assert(modified@[k] == old_m[k]);
                                }
                            }
                        }
                    } else {
                        let ghost old_u = unchanged@;
                        unchanged.push(s);
                        proof {
                            assert forall|k: int| 0 <= k < unchanged@.len() implies known_snapshot_ok(
                                #[trigger] unchanged@[k],
                                disk_of_class(next, stored@, cd, 2)[k],
                                stored@,
                                cd,
                            ) by {
                                if k < old_u.len() {
                                    assert(unchanged@[k] == old_u[k]);
                                }
                            }
                        }
                    }
                },
            }
        }
        i = i + 1;
    }
    assert(disk@.take(disk.len() as int) =~= disk@);
    let mut deleted: Vec<String> = Vec::new();
    let mut j: usize = 0;
    while j < stored.len()
        invariant
            j <= stored.len(),
            deleted@.map_values(|s: String| s@) == deleted_paths(stored@.take(j as int), disk@),
        decreases stored.len() - j,
    {
        proof {
            assert(stored@.take(j + 1).drop_last() =~= stored@.take(j as int));
        }
        let p = stored[j].0.as_str();
        let mut found = false;
        let mut t: usize = 0;
        while t < disk.len()
            invariant
                t <= disk.len(),
                p@ == stored@[j as int].0@,
                found == exists|q: int|
                    0 <= q < t && indexable(#[trigger] disk@[q].path@) && same_path(disk@[q].path@, p@),
            decreases disk.len() - t,
        {
            if !found {
                if should_index_path(disk[t].path.as_str()) && paths_equal(disk[t].path.as_str(), p) {
                    found = true;
                }
            }
            t = t + 1;
        }
        if !found {
            deleted.push(owned(p));
        }
        j = j + 1;
        assert(deleted@.map_values(|s: String| s@) =~= deleted_paths(stored@.take(j as int), disk@));
    }
    assert(stored@.take(stored.len() as int) =~= stored@);
    IndexDiff { added, modified, deleted, unchanged }
}

} // verus!
