//! What an incremental update has to resolve again.
//!
//! When files are deleted or rewritten, the symbols they held go away, and every
//! call that had been resolved to one of those symbols must be resolved anew.
//! The caller reads the stored rows; the functions here decide which of them
//! are affected.
use vstd::prelude::*;
use crate::model::{EdgeKind, FileId, Occurrence, OccurrenceId, SymbolId};
use crate::storage::StagedFileUpdate;
use crate::strings::str_eq;

verus! {

/// The files, symbols and occurrences an incremental update touches.
#[derive(Debug)]
pub struct AffectedSet {
    pub files: Vec<FileId>,
    pub symbols: Vec<SymbolId>,
    pub occurrences: Vec<OccurrenceId>,
    pub edge_kinds: Vec<EdgeKind>,
    pub resolvers: Vec<String>,
}

/// No value occurs twice in `s`.
pub open spec fn no_repeats<T>(s: Seq<T>) -> bool {
    forall|i: int, j: int| 0 <= i < j < s.len() ==> s[i] != s[j]
}

/// `f` is the stored id of a deleted path, or the id a rewritten file had.
pub open spec fn is_affected_file(
    deleted_ids: Seq<Option<FileId>>,
    staged: Seq<StagedFileUpdate>,
    f: FileId,
) -> bool {
    (exists|i: int| 0 <= i < deleted_ids.len() && deleted_ids[i] == Some(f))
        || (exists|j: int| 0 <= j < staged.len() && (#[trigger] staged[j]).previous_file_id == Some(f))
}

/// `s` is a stored symbol of one of `files`.
pub open spec fn is_affected_symbol(files: Seq<FileId>, symbol_files: Seq<(SymbolId, FileId)>, s: SymbolId) -> bool {
    exists|k: int| 0 <= k < symbol_files.len() && (#[trigger] symbol_files[k]).0 == s && files.contains(symbol_files[k].1)
}

/// `o` is the occurrence of a stored edge that points at one of `symbols`.
pub open spec fn is_affected_occurrence(
    symbols: Seq<SymbolId>,
    edge_targets: Seq<(OccurrenceId, SymbolId)>,
    o: OccurrenceId,
) -> bool {
    exists|k: int| 0 <= k < edge_targets.len() && (#[trigger] edge_targets[k]).0 == o && symbols.contains(edge_targets[k].1)
}

/// The resolvers an update may use: resolution by name, then each resolver
/// of the registered backends, each named once.
pub open spec fn is_affected_resolver(resolver_ids: Seq<String>, r: Seq<char>) -> bool {
    r == "noop"@ || names_contain(resolver_ids, r)
}

/// One of `names` is `t`.
pub open spec fn names_contain(names: Seq<String>, t: Seq<char>) -> bool {
    exists|k: int| 0 <= k < names.len() && (#[trigger] names[k])@ == t
}

fn has_file(v: &Vec<FileId>, f: FileId) -> (r: bool)
    ensures
        r == v@.contains(f),
{
    let mut i: usize = 0;
    while i < v.len()
        invariant
            0 <= i <= v.len(),
            forall|k: int| 0 <= k < i ==> v@[k] != f,
        decreases v.len() - i,
    {
        if v[i].0 == f.0 {
            assert(v@[i as int] == f);
            return true;
        }
        i += 1;
    }
    false
}

fn add_file(v: &mut Vec<FileId>, f: FileId)
    requires
        no_repeats(old(v)@),
    ensures
        no_repeats(final(v)@),
        forall|x: FileId| final(v)@.contains(x) <==> (old(v)@.contains(x) || x == f),
{
    if !has_file(v, f) {
        v.push(f);
        proof {
            assert forall|x: FileId| v@.contains(x) <==> (old(v)@.contains(x) || x == f) by {
                if old(v)@.contains(x) {
                    let k = choose|k: int| 0 <= k < old(v)@.len() && old(v)@[k] == x;
                    assert(v@[k] == x);
                }
                if x == f {
                    assert(v@[v@.len() - 1] == x);
                }
            }
        }
    }
}

fn has_symbol(v: &Vec<SymbolId>, s: SymbolId) -> (r: bool)
    ensures
        r == v@.contains(s),
{
    let mut i: usize = 0;
    while i < v.len()
        invariant
            0 <= i <= v.len(),
            forall|k: int| 0 <= k < i ==> v@[k] != s,
        decreases v.len() - i,
    {
        if v[i].0 == s.0 {
            assert(v@[i as int] == s);
            return true;
        }
        i += 1;
    }
    false
}

fn add_symbol(v: &mut Vec<SymbolId>, s: SymbolId)
    requires
        no_repeats(old(v)@),
    ensures
        no_repeats(final(v)@),
        forall|x: SymbolId| final(v)@.contains(x) <==> (old(v)@.contains(x) || x == s),
{
    if !has_symbol(v, s) {
        v.push(s);
        proof {
            assert forall|x: SymbolId| v@.contains(x) <==> (old(v)@.contains(x) || x == s) by {
                if old(v)@.contains(x) {
                    let k = choose|k: int| 0 <= k < old(v)@.len() && old(v)@[k] == x;
                    assert(v@[k] == x);
                }
                if x == s {
                    assert(v@[v@.len() - 1] == x);
                }
            }
        }
    }
}

fn has_occurrence(v: &Vec<OccurrenceId>, o: OccurrenceId) -> (r: bool)
    ensures
        r == v@.contains(o),
{
    let mut i: usize = 0;
    while i < v.len()
        invariant
            0 <= i <= v.len(),
            forall|k: int| 0 <= k < i ==> v@[k] != o,
        decreases v.len() - i,
    {
        if v[i].0 == o.0 {
            assert(v@[i as int] == o);
            return true;
        }
        i += 1;
    }
    false
}

fn add_occurrence(v: &mut Vec<OccurrenceId>, o: OccurrenceId)
    requires
        no_repeats(old(v)@),
    ensures
        no_repeats(final(v)@),
        forall|x: OccurrenceId| final(v)@.contains(x) <==> (old(v)@.contains(x) || x == o),
{
    if !has_occurrence(v, o) {
        v.push(o);
        proof {
            assert forall|x: OccurrenceId| v@.contains(x) <==> (old(v)@.contains(x) || x == o) by {
                if old(v)@.contains(x) {
                    let k = choose|k: int| 0 <= k < old(v)@.len() && old(v)@[k] == x;
                    assert(v@[k] == x);
                }
                if x == o {
                    assert(v@[v@.len() - 1] == x);
                }
            }
        }
    }
}

fn has_name(v: &Vec<String>, t: &str) -> (r: bool)
    ensures
        r == names_contain(v@, t@),
{
    let mut i: usize = 0;
    while i < v.len()
        invariant
            0 <= i <= v.len(),
            forall|k: int| 0 <= k < i ==> (#[trigger] v@[k])@ != t@,
        decreases v.len() - i,
    {
        if str_eq(v[i].as_str(), t) {
            return true;
        }
        i += 1;
    }
    false
}

/// What an incremental update touches.
///
/// `deleted_ids` holds, for each deleted path, the id it was stored under (none
/// where it was not stored); `staged` the files parsed again; `symbol_files`
/// each stored symbol with its file; `edge_targets` each stored edge that has an
/// occurrence and a target, as that pair; `resolver_ids` the resolvers of the
/// registered backends. The files are those deleted or rewritten, the symbols
/// those stored in them, the occurrences those of edges that point at one of
/// those symbols; each is listed once.
pub fn compute_affected_set(
    deleted_ids: &Vec<Option<FileId>>,
    staged: &Vec<StagedFileUpdate>,
    symbol_files: &Vec<(SymbolId, FileId)>,
    edge_targets: &Vec<(OccurrenceId, SymbolId)>,
    resolver_ids: &Vec<String>,
) -> (r: AffectedSet)
    ensures
        no_repeats(r.files@),
        forall|f: FileId| #[trigger] r.files@.contains(f) <==> is_affected_file(deleted_ids@, staged@, f),
        no_repeats(r.symbols@),
        forall|s: SymbolId| #[trigger] r.symbols@.contains(s) <==> is_affected_symbol(r.files@, symbol_files@, s),
        no_repeats(r.occurrences@),
        forall|o: OccurrenceId| #[trigger] r.occurrences@.contains(o) <==> is_affected_occurrence(
            r.symbols@,
            edge_targets@,
            o,
        ),
        r.edge_kinds@ == seq![EdgeKind::Call],
        forall|i: int, j: int| 0 <= i < j < r.resolvers.len() ==> r.resolvers@[i]@ != r.resolvers@[j]@,
        forall|t: Seq<char>| #[trigger] names_contain(r.resolvers@, t) <==> is_affected_resolver(resolver_ids@, t),
{
    let mut files: Vec<FileId> = Vec::new();
    for i in 0..deleted_ids.len()
        invariant
            no_repeats(files@),
            forall|f: FileId| #[trigger] files@.contains(f) <==> exists|k: int| 0 <= k < i && deleted_ids@[k] == Some(f),
    {
        let ghost before = files@;
        if let Some(f) = deleted_ids[i] {
            add_file(&mut files, f);
        }
        proof {
            assert forall|f: FileId| #[trigger] files@.contains(f) <==> exists|k: int| 0 <= k < i + 1 && deleted_ids@[k] == Some(f) by {
                if deleted_ids@[i as int] == Some(f) {
                    assert(0 <= i < i + 1 && deleted_ids@[i as int] == Some(f));
                }
                if exists|k: int| 0 <= k < i + 1 && deleted_ids@[k] == Some(f) {
                    let k = choose|k: int| 0 <= k < i + 1 && deleted_ids@[k] == Some(f);
                    if k < i {
                        assert(before.contains(f));
                    }
                }
            }
        }
    }
    for j in 0..staged.len()
        invariant
            no_repeats(files@),
            forall|f: FileId| #[trigger] files@.contains(f) <==> (
                (exists|k: int| 0 <= k < deleted_ids.len() && deleted_ids@[k] == Some(f))
                || exists|k: int| 0 <= k < j && (#[trigger] staged@[k]).previous_file_id == Some(f)),
    {
        let ghost before = files@;
        if let Some(f) = staged[j].previous_file_id {
            add_file(&mut files, f);
        }
        proof {
            assert forall|f: FileId| #[trigger] files@.contains(f) <==> (
                (exists|k: int| 0 <= k < deleted_ids.len() && deleted_ids@[k] == Some(f))
                || exists|k: int| 0 <= k < j + 1 && (#[trigger] staged@[k]).previous_file_id == Some(f)) by {
                if staged@[j as int].previous_file_id == Some(f) {
                    assert(0 <= j < j + 1 && staged@[j as int].previous_file_id == Some(f));
                }
                if exists|k: int| 0 <= k < j + 1 && (#[trigger] staged@[k]).previous_file_id == Some(f) {
                    let k = choose|k: int| 0 <= k < j + 1 && (#[trigger] staged@[k]).previous_file_id == Some(f);
                    if k < j {
                        assert(before.contains(f));
                    }
                }
            }
        }
    }
    let mut symbols: Vec<SymbolId> = Vec::new();
    for k in 0..symbol_files.len()
        invariant
            no_repeats(symbols@),
            forall|s: SymbolId| #[trigger] symbols@.contains(s) <==> is_affected_symbol(files@, symbol_files@.take(k as int), s),
    {
        let ghost before = symbols@;
        let (s0, f0) = symbol_files[k];
        if has_file(&files, f0) {
            add_symbol(&mut symbols, s0);
        }
        proof {
            let pre = symbol_files@.take(k as int);
            let cur = symbol_files@.take(k + 1);
            assert forall|s: SymbolId| #[trigger] symbols@.contains(s) <==> is_affected_symbol(files@, cur, s) by {
                if s == s0 && files@.contains(f0) {
                    assert(cur[k as int] == symbol_files@[k as int]);
                }
                if is_affected_symbol(files@, cur, s) {
                    let m = choose|m: int| 0 <= m < cur.len() && (#[trigger] cur[m]).0 == s && files@.contains(cur[m].1);
                    if m < k {
                        assert(pre[m] == cur[m]);
                        assert(before.contains(s));
                    }
                }
                if before.contains(s) {
                    let m = choose|m: int| 0 <= m < pre.len() && (#[trigger] pre[m]).0 == s && files@.contains(pre[m].1);
                    assert(cur[m] == pre[m]);
                }
            }
        }
    }
    assert(symbol_files@.take(symbol_files.len() as int) == symbol_files@);
    let mut occurrences: Vec<OccurrenceId> = Vec::new();
    for k in 0..edge_targets.len()
        invariant
            no_repeats(occurrences@),
            forall|o: OccurrenceId| #[trigger] occurrences@.contains(o) <==> is_affected_occurrence(
                symbols@,
                edge_targets@.take(k as int),
                o,
            ),
    {
        let ghost before = occurrences@;
        let (o0, s0) = edge_targets[k];
        if has_symbol(&symbols, s0) {
            add_occurrence(&mut occurrences, o0);
        }
        proof {
            let pre = edge_targets@.take(k as int);
            let cur = edge_targets@.take(k + 1);
            assert forall|o: OccurrenceId| #[trigger] occurrences@.contains(o) <==> is_affected_occurrence(symbols@, cur, o) by {
                if o == o0 && symbols@.contains(s0) {
                    assert(cur[k as int] == edge_targets@[k as int]);
                }
                if is_affected_occurrence(symbols@, cur, o) {
                    let m = choose|m: int| 0 <= m < cur.len() && (#[trigger] cur[m]).0 == o && symbols@.contains(cur[m].1);
                    if m < k {
                        assert(pre[m] == cur[m]);
                        assert(before.contains(o));
                    }
                }
                if before.contains(o) {
                    let m = choose|m: int| 0 <= m < pre.len() && (#[trigger] pre[m]).0 == o && symbols@.contains(pre[m].1);
                    assert(cur[m] == pre[m]);
                }
            }
        }
    }
    assert(edge_targets@.take(edge_targets.len() as int) == edge_targets@);
    let mut resolvers: Vec<String> = Vec::new();
    resolvers.push("noop".to_string());
    proof {
        assert(resolvers@[0]@ == "noop"@);
        assert forall|t: Seq<char>| #[trigger] names_contain(resolvers@, t) <==> (t == "noop"@ || names_contain(
            resolver_ids@.take(0),
            t,
        )) by {
            if t == "noop"@ {
                assert(resolvers@[0]@ == t);
            }
        }
    }
    for k in 0..resolver_ids.len()
        invariant
            forall|a: int, b: int| 0 <= a < b < resolvers.len() ==> resolvers@[a]@ != resolvers@[b]@,
            forall|t: Seq<char>| #[trigger] names_contain(resolvers@, t) <==> (t == "noop"@ || names_contain(
                resolver_ids@.take(k as int),
                t,
            )),
    {
        let ghost before = resolvers@;
        let ghost pre = resolver_ids@.take(k as int);
        let ghost cur = resolver_ids@.take(k + 1);
        let ghost name = resolver_ids@[k as int]@;
        let present = has_name(&resolvers, resolver_ids[k].as_str());
        if !present {
            resolvers.push(resolver_ids[k].clone());
        }
        proof {
            assert(cur[k as int] == resolver_ids@[k as int]);
            assert forall|t: Seq<char>| #[trigger] names_contain(resolvers@, t) <==> (t == "noop"@ || names_contain(cur, t)) by {
                if names_contain(resolvers@, t) {
                    let m = choose|m: int| 0 <= m < resolvers@.len() && (#[trigger] resolvers@[m])@ == t;
                    if m < before.len() {
                        assert(before[m] == resolvers@[m]);
                        assert(names_contain(before, t));
                        if t != "noop"@ {
                            let q = choose|q: int| 0 <= q < pre.len() && (#[trigger] pre[q])@ == t;
                            assert(cur[q] == pre[q]);
                        }
                    } else {
                        assert(name == t);
                    }
                }
                if t == "noop"@ || names_contain(cur, t) {
                    if t == "noop"@ {
                        assert(names_contain(before, t));
                    } else {
                        let q = choose|q: int| 0 <= q < cur.len() && (#[trigger] cur[q])@ == t;
                        if q < k {
                            assert(pre[q] == cur[q]);
                            assert(names_contain(pre, t));
                        } else {
                            assert(name == t);
                        }
                    }
                    if names_contain(before, t) {
                        let m = choose|m: int| 0 <= m < before.len() && (#[trigger] before[m])@ == t;
                        assert(resolvers@[m] == before[m]);
                    } else {
                        assert(!present);
                        assert(resolvers@[resolvers.len() - 1]@ == t);
                    }
                }
            }
        }
    }
    assert(resolver_ids@.take(resolver_ids.len() as int) == resolver_ids@);
    let mut edge_kinds: Vec<EdgeKind> = Vec::new();
    edge_kinds.push(EdgeKind::Call);
    AffectedSet { files, symbols, occurrences, edge_kinds, resolvers }
}

/// The occurrence lies in one of `files`, or is one of `occurrences`.
pub open spec fn resolves_again(o: Occurrence, files: Seq<FileId>, occurrences: Seq<OccurrenceId>) -> bool {
    (o.file_id matches Some(f) && files.contains(f)) || (o.id matches Some(i) && occurrences.contains(i))
}

/// The stored occurrences an update resolves again, in their stored order: those
/// of the files it parsed again and those whose edges it dropped.
pub fn occurrences_to_resolve(
    stored: Vec<Occurrence>,
    parsed_files: &Vec<FileId>,
    affected: &Vec<OccurrenceId>,
) -> (r: Vec<Occurrence>)
    ensures
        r@ == stored@.filter(|o: Occurrence| resolves_again(o, parsed_files@, affected@)),
{
    let ghost all = stored@;
    let ghost pred = |o: Occurrence| resolves_again(o, parsed_files@, affected@);
    let mut kept: Vec<Occurrence> = Vec::new();
    let ghost mut n: int = 0;
    proof {
        reveal(Seq::filter);
        assert(all.take(0).filter(pred) =~= Seq::<Occurrence>::empty());
    }
    for o in it: stored.into_iter()
        invariant
            it.seq() == all,
            n == it.index(),
            0 <= n <= all.len(),
            pred == (|o: Occurrence| resolves_again(o, parsed_files@, affected@)),
            kept@ == all.take(n).filter(pred),
    {
        proof {
            reveal(Seq::filter);
            assert(all.take(n + 1).drop_last() =~= all.take(n));
            assert(o == all[n]);
            assert(all.take(n + 1).last() == o);
        }
        let in_file = match o.file_id {
            Some(f) => has_file(parsed_files, f),
            None => false,
        };
        let listed = match o.id {
            Some(i) => has_occurrence(affected, i),
            None => false,
        };
        if in_file || listed {
            kept.push(o);
        }
        proof {
            n = n + 1;
        }
    }
    proof {
        assert(all.take(all.len() as int) =~= all);
    }
    kept
}

/// A call whose edge pointed at a symbol of a deleted or rewritten file is
/// resolved again: given the affected files, symbols and occurrences as
/// `compute_affected_set` gives them, the stored occurrence of such an edge is
/// among `occurrences_to_resolve`, whatever files were parsed again.
pub proof fn law_calls_into_changed_files_are_resolved_again(
    deleted_ids: Seq<Option<FileId>>,
    staged: Seq<StagedFileUpdate>,
    symbol_files: Seq<(SymbolId, FileId)>,
    edge_targets: Seq<(OccurrenceId, SymbolId)>,
    files: Seq<FileId>,
    symbols: Seq<SymbolId>,
    occurrences: Seq<OccurrenceId>,
    stored: Seq<Occurrence>,
    parsed_files: Seq<FileId>,
    q: int,
    k: int,
    m: int,
)
    requires
        forall|f: FileId| #[trigger] files.contains(f) <==> is_affected_file(deleted_ids, staged, f),
        forall|s: SymbolId| #[trigger] symbols.contains(s) <==> is_affected_symbol(files, symbol_files, s),
        forall|o: OccurrenceId| #[trigger] occurrences.contains(o) <==> is_affected_occurrence(
            symbols,
            edge_targets,
            o,
        ),
        0 <= q < stored.len(),
        0 <= k < edge_targets.len(),
        0 <= m < symbol_files.len(),
        stored[q].id == Some(edge_targets[k].0),
        symbol_files[m].0 == edge_targets[k].1,
        is_affected_file(deleted_ids, staged, symbol_files[m].1),
    ensures
        stored.filter(|o: Occurrence| resolves_again(o, parsed_files, occurrences)).contains(stored[q]),
{
    broadcast use vstd::seq_lib::group_filter_ensures;
    let pred = |o: Occurrence| resolves_again(o, parsed_files, occurrences);
    assert(files.contains(symbol_files[m].1));
    assert(is_affected_symbol(files, symbol_files, symbol_files[m].0));
    assert(symbols.contains(edge_targets[k].1));
    assert(is_affected_occurrence(symbols, edge_targets, edge_targets[k].0));
    assert(occurrences.contains(edge_targets[k].0));
    assert(pred(stored[q]));
    stored.lemma_filter_contains(pred, q);
}

} // verus!
