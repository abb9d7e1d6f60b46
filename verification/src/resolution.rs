//! Resolving a query to one indexed symbol.
//!
//! The caller looks the query up in the store four ways (exact qualified name,
//! exact name, qualified name containing it, name containing it); the functions
//! here merge what came back and decide which symbol, if any, the query names.
use vstd::prelude::*;
use crate::model::{LanguageObject, LanguageObjectKind, SourceRange, Symbol, SymbolId, SymbolResolution, object_kind_of};
use crate::strings::str_eq;

verus! {

/// Some symbol of `s` has the id `id`.
pub open spec fn has_id(s: Seq<Symbol>, id: Option<SymbolId>) -> bool {
    exists|j: int| 0 <= j < s.len() && (#[trigger] s[j]).id == id
}

/// The rows, each id kept at its first row only.
pub open spec fn first_of_each_id(rows: Seq<Symbol>) -> Seq<Symbol>
    decreases rows.len(),
{
    if rows.len() == 0 {
        Seq::empty()
    } else if has_id(rows.drop_last(), rows.last().id) {
        first_of_each_id(rows.drop_last())
    } else {
        first_of_each_id(rows.drop_last()).push(rows.last())
    }
}

/// Merging keeps every id that was found.
proof fn lemma_first_of_each_has(rows: Seq<Symbol>, x: Option<SymbolId>)
    ensures
        has_id(first_of_each_id(rows), x) == has_id(rows, x),
    decreases rows.len(),
{
    if rows.len() > 0 {
        let pre = rows.drop_last();
        let f = first_of_each_id(rows);
        let fp = first_of_each_id(pre);
        lemma_first_of_each_has(pre, x);
        lemma_first_of_each_has(pre, rows.last().id);
        if has_id(rows, x) {
            let j = choose|j: int| 0 <= j < rows.len() && (#[trigger] rows[j]).id == x;
            if j < pre.len() {
                assert(pre[j] == rows[j]);
                assert(has_id(pre, x));
                let q = choose|q: int| 0 <= q < fp.len() && (#[trigger] fp[q]).id == x;
                assert(f[q] == fp[q]);
            } else if !has_id(pre, rows.last().id) {
                assert(f[f.len() - 1].id == x);
            } else {
                let q = choose|q: int| 0 <= q < fp.len() && (#[trigger] fp[q]).id == rows.last().id;
                assert(f[q] == fp[q]);
            }
        }
        if has_id(f, x) {
            let q = choose|q: int| 0 <= q < f.len() && (#[trigger] f[q]).id == x;
            if q < fp.len() {
                assert(f[q] == fp[q]);
                assert(has_id(fp, x));
                let j = choose|j: int| 0 <= j < pre.len() && (#[trigger] pre[j]).id == x;
                assert(rows[j] == pre[j]);
            } else {
                assert(rows[rows.len() - 1].id == x);
            }
        }
    }
}

/// The rows merged from the lookups carry each symbol id once.
pub proof fn law_merged_ids_distinct(rows: Seq<Symbol>)
    ensures
        forall|i: int, j: int|
            0 <= i < j < first_of_each_id(rows).len() ==> (#[trigger] first_of_each_id(rows)[i]).id
                != (#[trigger] first_of_each_id(rows)[j]).id,
    decreases rows.len(),
{
    if rows.len() > 0 {
        let pre = rows.drop_last();
        let f = first_of_each_id(rows);
        let fp = first_of_each_id(pre);
        law_merged_ids_distinct(pre);
        lemma_first_of_each_has(pre, rows.last().id);
        assert forall|i: int, j: int| 0 <= i < j < f.len() implies (#[trigger] f[i]).id != (#[trigger] f[j]).id by {
            if j < fp.len() {
                assert(f[i] == fp[i] && f[j] == fp[j]);
            } else {
                assert(f[i] == fp[i]);
                assert(f[j] == rows.last());
                if f[i].id == f[j].id {
                    assert(has_id(fp, rows.last().id));
                }
            }
        }
    }
}

/// Merges the rows the lookups returned, in order, keeping the first row of each
/// symbol id.
pub fn merge_found(rows: Vec<Symbol>) -> (r: Vec<Symbol>)
    ensures
        r@ == first_of_each_id(rows@),
{
    let mut out: Vec<Symbol> = Vec::new();
    let mut i: usize = 0;
    while i < rows.len()
        invariant
            i <= rows.len(),
            out@ == first_of_each_id(rows@.take(i as int)),
            forall|x: Option<SymbolId>|
                #![trigger has_id(out@, x)]
                #![trigger has_id(rows@.take(i as int), x)]
                has_id(out@, x) == has_id(rows@.take(i as int), x),
        decreases rows.len() - i,
    {
        let ghost pre = rows@.take(i as int);
        let ghost next = rows@.take(i + 1);
        let ghost id = rows@[i as int].id;
        proof {
            assert(next.drop_last() =~= pre);
            assert(next.last() == rows@[i as int]);
        }
        let mut seen = false;
        let mut k: usize = 0;
        while k < out.len()
            invariant
                i < rows.len(),
                k <= out.len(),
                id == rows@[i as int].id,
                seen ==> has_id(out@, id),
                !seen ==> forall|q: int| 0 <= q < k ==> (#[trigger] out@[q]).id != id,
            decreases out.len() - k,
        {
            if !seen && out[k].id == rows[i].id {
                seen = true;
                assert(out@[k as int].id == id);
            }
            k = k + 1;
        }
        assert(seen == has_id(out@, id));
        assert(seen == has_id(pre, id));
        let ghost old_out = out@;
        if !seen {
            out.push(crate::index::copy_symbol(&rows[i]));
        }
        proof {
            assert forall|x: Option<SymbolId>| has_id(out@, x) == has_id(next, x) by {
                if has_id(next, x) {
                    let j = choose|j: int| 0 <= j < next.len() && (#[trigger] next[j]).id == x;
                    if j < i {
                        assert(pre[j] == next[j]);
                        assert(has_id(pre, x));
                        assert(has_id(old_out, x));
                        let q = choose|q: int| 0 <= q < old_out.len() && (#[trigger] old_out[q]).id == x;
                        assert(out@[q] == old_out[q]);
                    } else if !seen {
                        assert(out@[out@.len() - 1].id == x);
                    } else {
                        let q = choose|q: int| 0 <= q < old_out.len() && (#[trigger] old_out[q]).id == id;
                        assert(out@[q] == old_out[q]);
                    }
                }
                if has_id(out@, x) {
                    let q = choose|q: int| 0 <= q < out@.len() && (#[trigger] out@[q]).id == x;
                    if q < old_out.len() {
                        assert(out@[q] == old_out[q]);
                        assert(has_id(old_out, x));
                        assert(has_id(pre, x));
                        let j = choose|j: int| 0 <= j < pre.len() && (#[trigger] pre[j]).id == x;
                        assert(next[j] == pre[j]);
                    } else {
                        assert(next[i as int].id == x);
                    }
                }
            }
        }
        i = i + 1;
    }
    assert(rows@.take(rows.len() as int) =~= rows@);
    out
}

/// The object a symbol stands for in results (id 0 when it has none).
pub open spec fn object_of(s: Symbol) -> LanguageObject {
    LanguageObject {
        id: match s.id {
            Some(id) => id,
            None => SymbolId(0),
        },
        name: s.name,
        qualified_name: s.qualified_name,
        kind: object_kind_of(s.kind),
        file_path: s.file,
        range: SourceRange {
            start_line: s.range.start_line,
            start_col: s.range.start_col,
            end_line: s.range.end_line,
            end_col: s.range.end_col,
        },
        signature: None,
        language: Some(s.language.0),
    }
}

/// How well a candidate matches the query: 0 by qualified name, 1 by name, 2
/// only partly.
pub open spec fn match_rank(s: Symbol, query: Seq<char>) -> int {
    if s.qualified_name@ == query {
        0
    } else if s.name@ == query {
        1
    } else {
        2
    }
}

/// The objects of the candidates that match with one rank, in order.
pub open spec fn objects_of_rank(cs: Seq<Symbol>, query: Seq<char>, rank: int) -> Seq<LanguageObject>
    decreases cs.len(),
{
    if cs.len() == 0 {
        Seq::empty()
    } else if match_rank(cs.last(), query) == rank {
        objects_of_rank(cs.drop_last(), query, rank).push(object_of(cs.last()))
    } else {
        objects_of_rank(cs.drop_last(), query, rank)
    }
}

/// What a group of equally good matches resolves to: the one, or all of them.
pub open spec fn group_resolution(g: Seq<LanguageObject>, r: SymbolResolution) -> bool {
    if g.len() == 1 {
        r == SymbolResolution::Unique(g[0])
    } else {
        r matches SymbolResolution::Ambiguous(v) && v@ == g
    }
}

/// What the candidates found for a query resolve to: nothing when there are
/// none; else the best group (exact qualified name, else exact name, else the
/// rest), a single match being unique.
pub open spec fn resolution_ok(cs: Seq<Symbol>, query: Seq<char>, r: SymbolResolution) -> bool {
    let q = objects_of_rank(cs, query, 0);
    let n = objects_of_rank(cs, query, 1);
    let p = objects_of_rank(cs, query, 2);
    if cs.len() == 0 {
        r == SymbolResolution::NotFound
    } else if q.len() > 0 {
        group_resolution(q, r)
    } else if n.len() > 0 {
        group_resolution(n, r)
    } else {
        group_resolution(p, r)
    }
}

fn object_from(s: &Symbol) -> (o: LanguageObject)
    ensures
        o == object_of(*s),
{
    LanguageObject {
        id: match s.id {
            Some(id) => id,
            None => SymbolId(0),
        },
        name: s.name.clone(),
        qualified_name: s.qualified_name.clone(),
        kind: LanguageObjectKind::from(s.kind),
        file_path: s.file.clone(),
        range: SourceRange::from(s.range),
        signature: None,
        language: Some(s.language.0.clone()),
    }
}

fn group_of(g: Vec<LanguageObject>) -> (r: SymbolResolution)
    ensures
        group_resolution(g@, r),
{
    if g.len() == 1 {
        let mut g = g;
        SymbolResolution::Unique(g.remove(0))
    } else {
        SymbolResolution::Ambiguous(g)
    }
}

/// Resolves a query from the candidates found for it (see `resolution_ok`).
pub fn resolve_candidates(query: &str, candidates: Vec<Symbol>) -> (r: SymbolResolution)
    ensures
        resolution_ok(candidates@, query@, r),
{
    if candidates.len() == 0 {
        return SymbolResolution::NotFound;
    }
    let mut exact_qualified: Vec<LanguageObject> = Vec::new();
    let mut exact_name: Vec<LanguageObject> = Vec::new();
    let mut partial: Vec<LanguageObject> = Vec::new();
    let mut i: usize = 0;
    while i < candidates.len()
        invariant
            i <= candidates.len(),
            exact_qualified@ == objects_of_rank(candidates@.take(i as int), query@, 0),
            exact_name@ == objects_of_rank(candidates@.take(i as int), query@, 1),
            partial@ == objects_of_rank(candidates@.take(i as int), query@, 2),
        decreases candidates.len() - i,
    {
        proof {
            assert(candidates@.take(i + 1).drop_last() =~= candidates@.take(i as int));
            assert(candidates@.take(i + 1).last() == candidates@[i as int]);
        }
        let s = &candidates[i];
        let obj = object_from(s);
        if str_eq(s.qualified_name.as_str(), query) {
            exact_qualified.push(obj);
        } else if str_eq(s.name.as_str(), query) {
            exact_name.push(obj);
        } else {
            partial.push(obj);
        }
        i = i + 1;
    }
    assert(candidates@.take(candidates.len() as int) =~= candidates@);
    if exact_qualified.len() > 0 {
        group_of(exact_qualified)
    } else if exact_name.len() > 0 {
        group_of(exact_name)
    } else {
        group_of(partial)
    }
}

} // verus!
