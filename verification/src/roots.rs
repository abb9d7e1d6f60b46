//! Choosing the root symbols of a context query.
//!
//! Every indexed symbol is matched against the query; a match earns a score
//! (an exact qualified name scores highest, a shared search term lowest) and a
//! kind of match. Exact name matches become the roots, up to a limit; without
//! one, the single best match does.
use vstd::prelude::*;
use crate::model::{LanguageObject, SourceRange, Symbol, SymbolId, object_kind_of};
use crate::paths::{file_stem_of, path_file_stem};
use crate::sorting::{desc_order, order_by_key_desc};
use crate::strings::{chars_contains, chars_eq, chars_of, contains_seq, str_eq};
use crate::text::{string_views, tokenize, tokens_of};
use crate::unicode::{lowercase, to_lower};

verus! {

/// The length of a text in bytes, as `str::len` reports it.
pub open spec fn byte_len(s: Seq<char>) -> usize {
    vstd::utf8::encode_utf8(s).len() as usize
}

/// The lowercased file stem of a path, or nothing.
pub open spec fn stem_lower(file: Seq<char>) -> Seq<char> {
    match file_stem_of(file) {
        Some(s) => lowercase(s),
        None => Seq::empty(),
    }
}

/// How many of the query terms (counted with repetition) are terms of the symbol.
pub open spec fn matched_terms(query_terms: Seq<Seq<char>>, sym_terms: Seq<Seq<char>>) -> nat
    decreases query_terms.len(),
{
    if query_terms.len() == 0 {
        0
    } else {
        matched_terms(query_terms.drop_last(), sym_terms) + if sym_terms.contains(
            query_terms.last(),
        ) {
            1nat
        } else {
            0nat
        }
    }
}

/// The base score of a symbol for a query and its kind of match, from 0 (exact
/// qualified name) to 6 (shared search terms). A score of 0 means no match.
pub open spec fn root_base(sym: Symbol, query: Seq<char>) -> (int, nat) {
    let ql = lowercase(query);
    let nl = lowercase(sym.name@);
    let qnl = lowercase(sym.qualified_name@);
    let fl = lowercase(sym.file@);
    if sym.qualified_name@ == query {
        (100, 0)
    } else if sym.name@ == query {
        (90, 1)
    } else if qnl == ql {
        (80, 2)
    } else if nl == ql {
        (75, 2)
    } else if sym.file@ == query || fl == ql {
        (70, 3)
    } else if stem_lower(sym.file@) == ql {
        (60, 4)
    } else if contains_seq(qnl, ql) || contains_seq(nl, ql) {
        (40, 5)
    } else if contains_seq(fl, ql) {
        (30, 5)
    } else {
        ((10 * matched_terms(tokens_of(query), tokens_of(sym.qualified_name@))) as int, 6)
    }
}

/// Whether a symbol looks like test code.
pub open spec fn looks_like_test(sym: Symbol) -> bool {
    contains_seq(lowercase(sym.name@), "test"@) || contains_seq(
        lowercase(sym.qualified_name@),
        "test"@,
    ) || contains_seq(lowercase(sym.file@), "test"@)
}

/// Whether a symbol lives in vendored, generated or build output.
pub open spec fn looks_external(sym: Symbol) -> bool {
    let fl = lowercase(sym.file@);
    contains_seq(fl, "vendor"@) || contains_seq(fl, "node_modules"@) || contains_seq(
        fl,
        "generated"@,
    ) || contains_seq(fl, "target"@)
}

/// The score of a matching symbol: the base score, 5 less for test code and 10
/// less for external code.
pub open spec fn root_score(sym: Symbol, query: Seq<char>) -> int {
    root_base(sym, query).0 - (if looks_like_test(sym) {
        5int
    } else {
        0int
    }) - (if looks_external(sym) {
        10int
    } else {
        0int
    })
}

/// The strongest matches: a symbol whose qualified name is the query has base
/// score 100 and match kind 0; else one whose name is the query has 90 and kind
/// 1; both count as exact matches.
pub proof fn law_root_base_exact(a: Symbol, query: Seq<char>)
    ensures
        a.qualified_name@ == query ==> root_base(a, query) == (100int, 0nat),
        a.qualified_name@ != query && a.name@ == query ==> root_base(a, query) == (90int, 1nat),
{
}

/// How test and external code rank as roots: a symbol's root score is its base
/// score, less 5 when it looks like test code and less 10 when it lives in
/// vendored, generated or build output (each penalty applied once); so of two
/// symbols with the same base score, an external one never outranks one that is
/// neither external nor test code, nor does a test one.
pub proof fn law_root_penalties(a: Symbol, b: Symbol, query: Seq<char>)
    ensures
        !looks_like_test(a) && !looks_external(a) ==> root_score(a, query) == root_base(a, query).0,
        looks_like_test(a) && !looks_external(a) ==> root_score(a, query) == root_base(a, query).0 - 5,
        !looks_like_test(a) && looks_external(a) ==> root_score(a, query) == root_base(a, query).0 - 10,
        looks_like_test(a) && looks_external(a) ==> root_score(a, query) == root_base(a, query).0 - 15,
        root_base(a, query).0 == root_base(b, query).0 && !looks_like_test(a) && !looks_external(a) && (
        looks_external(b) || looks_like_test(b)) ==> root_score(b, query) < root_score(a, query),
{
}

/// The indices, in order, of the first `n` symbols that match the query.
pub open spec fn candidate_indices(syms: Seq<Symbol>, query: Seq<char>, n: nat) -> Seq<usize>
    decreases n,
{
    if n == 0 {
        Seq::empty()
    } else {
        let rest = candidate_indices(syms, query, (n - 1) as nat);
        if root_base(syms[n - 1], query).0 > 0 {
            rest.push((n - 1) as usize)
        } else {
            rest
        }
    }
}

/// The sort key of each candidate: its score, then the length of its qualified name.
pub open spec fn candidate_keys(syms: Seq<Symbol>, query: Seq<char>, idx: Seq<usize>) -> Seq<
    (i64, usize),
> {
    idx.map_values(
        |i: usize| (root_score(syms[i as int], query) as i64, byte_len(syms[i as int].qualified_name@)),
    )
}

/// The exact matches (kind 0 to 2) among the candidates, in ranked order.
pub open spec fn exact_matches(syms: Seq<Symbol>, query: Seq<char>, idx: Seq<usize>, ord: Seq<usize>) -> Seq<
    usize,
>
    decreases ord.len(),
{
    if ord.len() == 0 {
        Seq::empty()
    } else {
        let rest = exact_matches(syms, query, idx, ord.drop_last());
        let i = idx[ord.last() as int];
        if root_base(syms[i as int], query).1 <= 2 {
            rest.push(i)
        } else {
            rest
        }
    }
}

/// The indices of the symbols chosen as roots: the first `max_roots` exact
/// matches in ranked order; without any, the best-ranked match; without any
/// match, none.
pub open spec fn chosen_roots(syms: Seq<Symbol>, query: Seq<char>, max_roots: nat) -> Seq<usize> {
    let idx = candidate_indices(syms, query, syms.len());
    let ord = desc_order(candidate_keys(syms, query, idx));
    let exact = exact_matches(syms, query, idx, ord);
    if exact.len() > 0 {
        exact.take(
            if max_roots < exact.len() {
                max_roots as int
            } else {
                exact.len() as int
            },
        )
    } else if idx.len() > 0 {
        seq![idx[ord[0] as int]]
    } else {
        Seq::empty()
    }
}

/// `o` presents the symbol `s` as a root.
pub open spec fn root_object_ok(o: LanguageObject, s: Symbol) -> bool {
    &&& o.id == (match s.id {
        Some(id) => id,
        None => SymbolId(0),
    })
    &&& o.name@ == s.name@
    &&& o.qualified_name@ == s.qualified_name@
    &&& o.kind == object_kind_of(s.kind)
    &&& o.file_path@ == s.file@
    &&& o.range == (SourceRange {
        start_line: s.range.start_line,
        start_col: s.range.start_col,
        end_line: s.range.end_line,
        end_col: s.range.end_col,
    })
    &&& o.signature is None
    &&& o.language matches Some(l) && l@ == s.language.0@
}

fn lower_chars(s: &str) -> (v: Vec<char>)
    ensures
        v@ == lowercase(s@),
{
    let l = to_lower(s);
    chars_of(l.as_str())
}

fn count_matched(query_terms: &Vec<String>, sym_terms: &Vec<String>) -> (n: usize)
    ensures
        n == matched_terms(string_views(query_terms@), string_views(sym_terms@)),
        n <= query_terms.len(),
{
    let ghost qv = string_views(query_terms@);
    let ghost sv = string_views(sym_terms@);
    let mut n: usize = 0;
    let mut i: usize = 0;
    while i < query_terms.len()
        invariant
            i <= query_terms.len(),
            n <= i,
            qv == string_views(query_terms@),
            sv == string_views(sym_terms@),
            n == matched_terms(qv.take(i as int), sv),
        decreases query_terms.len() - i,
    {
        let mut found = false;
        let mut j: usize = 0;
        while j < sym_terms.len()
            invariant
                j <= sym_terms.len(),
                i < query_terms.len(),
                sv == string_views(sym_terms@),
                qv == string_views(query_terms@),
                found == exists|k: int| 0 <= k < j && sv[k] == qv[i as int],
            decreases sym_terms.len() - j,
        {
            assert(sv[j as int] == sym_terms@[j as int]@);
            assert(qv[i as int] == query_terms@[i as int]@);
            if str_eq(sym_terms[j].as_str(), query_terms[i].as_str()) {
                found = true;
            }
            proof {
                if !found {
                    assert forall|k: int| 0 <= k < j + 1 implies sv[k] != qv[i as int] by {
                        if k < j {
                        }
                    }
                }
            }
            j = j + 1;
        }
        proof {
            assert(qv.take(i + 1).drop_last() =~= qv.take(i as int));
            assert(qv.take(i + 1).last() == qv[i as int]);
            if found {
                let k = choose|k: int| 0 <= k < j && sv[k] == qv[i as int];
                assert(sv.contains(qv[i as int]));
            } else {
                assert(!sv.contains(qv[i as int]));
            }
        }
        if found {
            n = n + 1;
        }
        i = i + 1;
    }
    assert(qv.take(query_terms.len() as int) =~= qv);
    n
}

/// The base score and kind of match of `sym` (see `root_base`).
fn match_symbol(sym: &Symbol, query: &str, query_lower: &Vec<char>, query_terms: &Vec<String>) -> (r: (
    i64,
    usize,
))
    requires
        query_lower@ == lowercase(query@),
        string_views(query_terms@) == tokens_of(query@),
        query_terms.len() < 0x10_0000,
    ensures
        r.0 == root_base(*sym, query@).0,
        r.1 == root_base(*sym, query@).1,
{
    let nl = lower_chars(sym.name.as_str());
    let qnl = lower_chars(sym.qualified_name.as_str());
    let fl = lower_chars(sym.file.as_str());
    if str_eq(sym.qualified_name.as_str(), query) {
        return (100, 0);
    }
    if str_eq(sym.name.as_str(), query) {
        return (90, 1);
    }
    if chars_eq(&qnl, query_lower) {
        return (80, 2);
    }
    if chars_eq(&nl, query_lower) {
        return (75, 2);
    }
    if str_eq(sym.file.as_str(), query) || chars_eq(&fl, query_lower) {
        return (70, 3);
    }
    let stem = match path_file_stem(sym.file.as_str()) {
        Some(s) => lower_chars(s.as_str()),
        None => Vec::new(),
    };
    assert(stem@ == stem_lower(sym.file@));
    if chars_eq(&stem, query_lower) {
        return (60, 4);
    }
    if chars_contains(&qnl, query_lower) || chars_contains(&nl, query_lower) {
        return (40, 5);
    }
    if chars_contains(&fl, query_lower) {
        return (30, 5);
    }
    let sym_terms = tokenize(sym.qualified_name.as_str());
    let m = count_matched(query_terms, &sym_terms);
    (10 * (m as i64), 6)
}

fn lower_contains(lower: &Vec<char>, needle: &str) -> (r: bool)
    ensures
        r == contains_seq(lower@, needle@),
{
    let n = chars_of(needle);
    chars_contains(lower, &n)
}

fn is_test_symbol(sym: &Symbol) -> (r: bool)
    ensures
        r == looks_like_test(*sym),
{
    let nl = lower_chars(sym.name.as_str());
    let qnl = lower_chars(sym.qualified_name.as_str());
    let fl = lower_chars(sym.file.as_str());
    lower_contains(&nl, "test") || lower_contains(&qnl, "test") || lower_contains(&fl, "test")
}

fn is_external_symbol(sym: &Symbol) -> (r: bool)
    ensures
        r == looks_external(*sym),
{
    let fl = lower_chars(sym.file.as_str());
    lower_contains(&fl, "vendor") || lower_contains(&fl, "node_modules") || lower_contains(
        &fl,
        "generated",
    ) || lower_contains(&fl, "target")
}

/// `sym` presented as a root (see `root_object_ok`).
fn root_object(sym: &Symbol) -> (o: LanguageObject)
    ensures
        root_object_ok(o, *sym),
{
    let id = match sym.id {
        Some(id) => id,
        None => SymbolId(0),
    };
    LanguageObject {
        id,
        name: sym.name.clone(),
        qualified_name: sym.qualified_name.clone(),
        kind: crate::model::LanguageObjectKind::from(sym.kind),
        file_path: sym.file.clone(),
        range: SourceRange::from(sym.range),
        signature: None,
        language: Some(sym.language.0.clone()),
    }
}

/// Picks the roots of a query among all indexed symbols (see `chosen_roots`).
/// Scores are whole numbers; the query is assumed to have fewer than 2^20 search
/// terms, so that they stay exact.
pub fn select_roots(symbols: &[Symbol], query: &str, max_roots: usize) -> (r: Vec<LanguageObject>)
    requires
        tokens_of(query@).len() < 0x10_0000,
    ensures
        r.len() == chosen_roots(symbols@, query@, max_roots as nat).len(),
        forall|k: int|
            0 <= k < r.len() ==> root_object_ok(
                #[trigger] r@[k],
                symbols@[chosen_roots(symbols@, query@, max_roots as nat)[k] as int],
            ),
{
    let ghost syms = symbols@;
    let ql = lower_chars(query);
    let terms = tokenize(query);
    let mut idx: Vec<usize> = Vec::new();
    let mut keys: Vec<(i64, usize)> = Vec::new();
    let mut kinds: Vec<usize> = Vec::new();
    let mut i: usize = 0;
    while i < symbols.len()
        invariant
            i <= symbols.len(),
            syms == symbols@,
            ql@ == lowercase(query@),
            string_views(terms@) == tokens_of(query@),
            terms.len() < 0x10_0000,
            idx@ == candidate_indices(syms, query@, i as nat),
            keys@ == candidate_keys(syms, query@, idx@),
            kinds.len() == idx.len(),
            forall|k: int| 0 <= k < idx.len() ==> #[trigger] idx@[k] < i,
            forall|k: int|
                0 <= k < kinds.len() ==> #[trigger] kinds@[k] == root_base(
                    syms[idx@[k] as int],
                    query@,
                ).1,
        decreases symbols.len() - i,
    {
        let (base, mt) = match_symbol(&symbols[i], query, &ql, &terms);
        if base > 0 {
            let score = base - (if is_test_symbol(&symbols[i]) {
                5
            } else {
                0
            }) - (if is_external_symbol(&symbols[i]) {
                10
            } else {
                0
            });
            let ghost idx0 = idx@;
            idx.push(i);
            keys.push((score, symbols[i].qualified_name.as_str().len()));
            kinds.push(mt);
            proof {
                assert(keys@ =~= candidate_keys(syms, query@, idx@));
            }
        }
        i = i + 1;
    }
    let ord = order_by_key_desc(&keys);
    let ghost ordv = ord@;
    let mut exact: Vec<usize> = Vec::new();
    let mut k: usize = 0;
    while k < ord.len()
        invariant
            k <= ord.len(),
            ord.len() == idx.len(),
            kinds.len() == idx.len(),
            syms == symbols@,
            forall|t: int| 0 <= t < ord.len() ==> #[trigger] ord@[t] < idx.len(),
            forall|t: int| 0 <= t < idx.len() ==> #[trigger] idx@[t] < symbols.len(),
            forall|t: int|
                0 <= t < kinds.len() ==> #[trigger] kinds@[t] == root_base(
                    syms[idx@[t] as int],
                    query@,
                ).1,
            exact@ == exact_matches(syms, query@, idx@, ord@.take(k as int)),
            forall|t: int| 0 <= t < exact.len() ==> #[trigger] exact@[t] < symbols.len(),
        decreases ord.len() - k,
    {
        let o = ord[k];
        proof {
            assert(ord@.take(k + 1).drop_last() =~= ord@.take(k as int));
        }
        if kinds[o] <= 2 {
            exact.push(idx[o]);
        }
        k = k + 1;
    }
    assert(ord@.take(ord.len() as int) =~= ord@);
    let ghost chosen = chosen_roots(syms, query@, max_roots as nat);
    let mut picked: Vec<usize> = Vec::new();
    if exact.len() > 0 {
        let n = if max_roots < exact.len() {
            max_roots
        } else {
            exact.len()
        };
        let mut t: usize = 0;
        while t < n
            invariant
                t <= n,
                n <= exact.len(),
                picked@ == exact@.take(t as int),
            decreases n - t,
        {
            picked.push(exact[t]);
            t = t + 1;
            assert(picked@ =~= exact@.take(t as int));
        }
    } else if idx.len() > 0 {
        picked.push(idx[ord[0]]);
    }
    assert(picked@ =~= chosen);
    let mut out: Vec<LanguageObject> = Vec::new();
    let mut t: usize = 0;
    while t < picked.len()
        invariant
            t <= picked.len(),
            syms == symbols@,
            picked@ == chosen,
            forall|q: int| 0 <= q < picked.len() ==> #[trigger] picked@[q] < symbols.len(),
            out.len() == t,
            forall|q: int|
                0 <= q < t ==> root_object_ok(#[trigger] out@[q], syms[picked@[q] as int]),
        decreases picked.len() - t,
    {
        out.push(root_object(&symbols[picked[t]]));
        t = t + 1;
    }
    out
}

} // verus!
