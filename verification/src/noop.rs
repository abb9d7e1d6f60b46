//! Name-only call resolution: match the last segment of a call's text against
//! the names of indexed functions and methods.
use vstd::prelude::*;
use crate::model::{ResolutionConfidence, Symbol, SymbolKind};
use crate::strings::{chars_of, chars_has, chars_slice, string_from_chars, last_index_of, lemma_last_index_of, chars_rfind};
use crate::paths::{same_path, paths_equal};

verus! {

/// Start of the last `::` in `s`, if any.
pub open spec fn last_path_sep(s: Seq<char>) -> Option<int>
    decreases s.len(),
{
    if s.len() < 2 {
        None
    } else if s[s.len() - 2] == ':' && s[s.len() - 1] == ':' {
        Some(s.len() - 2)
    } else {
        last_path_sep(s.drop_last())
    }
}

proof fn lemma_last_path_sep(s: Seq<char>)
    ensures
        match last_path_sep(s) {
            Some(i) => 0 <= i && i + 2 <= s.len() && s[i] == ':' && s[i + 1] == ':',
            None => forall|i: int| 0 <= i && i + 1 < s.len() ==> !(#[trigger] s[i] == ':' && s[i + 1] == ':'),
        },
    decreases s.len(),
{
    if s.len() >= 2 && !(s[s.len() - 2] == ':' && s[s.len() - 1] == ':') {
        lemma_last_path_sep(s.drop_last());
        assert forall|i: int| 0 <= i < s.len() - 1 implies s[i] == #[trigger] s.drop_last()[i] by {}
        if last_path_sep(s.drop_last()) is None {
            assert forall|i: int| 0 <= i && i + 1 < s.len() implies !(#[trigger] s[i] == ':' && s[i + 1] == ':') by {
                if i + 1 < s.len() - 1 {
                    assert(s.drop_last()[i] == s[i] && s.drop_last()[i + 1] == s[i + 1]);
                }
            }
        }
    }
}

/// Whether `s` contains `::`.
pub open spec fn has_path_sep(s: Seq<char>) -> bool {
    last_path_sep(s) is Some
}

/// The last segment of a call's text: what follows the last `::`, or else what
/// follows the last `.`, or else the whole text.
pub open spec fn raw_name_tail(s: Seq<char>) -> Seq<char> {
    match last_path_sep(s) {
        Some(i) => s.subrange(i + 2, s.len() as int),
        None => match last_index_of(s, '.') {
            Some(i) => s.subrange(i + 1, s.len() as int),
            None => s,
        },
    }
}

fn find_last_path_sep(s: &Vec<char>) -> (r: Option<usize>)
    ensures
        match r {
            Some(i) => last_path_sep(s@) == Some(i as int),
            None => last_path_sep(s@) is None,
        },
{
    let mut n: usize = s.len();
    assert(s@.subrange(0, n as int) =~= s@);
    while n >= 2
        invariant
            n <= s.len(),
            last_path_sep(s@) == last_path_sep(s@.subrange(0, n as int)),
        decreases n,
    {
        let ghost pre = s@.subrange(0, n as int);
        if s[n - 2] == ':' && s[n - 1] == ':' {
            return Some(n - 2);
        }
        assert(pre.drop_last() =~= s@.subrange(0, n - 1));
        n = n - 1;
    }
    None
}

/// The last segment of a call's text (see `raw_name_tail`).
pub fn parse_raw_name(raw_name: &str) -> (r: String)
    ensures
        r@ == raw_name_tail(raw_name@),
{
    let v = chars_of(raw_name);
    proof {
        lemma_last_path_sep(v@);
        lemma_last_index_of(v@, '.');
    }
    match find_last_path_sep(&v) {
        Some(i) => string_from_chars(&chars_slice(&v, i + 2, v.len())),
        None => match chars_rfind(&v, '.') {
            Some(i) => string_from_chars(&chars_slice(&v, i + 1, v.len())),
            None => string_from_chars(&v),
        },
    }
}

/// A call written `a.b` (without `::`) is a method call.
pub open spec fn is_method_call(raw: Seq<char>) -> bool {
    raw.contains('.') && !has_path_sep(raw)
}

/// A symbol can be the target of a call whose last segment is `target`.
pub open spec fn is_name_candidate(sym: Symbol, target: Seq<char>, method_call: bool) -> bool {
    &&& sym.name@ == target
    &&& if method_call {
        sym.kind == SymbolKind::Method
    } else {
        sym.kind == SymbolKind::Function || sym.kind == SymbolKind::Method || sym.kind
            == SymbolKind::Test
    }
}

/// Index `i` is the only candidate for the call `raw` among `symbols`.
pub open spec fn sole_candidate(symbols: Seq<Symbol>, raw: Seq<char>, i: int) -> bool {
    let target = raw_name_tail(raw);
    let m = is_method_call(raw);
    &&& 0 <= i < symbols.len()
    &&& is_name_candidate(symbols[i], target, m)
    &&& forall|j: int| 0 <= j < symbols.len() && j != i ==> !is_name_candidate(#[trigger] symbols[j], target, m)
}

/// `r` is the resolution of a call by name: the sole candidate, `Syntax` in the
/// calling file and `Heuristic` elsewhere; without a sole candidate, `Unresolved`.
pub open spec fn name_only_result(
    raw: Seq<char>,
    symbols: Seq<Symbol>,
    file: Seq<char>,
    r: (Option<usize>, ResolutionConfidence),
) -> bool {
    match r.0 {
        Some(i) => {
            &&& sole_candidate(symbols, raw, i as int)
            &&& r.1 == if same_path(symbols[i as int].file@, file) {
                ResolutionConfidence::Syntax
            } else {
                ResolutionConfidence::Heuristic
            }
        },
        None => {
            &&& r.1 == ResolutionConfidence::Unresolved
            &&& forall|i: int| !sole_candidate(symbols, raw, i)
        },
    }
}

/// Resolves a call by name alone. A call resolves when exactly one function,
/// method or test (only methods, for a method call) carries its last segment as
/// name; the match is `Syntax` when that symbol lives in the calling file and
/// `Heuristic` otherwise. Anything else is `Unresolved`.
pub fn resolve_name_only(raw_name: &str, symbols: &[Symbol], call_site_file: &str) -> (r: (
    Option<usize>,
    ResolutionConfidence,
))
    ensures
        name_only_result(raw_name@, symbols@, call_site_file@, r),
{
    let target = parse_raw_name(raw_name);
    let raw = chars_of(raw_name);
    let has_dot = chars_has(&raw, '.');
    let has_sep = find_last_path_sep(&raw).is_some();
    let method_call = has_dot && !has_sep;
    let ghost m = is_method_call(raw_name@);
    assert(method_call == m);

    let mut found: Option<usize> = None;
    let mut count: usize = 0;
    let mut i: usize = 0;
    while i < symbols.len()
        invariant
            i <= symbols.len(),
            method_call == m,
            target@ == raw_name_tail(raw_name@),
            count <= i,
            count == 0 <==> found is None,
            count == 0 ==> forall|j: int| 0 <= j < i ==> !is_name_candidate(#[trigger] symbols@[j], target@, m),
            count == 1 ==> match found {
                Some(f) => f < i && is_name_candidate(symbols@[f as int], target@, m)
                    && forall|j: int| 0 <= j < i && j != f ==> !is_name_candidate(#[trigger] symbols@[j], target@, m),
                None => false,
            },
            count >= 2 ==> match found {
                Some(f) => f < i && is_name_candidate(symbols@[f as int], target@, m),
                None => false,
            } && exists|a: int, b: int| 0 <= a < b < i && is_name_candidate(#[trigger] symbols@[a], target@, m)
                && is_name_candidate(#[trigger] symbols@[b], target@, m),
        decreases symbols.len() - i,
    {
        let sym = &symbols[i];
        let kind_ok = if method_call {
            sym.kind == SymbolKind::Method
        } else {
            sym.kind == SymbolKind::Function || sym.kind == SymbolKind::Method || sym.kind
                == SymbolKind::Test
        };
        if sym.name == target && kind_ok {
            assert(is_name_candidate(symbols@[i as int], target@, m));
            if count == 1 {
                let f = found.unwrap();
                assert(is_name_candidate(symbols@[f as int], target@, m));
            }
            if count == 0 {
                found = Some(i);
            }
            if count < 2 {
                count = count + 1;
            }
        }
        i = i + 1;
    }
    if count == 1 {
        let idx = found.unwrap();
        let confidence = if paths_equal(symbols[idx].file.as_str(), call_site_file) {
            ResolutionConfidence::Syntax
        } else {
            ResolutionConfidence::Heuristic
        };
        (Some(idx), confidence)
    } else {
        proof {
            assert forall|k: int| !sole_candidate(symbols@, raw_name@, k) by {
                if count >= 2 && sole_candidate(symbols@, raw_name@, k) {
                    let (a, b) = choose|a: int, b: int| 0 <= a < b < symbols.len()
                        && is_name_candidate(#[trigger] symbols@[a], target@, m)
                        && is_name_candidate(#[trigger] symbols@[b], target@, m);
                    assert(a == k || !is_name_candidate(symbols@[a], target@, m));
                }
            }
        }
        (None, ResolutionConfidence::Unresolved)
    }
}

} // verus!
