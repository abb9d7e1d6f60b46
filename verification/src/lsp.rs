//! Matching a language server's "go to definition" answer to an indexed symbol.
//!
//! The caller talks to the server and canonicalizes paths; the functions here
//! say where to ask, read the answer's locations, and pick the symbol whose
//! definition (its range, outside its body) holds the location.
use vstd::prelude::*;
use crate::model::{CallSite, Symbol, SymbolKind, TextRange};
use crate::noop::{parse_raw_name, raw_name_tail};
use crate::paths::{paths_equal, same_path};
use crate::roots::byte_len;
use crate::strings::{chars_of, chars_slice, chars_starts_with, is_prefix, string_from_chars};

verus! {

/// The 1-based position `(line, col)` lies within `range`, ends included.
pub open spec fn inside_range(range: TextRange, line: nat, col: nat) -> bool {
    &&& range.start_line <= line <= range.end_line
    &&& (line == range.start_line ==> col >= range.start_col)
    &&& (line == range.end_line ==> col <= range.end_col)
}

/// Whether a 1-based position lies within a range (see `inside_range`).
pub fn is_inside_range(range: &TextRange, line: usize, col: usize) -> (r: bool)
    ensures
        r == inside_range(*range, line as nat, col as nat),
{
    if line < range.start_line || line > range.end_line {
        return false;
    }
    if line == range.start_line && col < range.start_col {
        return false;
    }
    if line == range.end_line && col > range.end_col {
        return false;
    }
    true
}

/// A definition location names a symbol when it is in the symbol's file (both
/// canonical) and within the symbol's range but not within its body.
pub open spec fn defines_at(sym: Symbol, sym_canon: Seq<char>, target_canon: Seq<char>, line: nat, col: nat) -> bool {
    &&& same_path(sym_canon, target_canon)
    &&& inside_range(sym.range, line, col)
    &&& !(sym.body_range matches Some(b) && inside_range(b, line, col))
}

/// Whether a definition location names `sym` (see `defines_at`); `sym_canon` is
/// the canonical path of the symbol's file.
pub fn matches_definition(
    sym: &Symbol,
    sym_canon: &str,
    target_canon: &str,
    target_line_1: usize,
    target_col_1: usize,
) -> (r: bool)
    ensures
        r == defines_at(*sym, sym_canon@, target_canon@, target_line_1 as nat, target_col_1 as nat),
{
    if !paths_equal(sym_canon, target_canon) {
        return false;
    }
    if !is_inside_range(&sym.range, target_line_1, target_col_1) {
        return false;
    }
    match &sym.body_range {
        Some(body) => !is_inside_range(body, target_line_1, target_col_1),
        None => true,
    }
}

/// Symbol `i` is a candidate for the location: not an impl block, and defined
/// there.
pub open spec fn location_candidate(
    symbols: Seq<Symbol>,
    canons: Seq<String>,
    target: Seq<char>,
    line: nat,
    col: nat,
    i: int,
) -> bool {
    &&& 0 <= i < symbols.len()
    &&& symbols[i].kind != SymbolKind::Impl
    &&& defines_at(symbols[i], canons[i]@, target, line, col)
}

/// How many lines a symbol spans, less one.
pub open spec fn line_span(s: Symbol) -> int {
    s.range.end_line - s.range.start_line
}

/// The candidate with the fewest lines, the first among equals.
pub open spec fn best_candidate(
    symbols: Seq<Symbol>,
    canons: Seq<String>,
    target: Seq<char>,
    line: nat,
    col: nat,
    i: int,
) -> bool {
    &&& location_candidate(symbols, canons, target, line, col, i)
    &&& forall|j: int|
        location_candidate(symbols, canons, target, line, col, j) ==> (line_span(symbols[i])
            <= line_span(symbols[j]) && (j < i ==> line_span(symbols[j]) > line_span(symbols[i])))
}

/// The innermost symbol defined at a location (see `best_candidate`); `canons[i]`
/// is the canonical path of the file of `symbols[i]`.
pub fn find_matching_symbol(
    symbols: &[Symbol],
    canons: &Vec<String>,
    target_canon: &str,
    target_line_1: usize,
    target_col_1: usize,
) -> (r: Option<usize>)
    requires
        canons.len() == symbols.len(),
    ensures
        match r {
            Some(i) => best_candidate(
                symbols@,
                canons@,
                target_canon@,
                target_line_1 as nat,
                target_col_1 as nat,
                i as int,
            ),
            None => forall|j: int|
                !location_candidate(
                    symbols@,
                    canons@,
                    target_canon@,
                    target_line_1 as nat,
                    target_col_1 as nat,
                    j,
                ),
        },
{
    let ghost line = target_line_1 as nat;
    let ghost col = target_col_1 as nat;
    let mut best: Option<(usize, usize)> = None;
    let mut i: usize = 0;
    while i < symbols.len()
        invariant
            i <= symbols.len(),
            canons.len() == symbols.len(),
            line == target_line_1 as nat,
            col == target_col_1 as nat,
            match best {
                Some((b, size)) => {
                    &&& b < i
                    &&& size == line_span(symbols@[b as int])
                    &&& location_candidate(symbols@, canons@, target_canon@, line, col, b as int)
                    &&& forall|j: int|
                        0 <= j < i && location_candidate(symbols@, canons@, target_canon@, line, col, j)
                            ==> (line_span(symbols@[b as int]) <= line_span(symbols@[j]) && (j < b
                            ==> line_span(symbols@[j]) > line_span(symbols@[b as int])))
                },
                None => forall|j: int|
                    0 <= j < i ==> !location_candidate(
                        symbols@,
                        canons@,
                        target_canon@,
                        line,
                        col,
                        j,
                    ),
            },
        decreases symbols.len() - i,
    {
        let sym = &symbols[i];
        let is_impl = match sym.kind {
            SymbolKind::Impl => true,
            _ => false,
        };
        let cand = !is_impl && matches_definition(
            sym,
            canons[i].as_str(),
            target_canon,
            target_line_1,
            target_col_1,
        );
        assert(cand == location_candidate(symbols@, canons@, target_canon@, line, col, i as int));
        if cand {
            let size = sym.range.end_line - sym.range.start_line;
            match best {
                None => {
                    best = Some((i, size));
                },
                Some((b, best_size)) => {
                    if size < best_size {
                        best = Some((i, size));
                    }
                },
            }
        }
        i = i + 1;
    }
    match best {
        Some((b, _)) => Some(b),
        None => None,
    }
}

/// Where to ask for the definition of a call: the 0-based line of the call, and
/// the 0-based character where the call's last segment begins (counted in bytes
/// from the start of the call, as the server is told).
pub open spec fn definition_position(cs: CallSite) -> (int, int) {
    (
        cs.range.start_line - 1,
        cs.range.start_col - 1 + (byte_len(cs.raw_name@) - byte_len(raw_name_tail(cs.raw_name@))),
    )
}

/// Where to ask for the definition of a call (see `definition_position`).
pub fn definition_request_position(cs: &CallSite) -> (r: (usize, usize))
    requires
        cs.range.start_line >= 1,
        cs.range.start_col >= 1,
        cs.range.start_col - 1 + (byte_len(cs.raw_name@) - byte_len(raw_name_tail(cs.raw_name@)))
            <= usize::MAX,
        byte_len(raw_name_tail(cs.raw_name@)) <= byte_len(cs.raw_name@),
    ensures
        r.0 == definition_position(*cs).0,
        r.1 == definition_position(*cs).1,
{
    let segment = parse_raw_name(cs.raw_name.as_str());
    let offset = cs.raw_name.as_str().len() - segment.as_str().len();
    (cs.range.start_line - 1, cs.range.start_col - 1 + offset)
}

/// A definition location as the server gives it: a `file://` URI and a 0-based
/// line and character; read as the path after the scheme and a 1-based line and
/// column. Any other URI is not a file.
pub open spec fn location_of(uri: Seq<char>, line: nat, character: nat) -> Option<(Seq<char>, nat, nat)> {
    if is_prefix("file://"@, uri) {
        Some((uri.subrange(7, uri.len() as int), line + 1, character + 1))
    } else {
        None
    }
}

/// Reads a definition location (see `location_of`).
pub fn parse_location(uri: &str, line: u64, character: u64) -> (r: Option<(String, usize, usize)>)
    requires
        line < usize::MAX,
        character < usize::MAX,
    ensures
        match r {
            Some((p, l, c)) => location_of(uri@, line as nat, character as nat) == Some(
                (p@, l as nat, c as nat),
            ),
            None => location_of(uri@, line as nat, character as nat) is None,
        },
{
    let u = chars_of(uri);
    let scheme = chars_of("file://");
    if !chars_starts_with(&u, &scheme) {
        return None;
    }
    proof {
        reveal_strlit("file://");
    }
    let rest = chars_slice(&u, 7, u.len());
    Some((string_from_chars(&rest), line as usize + 1, character as usize + 1))
}

/// The location names no symbol (or could not be read).
pub open spec fn names_nothing(
    symbols: Seq<Symbol>,
    canons: Seq<String>,
    location: Option<(String, usize, usize)>,
) -> bool {
    location matches Some(loc) ==> forall|j: int|
        !location_candidate(symbols, canons, loc.0@, loc.1 as nat, loc.2 as nat, j)
}

/// The symbol the first usable location names: locations are tried in order,
/// and the first one that names a symbol decides.
pub open spec fn first_located(
    symbols: Seq<Symbol>,
    canons: Seq<String>,
    locations: Seq<Option<(String, usize, usize)>>,
    k: int,
) -> bool {
    &&& 0 <= k < locations.len()
    &&& locations[k] matches Some(loc) && exists|i: int|
        best_candidate(symbols, canons, loc.0@, loc.1 as nat, loc.2 as nat, i)
    &&& forall|t: int| 0 <= t < k ==> names_nothing(symbols, canons, #[trigger] locations[t])
}

/// Resolves a call from the server's definition locations, each read (see
/// `parse_location`) and with its path canonicalized by the caller: the innermost
/// symbol at the first location that names one.
pub fn resolve_locations(
    symbols: &[Symbol],
    canons: &Vec<String>,
    locations: &Vec<Option<(String, usize, usize)>>,
) -> (r: Option<usize>)
    requires
        canons.len() == symbols.len(),
    ensures
        match r {
            Some(i) => exists|k: int|
                first_located(symbols@, canons@, locations@, k) && (locations@[k] matches Some(
                    loc,
                ) && best_candidate(
                    symbols@,
                    canons@,
                    loc.0@,
                    loc.1 as nat,
                    loc.2 as nat,
                    i as int,
                )),
            None => forall|t: int|
                0 <= t < locations.len() ==> names_nothing(symbols@, canons@, #[trigger] locations@[t]),
        },
{
    let mut k: usize = 0;
    while k < locations.len()
        invariant
            k <= locations.len(),
            canons.len() == symbols.len(),
            forall|t: int| 0 <= t < k ==> names_nothing(symbols@, canons@, #[trigger] locations@[t]),
        decreases locations.len() - k,
    {
        match &locations[k] {
            Some(loc) => {
                let found = find_matching_symbol(symbols, canons, loc.0.as_str(), loc.1, loc.2);
                match found {
                    Some(i) => {
                        assert(first_located(symbols@, canons@, locations@, k as int));
                        return Some(i);
                    },
                    None => {},
                }
            },
            None => {},
        }
        k = k + 1;
    }
    None
}

} // verus!
