//! The ids the rows of a saved index refer to.
//!
//! Files, symbols, call sites and edges are written in that order; each is given
//! an id by the store as it is written. The functions here say, from the ids
//! given so far, which file and symbols a symbol, call site or edge row refers
//! to, and refuse an index that names something that was not saved.
use vstd::prelude::*;
use crate::model::{CallSite, FileSnapshot, GraphEdge, Symbol};
use crate::storage::{file_id_for, saved_id, stored_file_id};
use crate::strings::{chars_of, extend_str, string_from_chars};

verus! {

/// A result with its error as text.
pub open spec fn err_text<T>(r: Result<T, String>) -> Result<T, Seq<char>> {
    match r {
        Ok(x) => Ok(x),
        Err(e) => Err(e@),
    }
}

/// `r` is the outcome of taking the steps in order: the value of each step when
/// every step succeeds, else the error of the first step that fails.
pub open spec fn rows_ok<T>(r: Result<Vec<T>, String>, steps: Seq<Result<T, Seq<char>>>) -> bool {
    match r {
        Ok(v) => v@.len() == steps.len() && forall|i: int|
            0 <= i < steps.len() ==> #[trigger] steps[i] == Ok::<T, Seq<char>>(v@[i]),
        Err(e) => exists|i: int|
            0 <= i < steps.len() && #[trigger] steps[i] == Err::<T, Seq<char>>(e@) && forall|j: int|
                0 <= j < i ==> (#[trigger] steps[j]) is Ok,
    }
}

/// The id an index item names by its position among the saved items, as
/// `saved_id` gives it.
pub open spec fn saved_of(position: Option<i64>, ids: Seq<i64>, what: Seq<char>) -> Result<Option<i64>, Seq<char>> {
    match position {
        None => Ok(None),
        Some(t) => if 0 <= t < ids.len() {
            Ok(Some(ids[t as int]))
        } else {
            Err(what + " not saved to DB"@)
        },
    }
}

fn saved(position: Option<i64>, ids: &Vec<i64>, what: &str) -> (r: Result<Option<i64>, String>)
    ensures
        err_text(r) == saved_of(position, ids@, what@),
{
    saved_id(position, ids, what)
}

/// The file a symbol row refers to, or the error when no stored file is the
/// symbol's file.
pub open spec fn symbol_row(files: Seq<FileSnapshot>, file_ids: Seq<i64>, s: Symbol) -> Result<i64, Seq<char>> {
    match file_id_for(files, file_ids, s.file@) {
        Some(id) => Ok(id),
        None => Err("File not found for symbol: "@ + s.file@),
    }
}

/// The file and enclosing symbol a call-site row refers to, or the error when
/// no stored file is the call site's file or its enclosing symbol was not saved.
pub open spec fn site_row(files: Seq<FileSnapshot>, file_ids: Seq<i64>, symbol_ids: Seq<i64>, cs: CallSite) -> Result<
    (i64, Option<i64>),
    Seq<char>,
> {
    match file_id_for(files, file_ids, cs.file@) {
        None => Err("File not found for occurrence: "@ + cs.file@),
        Some(f) => match saved_of(
            match cs.from {
                Some(s) => Some(s.0),
                None => None,
            },
            symbol_ids,
            "Enclosing symbol"@,
        ) {
            Ok(enclosing) => Ok((f, enclosing)),
            Err(e) => Err(e),
        },
    }
}

/// The ids an edge row refers to: the file it comes from, its source and target
/// symbols, and its occurrence.
#[derive(Debug, Clone, Copy, PartialEq, Eq)]
pub struct EdgeRowIds {
    pub from_file: Option<i64>,
    pub from_symbol: Option<i64>,
    pub to_symbol: Option<i64>,
    pub occurrence: Option<i64>,
}

/// The ids an edge row refers to, looked up in this order: the source symbol,
/// the target symbol and the occurrence among those saved; the file is the
/// occurrence's file when the edge has one, else the edge's own. The error is
/// that of the first lookup that fails.
pub open spec fn edge_row(
    symbol_ids: Seq<i64>,
    occurrence_ids: Seq<i64>,
    occurrence_files: Seq<i64>,
    e: GraphEdge,
) -> Result<EdgeRowIds, Seq<char>> {
    let from = saved_of(
        match e.from_symbol_id {
            Some(s) => Some(s.0),
            None => None,
        },
        symbol_ids,
        "Edge source symbol"@,
    );
    let to = saved_of(
        match e.to_symbol_id {
            Some(s) => Some(s.0),
            None => None,
        },
        symbol_ids,
        "Edge target symbol"@,
    );
    let position = match e.occurrence_id {
        Some(o) => Some(o.0),
        None => None,
    };
    let occurrence = saved_of(position, occurrence_ids, "Edge occurrence"@);
    let from_file = match position {
        Some(k) => saved_of(Some(k), occurrence_files, "Edge occurrence"@),
        None => Ok(
            match e.from_file_id {
                Some(f) => Some(f.0),
                None => None,
            },
        ),
    };
    match (from, to, occurrence, from_file) {
        (Err(x), _, _, _) => Err(x),
        (Ok(_), Err(x), _, _) => Err(x),
        (Ok(_), Ok(_), Err(x), _) => Err(x),
        (Ok(_), Ok(_), Ok(_), Err(x)) => Err(x),
        (Ok(a), Ok(b), Ok(c), Ok(d)) => Ok(
            EdgeRowIds { from_file: d, from_symbol: a, to_symbol: b, occurrence: c },
        ),
    }
}

fn not_found(lead: &str, file: &str) -> (e: String)
    ensures
        e@ == lead@ + file@,
{
    let mut v = chars_of(lead);
    extend_str(&mut v, file);
    string_from_chars(&v)
}

/// The file each symbol row refers to (see `symbol_row`), or the first error.
pub fn symbol_rows(files: &Vec<FileSnapshot>, file_ids: &Vec<i64>, symbols: &Vec<Symbol>) -> (r: Result<
    Vec<i64>,
    String,
>)
    requires
        file_ids.len() == files.len(),
    ensures
        rows_ok(r, symbols@.map_values(|s: Symbol| symbol_row(files@, file_ids@, s))),
{
    let ghost steps = symbols@.map_values(|s: Symbol| symbol_row(files@, file_ids@, s));
    let mut v: Vec<i64> = Vec::new();
    let mut i: usize = 0;
    while i < symbols.len()
        invariant
            i <= symbols.len(),
            file_ids.len() == files.len(),
            steps == symbols@.map_values(|s: Symbol| symbol_row(files@, file_ids@, s)),
            v@.len() == i,
            forall|j: int| 0 <= j < i ==> #[trigger] steps[j] == Ok::<i64, Seq<char>>(v@[j]),
        decreases symbols.len() - i,
    {
        let s = &symbols[i];
        assert(steps[i as int] == symbol_row(files@, file_ids@, *s));
        match stored_file_id(files, file_ids, s.file.as_str()) {
            Some(id) => v.push(id),
            None => {
                let e = not_found("File not found for symbol: ", s.file.as_str());
                assert(forall|j: int| 0 <= j < i ==> (#[trigger] steps[j]) is Ok);
                return Err(e);
            },
        }
        i = i + 1;
    }
    Ok(v)
}

/// The file and enclosing symbol each call-site row refers to (see `site_row`),
/// or the first error.
pub fn site_rows(
    files: &Vec<FileSnapshot>,
    file_ids: &Vec<i64>,
    symbol_ids: &Vec<i64>,
    sites: &Vec<CallSite>,
) -> (r: Result<Vec<(i64, Option<i64>)>, String>)
    requires
        file_ids.len() == files.len(),
    ensures
        rows_ok(r, sites@.map_values(|cs: CallSite| site_row(files@, file_ids@, symbol_ids@, cs))),
{
    let ghost steps = sites@.map_values(|cs: CallSite| site_row(files@, file_ids@, symbol_ids@, cs));
    let mut v: Vec<(i64, Option<i64>)> = Vec::new();
    let mut i: usize = 0;
    while i < sites.len()
        invariant
            i <= sites.len(),
            file_ids.len() == files.len(),
            steps == sites@.map_values(|cs: CallSite| site_row(files@, file_ids@, symbol_ids@, cs)),
            v@.len() == i,
            forall|j: int| 0 <= j < i ==> #[trigger] steps[j] == Ok::<(i64, Option<i64>), Seq<char>>(v@[j]),
        decreases sites.len() - i,
    {
        let cs = &sites[i];
        assert(steps[i as int] == site_row(files@, file_ids@, symbol_ids@, *cs));
        assert(forall|j: int| 0 <= j < i ==> (#[trigger] steps[j]) is Ok);
        let f = match stored_file_id(files, file_ids, cs.file.as_str()) {
            Some(f) => f,
            None => {
                return Err(not_found("File not found for occurrence: ", cs.file.as_str()));
            },
        };
        let position = match cs.from {
            Some(s) => Some(s.0),
            None => None,
        };
        match saved(position, symbol_ids, "Enclosing symbol") {
            Ok(enclosing) => v.push((f, enclosing)),
            Err(e) => {
                return Err(e);
            },
        }
        i = i + 1;
    }
    Ok(v)
}

fn edge_step(
    symbol_ids: &Vec<i64>,
    occurrence_ids: &Vec<i64>,
    occurrence_files: &Vec<i64>,
    e: &GraphEdge,
) -> (r: Result<EdgeRowIds, String>)
    ensures
        err_text(r) == edge_row(symbol_ids@, occurrence_ids@, occurrence_files@, *e),
{
    let from_position = match e.from_symbol_id {
        Some(s) => Some(s.0),
        None => None,
    };
    let from = match saved(from_position, symbol_ids, "Edge source symbol") {
        Ok(x) => x,
        Err(x) => {
            return Err(x);
        },
    };
    let to_position = match e.to_symbol_id {
        Some(s) => Some(s.0),
        None => None,
    };
    let to = match saved(to_position, symbol_ids, "Edge target symbol") {
        Ok(x) => x,
        Err(x) => {
            return Err(x);
        },
    };
    let position = match e.occurrence_id {
        Some(o) => Some(o.0),
        None => None,
    };
    let occurrence = match saved(position, occurrence_ids, "Edge occurrence") {
        Ok(x) => x,
        Err(x) => {
            return Err(x);
        },
    };
    let from_file = match position {
        Some(k) => match saved(Some(k), occurrence_files, "Edge occurrence") {
            Ok(x) => x,
            Err(x) => {
                return Err(x);
            },
        },
        None => match e.from_file_id {
            Some(f) => Some(f.0),
            None => None,
        },
    };
    Ok(EdgeRowIds { from_file, from_symbol: from, to_symbol: to, occurrence })
}

/// The ids each edge row refers to (see `edge_row`), or the first error.
pub fn edge_rows(
    symbol_ids: &Vec<i64>,
    occurrence_ids: &Vec<i64>,
    occurrence_files: &Vec<i64>,
    edges: &Vec<GraphEdge>,
) -> (r: Result<Vec<EdgeRowIds>, String>)
    ensures
        rows_ok(r, edges@.map_values(|e: GraphEdge| edge_row(symbol_ids@, occurrence_ids@, occurrence_files@, e))),
{
    let ghost steps = edges@.map_values(|e: GraphEdge| edge_row(symbol_ids@, occurrence_ids@, occurrence_files@, e));
    let mut v: Vec<EdgeRowIds> = Vec::new();
    let mut i: usize = 0;
    while i < edges.len()
        invariant
            i <= edges.len(),
            steps == edges@.map_values(|e: GraphEdge| edge_row(symbol_ids@, occurrence_ids@, occurrence_files@, e)),
            v@.len() == i,
            forall|j: int| 0 <= j < i ==> #[trigger] steps[j] == Ok::<EdgeRowIds, Seq<char>>(v@[j]),
        decreases edges.len() - i,
    {
        assert(steps[i as int] == edge_row(symbol_ids@, occurrence_ids@, occurrence_files@, edges@[i as int]));
        assert(forall|j: int| 0 <= j < i ==> (#[trigger] steps[j]) is Ok);
        match edge_step(symbol_ids, occurrence_ids, occurrence_files, &edges[i]) {
            Ok(ids) => v.push(ids),
            Err(x) => {
                return Err(x);
            },
        }
        i = i + 1;
    }
    Ok(v)
}

} // verus!
