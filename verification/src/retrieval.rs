//! The decisions of graph-context retrieval.
//!
//! Retrieval alternates reads of the index with decisions: the caller loads the
//! roots, the edges of each frontier symbol and the snippet texts, and hands them
//! to the functions here, which decide the budget, the edges to follow, the
//! candidates a layer adds, when the walk stops, and what the pack holds.
use vstd::prelude::*;
use crate::context::{
    ContextBudget, ContextCandidate, ContextPack, ContextSection, ContextSnippet, DepthLimit,
    OmittedContext, copy_candidate, effective_budget_of,
};
use crate::model::{
    EdgeDirection, EdgeKind, GraphContextDiagnostic, GraphContextEdge, GraphContextMode, GraphEdge,
    LanguageObject, LanguageObjectKind, ResolutionConfidence, ResolvedEdgeTarget, SourceRange,
    Symbol, SymbolId, confidence_name, copy_object, copy_opt_string, object_kind_of,
};
use crate::strings::{decimal, extend_str, push_decimal, string_from_chars};
use crate::packing::{PackedSnippets, included_ok, neighbor_fate, neighbor_placement, pack_state, packed_ok, snippet_ok};
use crate::sections::BuiltSections;
use crate::sorting::{desc_order, order_by_key_desc, sort_dedup, sorted_unique_of, str_views};
use crate::model::edge_kind_name;

verus! {

/// The smallest token budget a query is served with.
pub const MIN_TOKEN_BUDGET: usize = 100;

/// The budget a query runs with, and what is reported about it.
pub struct BudgetDecision {
    pub raw_budget: usize,
    pub requested_token_budget: Option<usize>,
    pub effective_token_budget: Option<usize>,
    pub diagnostic: Option<GraphContextDiagnostic>,
}

/// The warning given when the requested budget is below the minimum.
pub open spec fn low_budget_message(requested: nat) -> Seq<char> {
    "Requested token budget "@ + decimal(requested) + " is below minimum 100; using 100."@
}

/// `d` is a diagnostic of the given severity and message.
pub open spec fn diagnostic_ok(d: GraphContextDiagnostic, severity: Seq<char>, message: Seq<char>) -> bool {
    d.severity@ == severity && d.message@ == message
}

fn diagnostic(severity: &str, message: Vec<char>) -> (d: GraphContextDiagnostic)
    ensures
        diagnostic_ok(d, severity@, message@),
{
    GraphContextDiagnostic {
        severity: string_from_chars(&crate::strings::chars_of(severity)),
        message: string_from_chars(&message),
    }
}

/// A budget below 100 tokens is raised to 100, with a warning that records what was
/// asked; any other budget is used as the model's window leaves it.
pub fn decide_budget(budget: &ContextBudget) -> (d: BudgetDecision)
    requires
        budget.model_context_window is Some ==> budget.reserve_output_tokens
            + budget.reserve_instruction_tokens <= usize::MAX,
    ensures
        budget.token_budget < 100 ==> {
            &&& d.raw_budget == 100
            &&& d.requested_token_budget == Some(budget.token_budget)
            &&& d.effective_token_budget == Some(100usize)
            &&& d.diagnostic matches Some(g) && diagnostic_ok(
                g,
                "warning"@,
                low_budget_message(budget.token_budget as nat),
            )
        },
        budget.token_budget >= 100 ==> {
            &&& d.raw_budget == effective_budget_of(*budget)
            &&& d.requested_token_budget is None
            &&& d.effective_token_budget is None
            &&& d.diagnostic is None
        },
{
    let raw = budget.effective_budget();
    if budget.token_budget < MIN_TOKEN_BUDGET {
        let mut m: Vec<char> = Vec::new();
        extend_str(&mut m, "Requested token budget ");
        push_decimal(&mut m, budget.token_budget);
        extend_str(&mut m, " is below minimum 100; using 100.");
        BudgetDecision {
            raw_budget: MIN_TOKEN_BUDGET,
            requested_token_budget: Some(budget.token_budget),
            effective_token_budget: Some(MIN_TOKEN_BUDGET),
            diagnostic: Some(diagnostic("warning", m)),
        }
    } else {
        BudgetDecision {
            raw_budget: raw,
            requested_token_budget: None,
            effective_token_budget: None,
            diagnostic: None,
        }
    }
}

/// The pack returned when no root matches the query: empty, with the budget
/// warning (if any) and a "Symbol not found" error.
pub fn not_found_pack(query: &str, mode: GraphContextMode, d: BudgetDecision) -> (p: ContextPack)
    ensures
        p.query@ == query@,
        p.mode == mode,
        p.token_budget == d.raw_budget,
        p.requested_token_budget == d.requested_token_budget,
        p.effective_token_budget == d.effective_token_budget,
        p.estimated_tokens == 0,
        p.roots@.len() == 0 && p.nodes@.len() == 0 && p.edges@.len() == 0,
        p.snippets@.len() == 0 && p.sections@.len() == 0 && p.omitted@.len() == 0,
        p.diagnostics@.len() == (if d.diagnostic is Some {
            2int
        } else {
            1int
        }),
        d.diagnostic matches Some(g) ==> p.diagnostics@[0] == g,
        diagnostic_ok(p.diagnostics@.last(), "error"@, "Symbol not found: "@ + query@),
{
    let mut diagnostics: Vec<GraphContextDiagnostic> = Vec::new();
    let BudgetDecision { raw_budget, requested_token_budget, effective_token_budget, diagnostic: warn } = d;
    match warn {
        Some(g) => diagnostics.push(g),
        None => {},
    }
    let mut m: Vec<char> = Vec::new();
    extend_str(&mut m, "Symbol not found: ");
    extend_str(&mut m, query);
    diagnostics.push(diagnostic("error", m));
    ContextPack {
        query: string_from_chars(&crate::strings::chars_of(query)),
        mode,
        token_budget: raw_budget,
        requested_token_budget,
        effective_token_budget,
        estimated_tokens: 0,
        roots: Vec::new(),
        nodes: Vec::new(),
        edges: Vec::new(),
        snippets: Vec::new(),
        sections: Vec::new(),
        omitted: Vec::new(),
        diagnostics,
    }
}

/// The edge kinds followed by default in each mode.
pub open spec fn default_edge_kinds(mode: GraphContextMode) -> Seq<EdgeKind> {
    match mode {
        GraphContextMode::Callers | GraphContextMode::Callees => seq![
            EdgeKind::Call,
            EdgeKind::Reference,
        ],
        GraphContextMode::Dependencies | GraphContextMode::Dependents => seq![
            EdgeKind::Import,
            EdgeKind::Call,
            EdgeKind::TypeUse,
            EdgeKind::Reference,
        ],
        _ => seq![
            EdgeKind::Call,
            EdgeKind::Reference,
            EdgeKind::Import,
            EdgeKind::Export,
            EdgeKind::TypeUse,
            EdgeKind::Inherits,
            EdgeKind::Implements,
            EdgeKind::DataFlow,
            EdgeKind::Contains,
        ],
    }
}

/// The edge kinds to follow: those asked for, or the mode's defaults when none are.
pub fn traversal_edge_kinds(mode: GraphContextMode, edge_kinds: &Vec<EdgeKind>) -> (r: Vec<EdgeKind>)
    ensures
        r@ == (if edge_kinds.len() == 0 {
            default_edge_kinds(mode)
        } else {
            edge_kinds@
        }),
{
    if edge_kinds.len() == 0 {
        let r = match mode {
            GraphContextMode::Callers | GraphContextMode::Callees => vec![
                EdgeKind::Call,
                EdgeKind::Reference,
            ],
            GraphContextMode::Dependencies | GraphContextMode::Dependents => vec![
                EdgeKind::Import,
                EdgeKind::Call,
                EdgeKind::TypeUse,
                EdgeKind::Reference,
            ],
            _ => vec![
                EdgeKind::Call,
                EdgeKind::Reference,
                EdgeKind::Import,
                EdgeKind::Export,
                EdgeKind::TypeUse,
                EdgeKind::Inherits,
                EdgeKind::Implements,
                EdgeKind::DataFlow,
                EdgeKind::Contains,
            ],
        };
        assert(r@ =~= default_edge_kinds(mode));
        r
    } else {
        let mut r: Vec<EdgeKind> = Vec::new();
        let mut i: usize = 0;
        while i < edge_kinds.len()
            invariant
                i <= edge_kinds.len(),
                r@ == edge_kinds@.take(i as int),
            decreases edge_kinds.len() - i,
        {
            r.push(edge_kinds[i]);
            i = i + 1;
            assert(r@ =~= edge_kinds@.take(i as int));
        }
        assert(edge_kinds@.take(edge_kinds.len() as int) =~= edge_kinds@);
        r
    }
}

/// The directions followed from a symbol at a given depth: towards callers,
/// towards callees, both, or (for impact) callers always and callees only from
/// the roots.
pub open spec fn directions(mode: GraphContextMode, depth: nat) -> Seq<EdgeDirection> {
    match mode {
        GraphContextMode::Callers | GraphContextMode::Dependents | GraphContextMode::ReverseSlice
        | GraphContextMode::Reverse => seq![EdgeDirection::Inbound],
        GraphContextMode::Callees | GraphContextMode::Dependencies
        | GraphContextMode::ForwardSlice | GraphContextMode::Forward => seq![
            EdgeDirection::Outbound,
        ],
        GraphContextMode::Neighborhood => seq![EdgeDirection::Inbound, EdgeDirection::Outbound],
        GraphContextMode::Impact => if depth < 1 {
            seq![EdgeDirection::Inbound, EdgeDirection::Outbound]
        } else {
            seq![EdgeDirection::Inbound]
        },
    }
}

pub fn traverse_directions(mode: GraphContextMode, depth: usize) -> (r: Vec<EdgeDirection>)
    ensures
        r@ == directions(mode, depth as nat),
{
    let r = match mode {
        GraphContextMode::Callers | GraphContextMode::Dependents | GraphContextMode::ReverseSlice
        | GraphContextMode::Reverse => vec![EdgeDirection::Inbound],
        GraphContextMode::Callees | GraphContextMode::Dependencies
        | GraphContextMode::ForwardSlice | GraphContextMode::Forward => vec![
            EdgeDirection::Outbound,
        ],
        GraphContextMode::Neighborhood => vec![EdgeDirection::Inbound, EdgeDirection::Outbound],
        GraphContextMode::Impact => if depth < 1 {
            vec![EdgeDirection::Inbound, EdgeDirection::Outbound]
        } else {
            vec![EdgeDirection::Inbound]
        },
    };
    assert(r@ =~= directions(mode, depth as nat));
    r
}

/// Which way the walk goes from a symbol, at any depth: the callee-type modes
/// (callees, dependencies, forward slice, forward) follow only outbound edges,
/// to what a symbol calls; the caller-type modes (callers, dependents, reverse
/// slice, reverse) follow only inbound edges, to what calls it; the
/// neighbourhood follows both; an impact query follows both from the roots and
/// only callers further out. No direction is followed in both a callee-type and
/// a caller-type mode.
pub proof fn law_walk_directions(depth: nat)
    ensures
        directions(GraphContextMode::Callees, depth) == seq![EdgeDirection::Outbound],
        directions(GraphContextMode::Dependencies, depth) == seq![EdgeDirection::Outbound],
        directions(GraphContextMode::ForwardSlice, depth) == seq![EdgeDirection::Outbound],
        directions(GraphContextMode::Forward, depth) == seq![EdgeDirection::Outbound],
        directions(GraphContextMode::Callers, depth) == seq![EdgeDirection::Inbound],
        directions(GraphContextMode::Dependents, depth) == seq![EdgeDirection::Inbound],
        directions(GraphContextMode::ReverseSlice, depth) == seq![EdgeDirection::Inbound],
        directions(GraphContextMode::Reverse, depth) == seq![EdgeDirection::Inbound],
        directions(GraphContextMode::Neighborhood, depth) == seq![EdgeDirection::Inbound, EdgeDirection::Outbound],
        depth == 0 ==> directions(GraphContextMode::Impact, depth) == seq![
            EdgeDirection::Inbound,
            EdgeDirection::Outbound,
        ],
        depth > 0 ==> directions(GraphContextMode::Impact, depth) == seq![EdgeDirection::Inbound],
        forall|fwd: GraphContextMode, rev: GraphContextMode, d1: nat, d2: nat, x: EdgeDirection|
            #![trigger directions(fwd, d1).contains(x), directions(rev, d2).contains(x)]
            is_callee_mode(fwd) && is_caller_mode(rev) ==> !(directions(fwd, d1).contains(x) && directions(
                rev,
                d2,
            ).contains(x)),
{
    assert forall|fwd: GraphContextMode, rev: GraphContextMode, d1: nat, d2: nat, x: EdgeDirection|
        #![trigger directions(fwd, d1).contains(x), directions(rev, d2).contains(x)]
        is_callee_mode(fwd) && is_caller_mode(rev) implies !(directions(fwd, d1).contains(x) && directions(
            rev,
            d2,
        ).contains(x)) by {
        assert(directions(fwd, d1) == seq![EdgeDirection::Outbound]);
        assert(directions(rev, d2) == seq![EdgeDirection::Inbound]);
        if directions(fwd, d1).contains(x) && directions(rev, d2).contains(x) {
            let i = choose|i: int| 0 <= i < directions(fwd, d1).len() && directions(fwd, d1)[i] == x;
            let j = choose|j: int| 0 <= j < directions(rev, d2).len() && directions(rev, d2)[j] == x;
            assert(x == EdgeDirection::Outbound);
            assert(x == EdgeDirection::Inbound);
        }
    }
}

/// The modes that walk towards what a symbol calls.
pub open spec fn is_callee_mode(m: GraphContextMode) -> bool {
    m == GraphContextMode::Callees || m == GraphContextMode::Dependencies || m == GraphContextMode::ForwardSlice
        || m == GraphContextMode::Forward
}

/// The modes that walk towards what calls a symbol.
pub open spec fn is_caller_mode(m: GraphContextMode) -> bool {
    m == GraphContextMode::Callers || m == GraphContextMode::Dependents || m == GraphContextMode::ReverseSlice
        || m == GraphContextMode::Reverse
}

/// The deepest layer explored with an automatic depth limit.
pub const AUTO_DEPTH_MAX: usize = 3;

/// With an automatic depth limit, a layer is always explored up to this depth.
pub const AUTO_DEPTH_MIN: usize = 1;

/// With an automatic depth limit, at most this many candidates of a layer are kept.
pub const FRONTIER_LIMIT_PER_DEPTH: usize = 50;

/// Whether the depth is chosen automatically, and the deepest layer to explore.
pub fn depth_plan(limit: DepthLimit) -> (r: (bool, usize))
    ensures
        r == (match limit {
            DepthLimit::Auto => (true, AUTO_DEPTH_MAX),
            DepthLimit::Fixed(d) => (false, d),
        }),
{
    match limit {
        DepthLimit::Auto => (true, AUTO_DEPTH_MAX),
        DepthLimit::Fixed(d) => (false, d),
    }
}

/// The state of a layered walk of the graph away from the roots.
pub struct Traversal {
    /// The symbols already reached, each once.
    pub visited: Vec<SymbolId>,
    /// Every candidate accepted so far: the roots, then each accepted layer.
    pub candidates: Vec<ContextCandidate>,
    /// The last accepted layer, whose edges are followed next.
    pub current_layer: Vec<ContextCandidate>,
    /// The candidates found while following the current layer's edges.
    pub next_layer: Vec<ContextCandidate>,
    /// How many unresolved edges were skipped.
    pub unresolved_filtered: usize,
    /// The token budget not yet spent on accepted layers.
    pub remaining_budget: usize,
    /// How many layers were accepted.
    pub depth: usize,
}

/// The candidate standing for a root.
pub open spec fn root_candidate_ok(c: ContextCandidate, r: LanguageObject) -> bool {
    &&& c.node == r
    &&& c.distance == 0
    &&& c.direction == EdgeDirection::Outbound
    &&& c.via_edge is None
    &&& c.file_path@ == r.file_path@
    &&& c.range == r.range
    &&& c.graph_score == 0 && c.lexical_score == 0 && c.combined_score == 0
    &&& c.estimated_tokens == 0
    &&& c.reason@ == "Root symbol"@
}

fn root_candidate(r: &LanguageObject) -> (c: ContextCandidate)
    ensures
        root_candidate_ok(c, *r),
{
    ContextCandidate {
        node: copy_object(r),
        distance: 0,
        direction: EdgeDirection::Outbound,
        via_edge: None,
        file_path: r.file_path.clone(),
        range: r.range,
        graph_score: 0,
        lexical_score: 0,
        combined_score: 0,
        estimated_tokens: 0,
        reason: string_from_chars(&crate::strings::chars_of("Root symbol")),
    }
}

/// The symbol an edge leads to, when it leads to one.
pub open spec fn target_symbol(t: ResolvedEdgeTarget) -> Symbol {
    match t {
        ResolvedEdgeTarget::Symbol(s) => s,
        _ => arbitrary(),
    }
}

/// The id of a symbol read from the index.
pub open spec fn sym_id(s: Symbol) -> SymbolId {
    match s.id {
        Some(id) => id,
        None => arbitrary(),
    }
}

/// Following `edges` in order from `visited`: the ids reached, the positions of
/// the edges that reach a symbol for the first time, and how many unresolved
/// edges were skipped (unless unresolved edges are followed).
pub open spec fn follow_edges(
    visited: Seq<SymbolId>,
    edges: Seq<(GraphEdge, ResolvedEdgeTarget)>,
    include_unresolved: bool,
) -> (Seq<SymbolId>, Seq<int>, nat)
    decreases edges.len(),
{
    if edges.len() == 0 {
        (visited, Seq::empty(), 0)
    } else {
        let (v, added, skipped) = follow_edges(visited, edges.drop_last(), include_unresolved);
        let e = edges.last();
        if !include_unresolved && e.0.confidence == ResolutionConfidence::Unresolved {
            (v, added, skipped + 1)
        } else if e.1 is Symbol {
            let id = sym_id(target_symbol(e.1));
            if v.contains(id) {
                (v, added, skipped)
            } else {
                (v.push(id), added.push(edges.len() - 1), skipped)
            }
        } else {
            (v, added, skipped)
        }
    }
}

/// Following edges reaches each symbol once: the symbols already reached stay
/// first, none is added twice, and the list stays free of duplicates.
pub proof fn law_follow_edges_reaches_each_symbol_once(
    visited: Seq<SymbolId>,
    edges: Seq<(GraphEdge, ResolvedEdgeTarget)>,
    include_unresolved: bool,
)
    requires
        visited.no_duplicates(),
    ensures
        follow_edges(visited, edges, include_unresolved).0.no_duplicates(),
        follow_edges(visited, edges, include_unresolved).0.take(visited.len() as int) == visited,
        follow_edges(visited, edges, include_unresolved).0.len() == visited.len() + follow_edges(
            visited,
            edges,
            include_unresolved,
        ).1.len(),
    decreases edges.len(),
{
    if edges.len() > 0 {
        law_follow_edges_reaches_each_symbol_once(visited, edges.drop_last(), include_unresolved);
        let (v, added, skipped) = follow_edges(visited, edges.drop_last(), include_unresolved);
        let (v2, added2, skipped2) = follow_edges(visited, edges, include_unresolved);
        if v2.len() > v.len() {
            assert(v2 == v.push(v2.last()));
            assert(!v.contains(v2.last()));
            assert forall|i: int, j: int| 0 <= i < j < v2.len() implies v2[i] != v2[j] by {
                if j == v.len() {
                    assert(v2[i] == v[i]);
                    assert(v.contains(v2[i]));
                } else {
                    assert(v2[i] == v[i] && v2[j] == v[j]);
                }
            }
            assert(v2.take(visited.len() as int) =~= v.take(visited.len() as int));
        }
    }
}

/// How a direction is named in a candidate's reason.
pub open spec fn direction_word(d: EdgeDirection) -> Seq<char> {
    match d {
        EdgeDirection::Inbound => "inbound"@,
        EdgeDirection::Outbound => "outbound"@,
    }
}

/// The candidate for the symbol `s` reached from `parent` over the edge `e`, in
/// direction `dir`, from the layer at depth `depth`.
pub open spec fn edge_candidate_ok(
    c: ContextCandidate,
    parent: ContextCandidate,
    dir: EdgeDirection,
    depth: nat,
    e: GraphEdge,
    s: Symbol,
    signature: Option<String>,
) -> bool {
    &&& c.node.id == sym_id(s)
    &&& c.node.name@ == s.name@
    &&& c.node.qualified_name@ == s.qualified_name@
    &&& c.node.kind == object_kind_of(s.kind)
    &&& c.node.file_path@ == s.file@
    &&& c.node.range == (SourceRange {
        start_line: s.range.start_line,
        start_col: s.range.start_col,
        end_line: s.range.end_line,
        end_col: s.range.end_col,
    })
    &&& c.node.signature == signature
    &&& c.node.language matches Some(l) && l@ == s.language.0@
    &&& c.distance == depth + 1
    &&& c.direction == dir
    &&& c.via_edge matches Some(v) && {
        &&& v.from == (match e.from_symbol_id {
            Some(id) => id,
            None => SymbolId(0),
        })
        &&& v.to == (match e.to_symbol_id {
            Some(id) => id,
            None => SymbolId(0),
        })
        &&& v.label == e.raw_text
        &&& v.confidence matches Some(cs) && cs@ == confidence_name(e.confidence)
    }
    &&& c.file_path@ == s.file@
    &&& c.range == c.node.range
    &&& c.graph_score == 0 && c.lexical_score == 0 && c.combined_score == 0
    &&& c.estimated_tokens == 0
    &&& c.reason@ == direction_word(dir) + " relationship to "@ + parent.node.name@
}

fn edge_candidate(
    parent_name: &String,
    dir: EdgeDirection,
    depth: usize,
    e: &GraphEdge,
    s: &Symbol,
    id: SymbolId,
    signature: &Option<String>,
) -> (c: ContextCandidate)
    requires
        depth < usize::MAX,
        s.id == Some(id),
    ensures
        forall|parent: ContextCandidate|
            parent.node.name@ == parent_name@ ==> edge_candidate_ok(
                c,
                parent,
                dir,
                depth as nat,
                *e,
                *s,
                *signature,
            ),
{
    let range = SourceRange::from(s.range);
    let node = LanguageObject {
        id,
        name: s.name.clone(),
        qualified_name: s.qualified_name.clone(),
        kind: LanguageObjectKind::from(s.kind),
        file_path: s.file.clone(),
        range,
        signature: copy_opt_string(signature),
        language: Some(s.language.0.clone()),
    };
    let via = GraphContextEdge {
        from: match e.from_symbol_id {
            Some(x) => x,
            None => SymbolId(0),
        },
        to: match e.to_symbol_id {
            Some(x) => x,
            None => SymbolId(0),
        },
        label: copy_opt_string(&e.raw_text),
        confidence: Some(string_from_chars(&crate::strings::chars_of(e.confidence.as_str()))),
    };
    let mut reason: Vec<char> = Vec::new();
    match dir {
        EdgeDirection::Inbound => extend_str(&mut reason, "inbound"),
        EdgeDirection::Outbound => extend_str(&mut reason, "outbound"),
    }
    extend_str(&mut reason, " relationship to ");
    extend_str(&mut reason, parent_name.as_str());
    ContextCandidate {
        node,
        distance: depth + 1,
        direction: dir,
        via_edge: Some(via),
        file_path: s.file.clone(),
        range,
        graph_score: 0,
        lexical_score: 0,
        combined_score: 0,
        estimated_tokens: 0,
        reason: string_from_chars(&reason),
    }
}

fn contains_id(v: &Vec<SymbolId>, id: SymbolId) -> (r: bool)
    ensures
        r == v@.contains(id),
{
    let mut i: usize = 0;
    while i < v.len()
        invariant
            i <= v.len(),
            forall|j: int| 0 <= j < i ==> v@[j] != id,
        decreases v.len() - i,
    {
        if v[i] == id {
            assert(v@[i as int] == id);
            return true;
        }
        i = i + 1;
    }
    false
}

impl Traversal {
    /// The walk before any edge is followed: the roots are reached, are the
    /// candidates, and form the first layer.
    pub fn start(roots: &[LanguageObject], raw_budget: usize) -> (t: Traversal)
        ensures
            t.visited@ == roots@.map_values(|r: LanguageObject| r.id),
            t.candidates@.len() == roots.len(),
            t.current_layer@ == t.candidates@,
            forall|i: int|
                0 <= i < roots.len() ==> root_candidate_ok(#[trigger] t.candidates@[i], roots@[i]),
            t.next_layer@.len() == 0,
            t.unresolved_filtered == 0,
            t.remaining_budget == raw_budget,
            t.depth == 0,
    {
        let mut visited: Vec<SymbolId> = Vec::new();
        let mut candidates: Vec<ContextCandidate> = Vec::new();
        let mut layer: Vec<ContextCandidate> = Vec::new();
        let mut i: usize = 0;
        while i < roots.len()
            invariant
                i <= roots.len(),
                visited@ == roots@.take(i as int).map_values(|r: LanguageObject| r.id),
                candidates@.len() == i,
                layer@ == candidates@,
                forall|k: int|
                    0 <= k < i ==> root_candidate_ok(#[trigger] candidates@[k], roots@[k]),
            decreases roots.len() - i,
        {
            visited.push(roots[i].id);
            let c = root_candidate(&roots[i]);
            layer.push(copy_candidate(&c));
            candidates.push(c);
            i = i + 1;
            assert(visited@ =~= roots@.take(i as int).map_values(|r: LanguageObject| r.id));
        }
        assert(roots@.take(roots.len() as int) =~= roots@);
        Traversal {
            visited,
            candidates,
            current_layer: layer,
            next_layer: Vec::new(),
            unresolved_filtered: 0,
            remaining_budget: raw_budget,
            depth: 0,
        }
    }

    /// Follows the edges loaded for the `parent_index`-th symbol of the current
    /// layer in direction `dir` (see `follow_edges`): each symbol reached for the
    /// first time becomes a candidate of the next layer, with the signature given
    /// for its edge.
    pub fn absorb_edges(
        &mut self,
        parent_index: usize,
        dir: EdgeDirection,
        edges: &Vec<(GraphEdge, ResolvedEdgeTarget)>,
        signatures: &Vec<Option<String>>,
        include_unresolved: bool,
    )
        requires
            parent_index < old(self).current_layer.len(),
            signatures.len() == edges.len(),
            old(self).depth < usize::MAX,
            old(self).unresolved_filtered + edges.len() <= usize::MAX,
            forall|k: int|
                0 <= k < edges.len() ==> ((#[trigger] edges@[k]).1 is Symbol ==> target_symbol(
                    edges@[k].1,
                ).id is Some),
        ensures
            ({
                let (v, added, skipped) = follow_edges(
                    old(self).visited@,
                    edges@,
                    include_unresolved,
                );
                &&& final(self).visited@ == v
                &&& final(self).unresolved_filtered == old(self).unresolved_filtered + skipped
                &&& final(self).next_layer@.len() == old(self).next_layer@.len() + added.len()
                &&& final(self).next_layer@.take(old(self).next_layer@.len() as int)
                    == old(self).next_layer@
                &&& forall|k: int|
                    0 <= k < added.len() ==> edge_candidate_ok(
                        #[trigger] final(self).next_layer@[old(self).next_layer@.len() + k],
                        old(self).current_layer@[parent_index as int],
                        dir,
                        old(self).depth as nat,
                        edges@[added[k]].0,
                        target_symbol(edges@[added[k]].1),
                        signatures@[added[k]],
                    )
            }),
            final(self).candidates == old(self).candidates,
            final(self).current_layer == old(self).current_layer,
            final(self).remaining_budget == old(self).remaining_budget,
            final(self).depth == old(self).depth,
    {
        let parent_name = self.current_layer[parent_index].node.name.clone();
        let ghost parent = self.current_layer@[parent_index as int];
        let ghost visited0 = self.visited@;
        let ghost next0 = self.next_layer@;
        let ghost filtered0 = self.unresolved_filtered;
        let depth = self.depth;
        let mut i: usize = 0;
        while i < edges.len()
            invariant
                i <= edges.len(),
                signatures.len() == edges.len(),
                depth == self.depth,
                depth < usize::MAX,
                parent_name@ == parent.node.name@,
                parent == old(self).current_layer@[parent_index as int],
                self.candidates == old(self).candidates,
                self.current_layer == old(self).current_layer,
                self.remaining_budget == old(self).remaining_budget,
                filtered0 + edges.len() <= usize::MAX,
                forall|k: int|
                    0 <= k < edges.len() ==> ((#[trigger] edges@[k]).1 is Symbol
                        ==> target_symbol(edges@[k].1).id is Some),
                ({
                    let (v, added, skipped) = follow_edges(
                        visited0,
                        edges@.take(i as int),
                        include_unresolved,
                    );
                    &&& self.visited@ == v
                    &&& self.unresolved_filtered == filtered0 + skipped
                    &&& skipped <= i
                    &&& self.next_layer@.len() == next0.len() + added.len()
                    &&& self.next_layer@.take(next0.len() as int) == next0
                    &&& forall|k: int| 0 <= k < added.len() ==> 0 <= #[trigger] added[k] < i
                    &&& forall|k: int|
                        0 <= k < added.len() ==> edge_candidate_ok(
                            #[trigger] self.next_layer@[next0.len() + k],
                            parent,
                            dir,
                            depth as nat,
                            edges@[added[k]].0,
                            target_symbol(edges@[added[k]].1),
                            signatures@[added[k]],
                        )
                }),
            decreases edges.len() - i,
        {
            let ghost before = follow_edges(visited0, edges@.take(i as int), include_unresolved);
            proof {
                assert(edges@.take(i + 1).drop_last() =~= edges@.take(i as int));
                assert(edges@.take(i + 1).last() == edges@[i as int]);
            }
            let e = &edges[i].0;
            let unresolved = match e.confidence {
                ResolutionConfidence::Unresolved => true,
                _ => false,
            };
            if !include_unresolved && unresolved {
                self.unresolved_filtered = self.unresolved_filtered + 1;
            } else {
                match &edges[i].1 {
                    ResolvedEdgeTarget::Symbol(s) => {
                        let id = match s.id {
                            Some(x) => x,
                            None => SymbolId(0),
                        };
                        if !contains_id(&self.visited, id) {
                            self.visited.push(id);
                            let c = edge_candidate(
                                &parent_name,
                                dir,
                                depth,
                                e,
                                s,
                                id,
                                &signatures[i],
                            );
                            let ghost nl = self.next_layer@;
                            self.next_layer.push(c);
                            proof {
                                let added = before.1;
                                assert forall|k: int| 0 <= k < added.len() + 1 implies edge_candidate_ok(
                                    #[trigger] self.next_layer@[next0.len() + k],
                                    parent,
                                    dir,
                                    depth as nat,
                                    edges@[added.push(i as int)[k]].0,
                                    target_symbol(edges@[added.push(i as int)[k]].1),
                                    signatures@[added.push(i as int)[k]],
                                ) by {
                                    if k < added.len() {
                                        assert(self.next_layer@[next0.len() + k] == nl[next0.len() + k]);
                                    }
                                }
                                assert(self.next_layer@.take(next0.len() as int) =~= next0);
                            }
                        }
                    },
                    _ => {},
                }
            }
            i = i + 1;
        }
        assert(edges@.take(edges.len() as int) =~= edges@);
    }

    /// Whether following the current layer found any new symbol.
    pub fn has_next_layer(&self) -> (r: bool)
        ensures
            r == (self.next_layer@.len() > 0),
    {
        self.next_layer.len() > 0
    }

    /// Hands out the next layer's candidates (for ranking), leaving none.
    pub fn take_next_layer(&mut self) -> (layer: Vec<ContextCandidate>)
        ensures
            layer@ == old(self).next_layer@,
            final(self).next_layer@.len() == 0,
            final(self).visited == old(self).visited,
            final(self).candidates == old(self).candidates,
            final(self).current_layer == old(self).current_layer,
            final(self).unresolved_filtered == old(self).unresolved_filtered,
            final(self).remaining_budget == old(self).remaining_budget,
            final(self).depth == old(self).depth,
    {
        let mut layer: Vec<ContextCandidate> = Vec::new();
        std::mem::swap(&mut layer, &mut self.next_layer);
        layer
    }
}

/// With an automatic depth limit, candidates scoring below 0.12 are dropped. Scores
/// are carried as order keys (see `ContextCandidate`); this is the key of 0.12, the
/// bits of the single-precision number.
pub const MARGINAL_SCORE_KEY: i64 = 1039516303;

/// The candidates that score at least the marginal score, in order.
pub open spec fn above_margin(s: Seq<ContextCandidate>) -> Seq<ContextCandidate>
    decreases s.len(),
{
    if s.len() == 0 {
        Seq::empty()
    } else if s.last().combined_score >= MARGINAL_SCORE_KEY {
        above_margin(s.drop_last()).push(s.last())
    } else {
        above_margin(s.drop_last())
    }
}

/// The part of a ranked layer that is kept: with an automatic depth limit, the
/// first 50 candidates that score at least the marginal score; else all of it.
pub open spec fn frontier_spec(ranked: Seq<ContextCandidate>, is_auto: bool) -> Seq<ContextCandidate> {
    if is_auto {
        let kept = above_margin(ranked);
        kept.take(
            if kept.len() < FRONTIER_LIMIT_PER_DEPTH {
                kept.len() as int
            } else {
                FRONTIER_LIMIT_PER_DEPTH as int
            },
        )
    } else {
        ranked
    }
}

/// The part of a ranked layer that is kept (see `frontier_spec`).
pub fn frontier_of(ranked: Vec<ContextCandidate>, is_auto: bool) -> (r: Vec<ContextCandidate>)
    ensures
        r@ == frontier_spec(ranked@, is_auto),
{
    if !is_auto {
        return ranked;
    }
    let mut kept: Vec<ContextCandidate> = Vec::new();
    let mut i: usize = 0;
    while i < ranked.len()
        invariant
            i <= ranked.len(),
            kept@ == above_margin(ranked@.take(i as int)),
        decreases ranked.len() - i,
    {
        proof {
            assert(ranked@.take(i + 1).drop_last() =~= ranked@.take(i as int));
        }
        if ranked[i].combined_score >= MARGINAL_SCORE_KEY {
            kept.push(copy_candidate(&ranked[i]));
        }
        i = i + 1;
    }
    assert(ranked@.take(ranked.len() as int) =~= ranked@);
    let n = if kept.len() < FRONTIER_LIMIT_PER_DEPTH {
        kept.len()
    } else {
        FRONTIER_LIMIT_PER_DEPTH
    };
    let mut r: Vec<ContextCandidate> = Vec::new();
    let mut j: usize = 0;
    while j < n
        invariant
            j <= n,
            n <= kept.len(),
            r@ == kept@.take(j as int),
        decreases n - j,
    {
        r.push(copy_candidate(&kept[j]));
        j = j + 1;
        assert(r@ =~= kept@.take(j as int));
    }
    r
}

/// The estimated token cost of a layer: each candidate's snippet estimate, or 100
/// where its snippet could not be read.
pub open spec fn layer_cost(costs: Seq<Option<usize>>) -> nat
    decreases costs.len(),
{
    if costs.len() == 0 {
        0
    } else {
        layer_cost(costs.drop_last()) + match costs.last() {
            Some(c) => c as nat,
            None => 100nat,
        }
    }
}

/// Whether a kept layer is accepted: always with a fixed depth limit; with an
/// automatic one, when it is not empty and fits the remaining budget, or is the
/// first layer.
pub open spec fn layer_accepted(frontier_len: nat, cost: nat, remaining: nat, depth: nat, is_auto: bool) -> bool {
    !is_auto || (frontier_len > 0 && !(cost > remaining && depth >= AUTO_DEPTH_MIN))
}

impl Traversal {
    /// Accepts a kept layer (see `layer_accepted`), given the estimated token cost
    /// of each of its candidates: the layer's candidates join the candidates and
    /// become the current layer, the depth grows by one and, with an automatic
    /// depth limit, the layer's cost is taken from the remaining budget. Returns
    /// whether the layer was accepted; a refused layer leaves the walk as it was.
    pub fn advance(
        &mut self,
        frontier: Vec<ContextCandidate>,
        costs: &Vec<Option<usize>>,
        is_auto: bool,
    ) -> (accepted: bool)
        requires
            costs.len() == frontier.len(),
            layer_cost(costs@) <= usize::MAX,
            old(self).depth < usize::MAX,
        ensures
            accepted == layer_accepted(
                frontier.len() as nat,
                layer_cost(costs@),
                old(self).remaining_budget as nat,
                old(self).depth as nat,
                is_auto,
            ),
            !accepted ==> *final(self) == *old(self),
            accepted ==> {
                &&& final(self).candidates@ == old(self).candidates@ + frontier@
                &&& final(self).current_layer@ == frontier@
                &&& final(self).depth == old(self).depth + 1
                &&& final(self).remaining_budget == (if is_auto {
                    crate::snippet::sat_sub(
                        old(self).remaining_budget as int,
                        layer_cost(costs@) as int,
                    )
                } else {
                    old(self).remaining_budget as int
                })
                &&& final(self).visited == old(self).visited
                &&& final(self).next_layer == old(self).next_layer
                &&& final(self).unresolved_filtered == old(self).unresolved_filtered
            },
    {
        let mut cost: usize = 0;
        let mut i: usize = 0;
        while i < costs.len()
            invariant
                i <= costs.len(),
                cost == layer_cost(costs@.take(i as int)),
                layer_cost(costs@) <= usize::MAX,
            decreases costs.len() - i,
        {
            proof {
                assert(costs@.take(i + 1).drop_last() =~= costs@.take(i as int));
                lemma_layer_cost_prefix(costs@, i + 1);
            }
            let c = match costs[i] {
                Some(c) => c,
                None => 100,
            };
            cost = cost + c;
            i = i + 1;
        }
        assert(costs@.take(costs.len() as int) =~= costs@);
        if is_auto {
            if frontier.len() == 0 {
                return false;
            }
            if cost > self.remaining_budget && self.depth >= AUTO_DEPTH_MIN {
                return false;
            }
            self.remaining_budget = if self.remaining_budget > cost {
                self.remaining_budget - cost
            } else {
                0
            };
        }
        let mut j: usize = 0;
        let ghost c0 = self.candidates@;
        let ghost rb = self.remaining_budget;
        while j < frontier.len()
            invariant
                j <= frontier.len(),
                self.candidates@ == c0 + frontier@.take(j as int),
                c0 == old(self).candidates@,
                self.depth == old(self).depth,
                old(self).depth < usize::MAX,
                self.visited == old(self).visited,
                self.next_layer == old(self).next_layer,
                self.unresolved_filtered == old(self).unresolved_filtered,
                self.remaining_budget == rb,
            decreases frontier.len() - j,
        {
            self.candidates.push(copy_candidate(&frontier[j]));
            j = j + 1;
            assert(self.candidates@ =~= c0 + frontier@.take(j as int));
        }
        assert(frontier@.take(frontier.len() as int) =~= frontier@);
        self.current_layer = frontier;
        self.depth = self.depth + 1;
        true
    }
}

proof fn lemma_layer_cost_prefix(costs: Seq<Option<usize>>, i: int)
    requires
        0 <= i <= costs.len(),
    ensures
        layer_cost(costs.take(i)) <= layer_cost(costs),
    decreases costs.len() - i,
{
    if i < costs.len() {
        lemma_layer_cost_prefix(costs, i + 1);
        assert(costs.take(i + 1).drop_last() =~= costs.take(i));
    } else {
        assert(costs.take(i) =~= costs);
    }
}

/// The note on unresolved edges that were skipped.
pub open spec fn unresolved_message(n: nat) -> Seq<char> {
    "Filtered "@ + decimal(n) + " unresolved edges because include_unresolved=false."@
}

pub fn unresolved_diagnostic(count: usize) -> (d: GraphContextDiagnostic)
    ensures
        diagnostic_ok(d, "info"@, unresolved_message(count as nat)),
{
    let mut m: Vec<char> = Vec::new();
    extend_str(&mut m, "Filtered ");
    push_decimal(&mut m, count);
    extend_str(&mut m, " unresolved edges because include_unresolved=false.");
    diagnostic("info", m)
}

/// The warning on candidates left out of the pack.
pub open spec fn truncation_message(n: nat) -> Seq<char> {
    "Context truncated: "@ + decimal(n) + " candidates omitted due to token budget."@
}

pub fn truncation_diagnostic(count: usize) -> (d: GraphContextDiagnostic)
    ensures
        diagnostic_ok(d, "warning"@, truncation_message(count as nat)),
{
    let mut m: Vec<char> = Vec::new();
    extend_str(&mut m, "Context truncated: ");
    push_decimal(&mut m, count);
    extend_str(&mut m, " candidates omitted due to token budget.");
    diagnostic("warning", m)
}

/// The diagnostics of a retrieval, in order: the budget warning, if there is
/// one; a note of the unresolved edges filtered, if any were; a truncation
/// warning, if any candidate was omitted.
pub open spec fn diagnostics_ok(
    r: Seq<GraphContextDiagnostic>,
    budget_warning: Option<GraphContextDiagnostic>,
    unresolved_filtered: nat,
    omitted: nat,
) -> bool {
    &&& r.len() == (if budget_warning is Some { 1int } else { 0 }) + (if unresolved_filtered > 0 { 1int } else { 0 })
        + (if omitted > 0 { 1int } else { 0 })
    &&& budget_warning matches Some(w) ==> r[0] == w
    &&& unresolved_filtered > 0 ==> ({
        let k = if budget_warning is Some { 1int } else { 0 };
        diagnostic_ok(r[k], "info"@, unresolved_message(unresolved_filtered))
    })
    &&& omitted > 0 ==> diagnostic_ok(r[r.len() - 1], "warning"@, truncation_message(omitted))
}

/// The diagnostics of a retrieval, in order: the budget warning, if the budget
/// was raised; the count of unresolved edges left out, if any was; and the count
/// of candidates the pack left out, if any was.
pub fn retrieval_diagnostics(
    budget_warning: Option<GraphContextDiagnostic>,
    unresolved_filtered: usize,
    omitted: usize,
) -> (r: Vec<GraphContextDiagnostic>)
    ensures
        diagnostics_ok(r@, budget_warning, unresolved_filtered as nat, omitted as nat),
{
    let mut r: Vec<GraphContextDiagnostic> = Vec::new();
    match budget_warning {
        Some(w) => r.push(w),
        None => {},
    }
    if unresolved_filtered > 0 {
        r.push(unresolved_diagnostic(unresolved_filtered));
    }
    if omitted > 0 {
        r.push(truncation_diagnostic(omitted));
    }
    r
}

/// Whether a candidate stands for one of the roots.
pub open spec fn is_root_candidate(c: ContextCandidate, roots: Seq<LanguageObject>) -> bool {
    exists|i: int| 0 <= i < roots.len() && #[trigger] roots[i].id == c.node.id
}

/// The candidates that stand for roots, in order.
pub open spec fn root_part(cs: Seq<ContextCandidate>, roots: Seq<LanguageObject>) -> Seq<ContextCandidate>
    decreases cs.len(),
{
    if cs.len() == 0 {
        Seq::empty()
    } else if is_root_candidate(cs.last(), roots) {
        root_part(cs.drop_last(), roots).push(cs.last())
    } else {
        root_part(cs.drop_last(), roots)
    }
}

/// The other candidates, in order.
pub open spec fn neighbor_part(cs: Seq<ContextCandidate>, roots: Seq<LanguageObject>) -> Seq<ContextCandidate>
    decreases cs.len(),
{
    if cs.len() == 0 {
        Seq::empty()
    } else if is_root_candidate(cs.last(), roots) {
        neighbor_part(cs.drop_last(), roots)
    } else {
        neighbor_part(cs.drop_last(), roots).push(cs.last())
    }
}

/// The combined score of each candidate, as a sort key.
pub open spec fn score_keys(cs: Seq<ContextCandidate>) -> Seq<(i64, usize)> {
    cs.map_values(|c: ContextCandidate| (c.combined_score, 0usize))
}

/// `cs` permuted by `ord`.
pub open spec fn permuted(cs: Seq<ContextCandidate>, ord: Seq<usize>) -> Seq<ContextCandidate> {
    ord.map_values(|i: usize| cs[i as int])
}

fn is_root_id(c: &ContextCandidate, roots: &[LanguageObject]) -> (r: bool)
    ensures
        r == is_root_candidate(*c, roots@),
{
    let mut i: usize = 0;
    while i < roots.len()
        invariant
            i <= roots.len(),
            forall|j: int| 0 <= j < i ==> roots@[j].id != c.node.id,
        decreases roots.len() - i,
    {
        if roots[i].id == c.node.id {
            assert(roots@[i as int].id == c.node.id);
            return true;
        }
        i = i + 1;
    }
    false
}

/// Splits the ranked candidates into the roots' (in ranked order) and the others,
/// ordered by decreasing score with ties in ranked order.
pub fn split_roots(ranked: Vec<ContextCandidate>, roots: &[LanguageObject]) -> (r: (
    Vec<ContextCandidate>,
    Vec<ContextCandidate>,
))
    ensures
        r.0@ == root_part(ranked@, roots@),
        r.1@ == permuted(
            neighbor_part(ranked@, roots@),
            desc_order(score_keys(neighbor_part(ranked@, roots@))),
        ),
{
    let mut rs: Vec<ContextCandidate> = Vec::new();
    let mut ns: Vec<ContextCandidate> = Vec::new();
    let mut i: usize = 0;
    while i < ranked.len()
        invariant
            i <= ranked.len(),
            rs@ == root_part(ranked@.take(i as int), roots@),
            ns@ == neighbor_part(ranked@.take(i as int), roots@),
        decreases ranked.len() - i,
    {
        proof {
            assert(ranked@.take(i + 1).drop_last() =~= ranked@.take(i as int));
        }
        if is_root_id(&ranked[i], roots) {
            rs.push(copy_candidate(&ranked[i]));
        } else {
            ns.push(copy_candidate(&ranked[i]));
        }
        i = i + 1;
    }
    assert(ranked@.take(ranked.len() as int) =~= ranked@);
    let mut keys: Vec<(i64, usize)> = Vec::new();
    let mut k: usize = 0;
    while k < ns.len()
        invariant
            k <= ns.len(),
            keys@ == score_keys(ns@.take(k as int)),
        decreases ns.len() - k,
    {
        keys.push((ns[k].combined_score, 0));
        k = k + 1;
        assert(keys@ =~= score_keys(ns@.take(k as int)));
    }
    assert(ns@.take(ns.len() as int) =~= ns@);
    let ord = order_by_key_desc(&keys);
    let mut sorted: Vec<ContextCandidate> = Vec::new();
    let mut t: usize = 0;
    while t < ord.len()
        invariant
            t <= ord.len(),
            ord.len() == ns.len(),
            forall|q: int| 0 <= q < ord.len() ==> #[trigger] ord@[q] < ns.len(),
            sorted@ == permuted(ns@, ord@.take(t as int)),
        decreases ord.len() - t,
    {
        sorted.push(copy_candidate(&ns[ord[t]]));
        t = t + 1;
        assert(sorted@ =~= permuted(ns@, ord@.take(t as int)));
    }
    assert(ord@.take(ord.len() as int) =~= ord@);
    (rs, sorted)
}

/// The line for an edge leaving a root.
pub open spec fn outbound_line(kind: EdgeKind, root: Seq<char>, target: Seq<char>) -> Seq<char> {
    "  [out "@ + edge_kind_name(kind) + "] "@ + root + " -> "@ + target
}

/// The line for an edge entering a root.
pub open spec fn inbound_line(kind: EdgeKind, source: Seq<char>, root: Seq<char>) -> Seq<char> {
    "  [in "@ + edge_kind_name(kind) + "] "@ + source + " -> "@ + root
}

/// What an outgoing edge leads to: the target's qualified name, else the external
/// name, else "unknown".
pub open spec fn outbound_target_name(e: GraphEdge, target: Option<Symbol>) -> Seq<char> {
    match target {
        Some(t) => t.qualified_name@,
        None => match e.to_external {
            Some(x) => x@,
            None => "unknown"@,
        },
    }
}

pub fn outbound_relationship(e: &GraphEdge, target: &Option<Symbol>, root_name: &str) -> (s: String)
    ensures
        s@ == outbound_line(e.kind, root_name@, outbound_target_name(*e, *target)),
{
    let mut v: Vec<char> = Vec::new();
    extend_str(&mut v, "  [out ");
    extend_str(&mut v, e.kind.as_str());
    extend_str(&mut v, "] ");
    extend_str(&mut v, root_name);
    extend_str(&mut v, " -> ");
    match target {
        Some(t) => extend_str(&mut v, t.qualified_name.as_str()),
        None => match &e.to_external {
            Some(x) => extend_str(&mut v, x.as_str()),
            None => extend_str(&mut v, "unknown"),
        },
    }
    string_from_chars(&v)
}

pub fn inbound_relationship(e: &GraphEdge, source: &Symbol, root_name: &str) -> (s: String)
    ensures
        s@ == inbound_line(e.kind, source.qualified_name@, root_name@),
{
    let mut v: Vec<char> = Vec::new();
    extend_str(&mut v, "  [in ");
    extend_str(&mut v, e.kind.as_str());
    extend_str(&mut v, "] ");
    extend_str(&mut v, source.qualified_name.as_str());
    extend_str(&mut v, " -> ");
    extend_str(&mut v, root_name);
    string_from_chars(&v)
}

/// The relationship lines shown: sorted, each once, at most ten.
pub fn top_relationships(lines: &Vec<String>) -> (r: Vec<String>)
    ensures
        str_views(r@) == sorted_unique_of(str_views(lines@)).take(
            if sorted_unique_of(str_views(lines@)).len() < 10 {
                sorted_unique_of(str_views(lines@)).len() as int
            } else {
                10
            },
        ),
{
    let all = sort_dedup(lines);
    let n: usize = if all.len() < 10 {
        all.len()
    } else {
        10
    };
    let mut r: Vec<String> = Vec::new();
    let mut i: usize = 0;
    while i < n
        invariant
            i <= n,
            n <= all.len(),
            str_views(r@) == str_views(all@).take(i as int),
        decreases n - i,
    {
        let ghost r0 = r@;
        let x = all[i].clone();
        r.push(x);
        assert(r@ == r0.push(all@[i as int]));
        assert(str_views(r@) =~= str_views(r0).push(all@[i as int]@));
        assert(str_views(all@).take(i + 1) =~= str_views(all@).take(i as int).push(
            all@[i as int]@,
        ));
        i = i + 1;
        assert(str_views(r@) =~= str_views(all@).take(i as int));
    }
    r
}

/// The edges by which the included candidates were reached, in order.
pub open spec fn via_edges(inc: Seq<(ContextCandidate, ContextSnippet)>) -> Seq<GraphContextEdge>
    decreases inc.len(),
{
    if inc.len() == 0 {
        Seq::empty()
    } else {
        match inc.last().0.via_edge {
            Some(e) => via_edges(inc.drop_last()).push(e),
            None => via_edges(inc.drop_last()),
        }
    }
}

/// Puts a pack together: the included candidates' symbols, the edges they were
/// reached by and their snippets, with the sections and omitted candidates.
pub fn assemble_pack(
    query: &str,
    mode: GraphContextMode,
    raw_budget: usize,
    requested_token_budget: Option<usize>,
    effective_token_budget: Option<usize>,
    roots: Vec<LanguageObject>,
    packed: PackedSnippets,
    built: BuiltSections,
    diagnostics: Vec<GraphContextDiagnostic>,
) -> (p: ContextPack)
    ensures
        p.query@ == query@,
        p.mode == mode,
        p.token_budget == raw_budget,
        p.requested_token_budget == requested_token_budget,
        p.effective_token_budget == effective_token_budget,
        p.estimated_tokens == built.total_estimated_tokens,
        p.roots == roots,
        p.nodes@ == packed.included@.map_values(|x: (ContextCandidate, ContextSnippet)| x.0.node),
        p.edges@ == via_edges(packed.included@),
        p.snippets@ == packed.included@.map_values(|x: (ContextCandidate, ContextSnippet)| x.1),
        p.sections == built.sections,
        p.omitted == packed.omitted,
        p.diagnostics == diagnostics,
{
    let ghost inc = packed.included@;
    let mut nodes: Vec<LanguageObject> = Vec::new();
    let mut edges: Vec<GraphContextEdge> = Vec::new();
    let mut snippets: Vec<ContextSnippet> = Vec::new();
    let mut i: usize = 0;
    while i < packed.included.len()
        invariant
            i <= packed.included.len(),
            inc == packed.included@,
            nodes@ == inc.take(i as int).map_values(|x: (ContextCandidate, ContextSnippet)| x.0.node),
            edges@ == via_edges(inc.take(i as int)),
            snippets@ == inc.take(i as int).map_values(|x: (ContextCandidate, ContextSnippet)| x.1),
        decreases packed.included.len() - i,
    {
        proof {
            assert(inc.take(i + 1).drop_last() =~= inc.take(i as int));
        }
        let (c, sn) = &packed.included[i];
        nodes.push(copy_object(&c.node));
        match &c.via_edge {
            Some(e) => edges.push(crate::model::copy_context_edge(e)),
            None => {},
        }
        snippets.push(crate::context::copy_snippet(sn));
        i = i + 1;
        assert(nodes@ =~= inc.take(i as int).map_values(|x: (ContextCandidate, ContextSnippet)| x.0.node));
        assert(snippets@ =~= inc.take(i as int).map_values(|x: (ContextCandidate, ContextSnippet)| x.1));
    }
    assert(inc.take(inc.len() as int) =~= inc);
    let PackedSnippets { included: _, omitted } = packed;
    ContextPack {
        query: string_from_chars(&crate::strings::chars_of(query)),
        mode,
        token_budget: raw_budget,
        requested_token_budget,
        effective_token_budget,
        estimated_tokens: built.total_estimated_tokens,
        roots,
        nodes,
        edges,
        snippets,
        sections: built.sections,
        omitted,
        diagnostics,
    }
}

/// Packed position `j` holds one of the first `k` neighbours, placed there, with
/// its snippet.
spec fn placed_at(
    neighbors: Seq<ContextCandidate>,
    texts: Seq<String>,
    included: Seq<(ContextCandidate, ContextSnippet)>,
    pos: Seq<int>,
    j: int,
    k: nat,
) -> bool {
    exists|m: int|
        0 <= m < k && pos[m] == j && included_ok(neighbors[m], included[j].0, texts[m]@) && snippet_ok(
            neighbors[m],
            included[j].1,
            texts[m]@,
        )
}

/// Each packed position from the roots on holds a neighbour that was placed
/// there, with its snippet.
proof fn lemma_included_neighbors(
    roots: Seq<LanguageObject>,
    root_texts: Seq<String>,
    neighbors: Seq<ContextCandidate>,
    texts: Seq<String>,
    raw_budget: nat,
    max_nodes: nat,
    max_files: nat,
    included: Seq<(ContextCandidate, ContextSnippet)>,
    omitted: Seq<OmittedContext>,
    pos: Seq<int>,
    k: nat,
)
    requires
        neighbor_placement(
            root_texts.len(),
            roots,
            root_texts,
            neighbors,
            texts,
            raw_budget,
            max_nodes,
            max_files,
            included,
            omitted,
            pos,
        ),
        texts.len() == neighbors.len(),
        k <= neighbors.len(),
    ensures
        pack_state(roots, root_texts, neighbors, texts, raw_budget, max_nodes, max_files, k).0 >= root_texts.len(),
        forall|j: int|
            root_texts.len() <= j < pack_state(roots, root_texts, neighbors, texts, raw_budget, max_nodes, max_files, k).0
                ==> #[trigger] placed_at(neighbors, texts, included, pos, j, k),
    decreases k,
{
    if k > 0 {
        let last = (k - 1) as nat;
        lemma_included_neighbors(
            roots,
            root_texts,
            neighbors,
            texts,
            raw_budget,
            max_nodes,
            max_files,
            included,
            omitted,
            pos,
            last,
        );
        let (count, files, budget) = pack_state(roots, root_texts, neighbors, texts, raw_budget, max_nodes, max_files, last);
        let fate = neighbor_fate(count, files, budget, neighbors[last as int], texts[last as int]@, max_nodes, max_files);
        assert forall|j: int|
            root_texts.len() <= j < pack_state(roots, root_texts, neighbors, texts, raw_budget, max_nodes, max_files, k).0
                implies #[trigger] placed_at(neighbors, texts, included, pos, j, k) by {
            if j < count {
                assert(placed_at(neighbors, texts, included, pos, j, last));
                let w = choose|m: int|
                    0 <= m < last && pos[m] == j && included_ok(neighbors[m], included[j].0, texts[m]@) && snippet_ok(
                        neighbors[m],
                        included[j].1,
                        texts[m]@,
                    );
                assert(0 <= w < k);
            } else {
                let m = last as int;
                assert(fate == 0 && j == count);
                assert(pos[m] == count);
                assert(included_ok(neighbors[m], included[j].0, texts[m]@));
                assert(snippet_ok(neighbors[m], included[j].1, texts[m]@));
            }
        }
    }
}

/// A pack's edges: the edges by which the non-root candidates were reached.
proof fn lemma_via_edges_len(inc: Seq<(ContextCandidate, ContextSnippet)>, n: int)
    requires
        0 <= n <= inc.len(),
        forall|j: int| 0 <= j < n ==> (#[trigger] inc[j]).0.via_edge is None,
        forall|j: int| n <= j < inc.len() ==> (#[trigger] inc[j]).0.via_edge is Some,
    ensures
        via_edges(inc).len() == inc.len() - n,
    decreases inc.len(),
{
    if inc.len() > 0 {
        let pre = inc.drop_last();
        assert(inc.last() == inc[inc.len() - 1]);
        if n < inc.len() {
            assert forall|j: int| n <= j < pre.len() implies (#[trigger] pre[j]).0.via_edge is Some by {
                assert(pre[j] == inc[j]);
            }
            assert forall|j: int| 0 <= j < n implies (#[trigger] pre[j]).0.via_edge is None by {
                assert(pre[j] == inc[j]);
            }
            lemma_via_edges_len(pre, n);
        } else {
            assert forall|j: int| 0 <= j < n - 1 implies (#[trigger] pre[j]).0.via_edge is None by {
                assert(pre[j] == inc[j]);
            }
            lemma_via_edges_len(pre, n - 1);
        }
    }
}

/// What a retrieved pack holds, relative to the packing it was assembled from:
/// the root candidates come first, in order; every node has its snippet, the
/// snippet of that very symbol; the pack's edges are those by which the
/// non-root nodes were reached, one per such node; every candidate is either a
/// node or omitted; and the diagnostics end with a truncation warning when
/// something was omitted, and have none when nothing was. `packed` is what
/// `pack_snippets` returns for the candidates, `p` what `assemble_pack` puts
/// together from it, and the diagnostics those `retrieval_diagnostics` gives;
/// the root candidates were reached by no edge, the neighbours each by one.
pub proof fn law_packed_context_relations(
    roots: Seq<LanguageObject>,
    roots_cand: Seq<ContextCandidate>,
    root_texts: Seq<String>,
    neighbors: Seq<ContextCandidate>,
    neighbor_texts: Seq<String>,
    raw_budget: nat,
    max_nodes: nat,
    max_files: nat,
    packed: PackedSnippets,
    budget_warning: Option<GraphContextDiagnostic>,
    unresolved_filtered: nat,
    p: ContextPack,
)
    requires
        root_texts.len() == roots_cand.len(),
        neighbor_texts.len() == neighbors.len(),
        packed_ok(packed, roots, roots_cand, root_texts, neighbors, neighbor_texts, raw_budget, max_nodes, max_files),
        forall|i: int| 0 <= i < roots_cand.len() ==> (#[trigger] roots_cand[i]).via_edge is None,
        forall|k: int| 0 <= k < neighbors.len() ==> (#[trigger] neighbors[k]).via_edge is Some,
        p.nodes@ == packed.included@.map_values(|x: (ContextCandidate, ContextSnippet)| x.0.node),
        p.edges@ == via_edges(packed.included@),
        p.snippets@ == packed.included@.map_values(|x: (ContextCandidate, ContextSnippet)| x.1),
        p.omitted == packed.omitted,
        diagnostics_ok(p.diagnostics@, budget_warning, unresolved_filtered, packed.omitted@.len()),
    ensures
        roots_cand.len() <= p.nodes@.len(),
        forall|i: int| 0 <= i < roots_cand.len() ==> p.nodes@[i] == (#[trigger] roots_cand[i]).node,
        p.snippets@.len() == p.nodes@.len(),
        forall|i: int| 0 <= i < p.nodes@.len() ==> (#[trigger] p.snippets@[i]).symbol_id == Some(p.nodes@[i].id),
        p.edges@.len() == p.nodes@.len() - roots_cand.len(),
        p.nodes@.len() + p.omitted@.len() == roots_cand.len() + neighbors.len(),
        p.omitted@.len() > 0 ==> diagnostic_ok(
            p.diagnostics@[p.diagnostics@.len() - 1],
            "warning"@,
            truncation_message(p.omitted@.len()),
        ),
        p.omitted@.len() == 0 ==> p.diagnostics@.len() == (if budget_warning is Some { 1int } else { 0 }) + (
        if unresolved_filtered > 0 {
            1int
        } else {
            0
        }),
{
    let inc = packed.included@;
    let n = neighbors.len();
    let pos = choose|pos: Seq<int>| #[trigger] neighbor_placement(
        roots_cand.len(),
        roots,
        root_texts,
        neighbors,
        neighbor_texts,
        raw_budget,
        max_nodes,
        max_files,
        packed.included@,
        packed.omitted@,
        pos,
    );
    lemma_included_neighbors(
        roots,
        root_texts,
        neighbors,
        neighbor_texts,
        raw_budget,
        max_nodes,
        max_files,
        inc,
        packed.omitted@,
        pos,
        n,
    );
    let nr = roots_cand.len() as int;
    assert forall|j: int| 0 <= j < inc.len() implies {
        &&& (j < nr ==> (#[trigger] inc[j]).0.via_edge is None)
        &&& (j >= nr ==> inc[j].0.via_edge is Some)
        &&& inc[j].1.symbol_id == Some(inc[j].0.node.id)
    } by {
        if j < nr {
            assert(included_ok(roots_cand[j], inc[j].0, root_texts[j]@));
            assert(snippet_ok(roots_cand[j], inc[j].1, root_texts[j]@));
        } else {
            assert(placed_at(neighbors, neighbor_texts, inc, pos, j, n));
            let m = choose|m: int|
                0 <= m < n && pos[m] == j && included_ok(neighbors[m], inc[j].0, neighbor_texts[m]@) && snippet_ok(
                    neighbors[m],
                    inc[j].1,
                    neighbor_texts[m]@,
                );
            assert(neighbors[m].via_edge is Some);
        }
    }
    assert forall|j: int| 0 <= j < nr implies (#[trigger] inc[j]).0.via_edge is None by {
        assert(inc[j].0.via_edge is None);
    }
    assert forall|j: int| nr <= j < inc.len() implies (#[trigger] inc[j]).0.via_edge is Some by {
        assert(inc[j].0.via_edge is Some);
    }
    lemma_via_edges_len(inc, nr);
    assert forall|i: int| 0 <= i < nr implies p.nodes@[i] == (#[trigger] roots_cand[i]).node by {
        assert(included_ok(roots_cand[i], inc[i].0, root_texts[i]@));
    }
    assert forall|i: int| 0 <= i < p.nodes@.len() implies (#[trigger] p.snippets@[i]).symbol_id == Some(
        p.nodes@[i].id,
    ) by {
        assert(inc[i].1.symbol_id == Some(inc[i].0.node.id));
    }
}

} // verus!
