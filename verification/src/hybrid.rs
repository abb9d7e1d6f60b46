//! Turning hybrid search hits into context candidates, and ranking them.
//!
//! The caller runs the search and loads each hit's chunk, its parent and
//! children chunks and their symbols; the functions here decide which symbols
//! become candidates (each symbol at most once, up to the node limit), and rank
//! the candidates into roots and neighbours for packing.
use vstd::prelude::*;
use crate::context::{ContextBudget, ContextCandidate, ContextPack, copy_candidate, effective_budget_of};
use crate::model::{GraphContextDiagnostic, GraphContextMode, LanguageObject, SymbolId, copy_object};
use crate::retrieval::{permuted, score_keys};
use crate::sorting::{desc_order, order_by_key_desc};
use crate::strings::{chars_of, string_from_chars};

verus! {

/// The candidates gathered from search hits so far, the symbols already taken
/// (whether or not they became candidates), and the node limit.
pub struct HitGatherer {
    pub seen: Vec<SymbolId>,
    pub candidates: Vec<ContextCandidate>,
    pub max_nodes: usize,
}

impl HitGatherer {
    /// No symbol is taken twice.
    pub open spec fn wf(&self) -> bool {
        self.seen@.no_duplicates()
    }

    pub fn new(max_nodes: usize) -> (g: HitGatherer)
        ensures
            g.wf(),
            g.seen@.len() == 0,
            g.candidates@.len() == 0,
            g.max_nodes == max_nodes,
    {
        HitGatherer { seen: Vec::new(), candidates: Vec::new(), max_nodes }
    }

    /// Takes a symbol: whether it was not taken before (it is taken from now on).
    pub fn claim(&mut self, id: SymbolId) -> (r: bool)
        requires
            old(self).wf(),
        ensures
            final(self).wf(),
            r == !old(self).seen@.contains(id),
            final(self).seen@ == (if r {
                old(self).seen@.push(id)
            } else {
                old(self).seen@
            }),
            final(self).candidates == old(self).candidates,
            final(self).max_nodes == old(self).max_nodes,
    {
        let mut i: usize = 0;
        while i < self.seen.len()
            invariant
                i <= self.seen.len(),
                self.seen == old(self).seen,
                self.wf(),
                forall|j: int| 0 <= j < i ==> #[trigger] self.seen@[j] != id,
            decreases self.seen.len() - i,
        {
            if self.seen[i].0 == id.0 {
                assert(self.seen@[i as int] == id);
                return false;
            }
            i = i + 1;
        }
        self.seen.push(id);
        true
    }

    /// Whether another candidate fits under the node limit.
    pub fn has_room(&self) -> (r: bool)
        ensures
            r == (self.candidates.len() < self.max_nodes),
    {
        self.candidates.len() < self.max_nodes
    }

    /// Adds a candidate.
    pub fn add(&mut self, c: ContextCandidate)
        ensures
            final(self).candidates@ == old(self).candidates@.push(c),
            final(self).seen == old(self).seen,
            final(self).max_nodes == old(self).max_nodes,
    {
        self.candidates.push(c);
    }
}

/// How many of `n` ranked candidates are roots: the first three.
pub open spec fn root_count(n: nat) -> nat {
    if n < 3 {
        n
    } else {
        3
    }
}

/// The candidates by decreasing score, equal scores keeping their order, cut to
/// the node limit.
pub open spec fn ranked_hits(cs: Seq<ContextCandidate>, max_nodes: nat) -> Seq<ContextCandidate> {
    let sorted = permuted(cs, desc_order(score_keys(cs)));
    if sorted.len() > max_nodes {
        sorted.take(max_nodes as int)
    } else {
        sorted
    }
}

/// Ranks the candidates (see `ranked_hits`) and splits them into the roots' objects,
/// the root candidates (the first three) and the neighbour candidates (the rest).
pub fn rank_hits(candidates: Vec<ContextCandidate>, max_nodes: usize) -> (r: (
    Vec<LanguageObject>,
    Vec<ContextCandidate>,
    Vec<ContextCandidate>,
))
    ensures
        ({
            let ranked = ranked_hits(candidates@, max_nodes as nat);
            let k = root_count(ranked.len()) as int;
            &&& r.1@ == ranked.take(k)
            &&& r.2@ == ranked.skip(k)
            &&& r.0@ == ranked.take(k).map_values(|c: ContextCandidate| c.node)
        }),
{
    let mut keys: Vec<(i64, usize)> = Vec::new();
    let mut k: usize = 0;
    while k < candidates.len()
        invariant
            k <= candidates.len(),
            keys@ == score_keys(candidates@.take(k as int)),
        decreases candidates.len() - k,
    {
        keys.push((candidates[k].combined_score, 0));
        k = k + 1;
        assert(keys@ =~= score_keys(candidates@.take(k as int)));
    }
    assert(candidates@.take(candidates.len() as int) =~= candidates@);
    let ord = order_by_key_desc(&keys);
    let ghost sorted = permuted(candidates@, ord@);
    let ghost ranked = ranked_hits(candidates@, max_nodes as nat);
    let n = if ord.len() > max_nodes {
        max_nodes
    } else {
        ord.len()
    };
    assert(ranked =~= sorted.take(n as int));
    let nr: usize = if n < 3 {
        n
    } else {
        3
    };
    let mut roots: Vec<LanguageObject> = Vec::new();
    let mut rc: Vec<ContextCandidate> = Vec::new();
    let mut nc: Vec<ContextCandidate> = Vec::new();
    let mut t: usize = 0;
    while t < n
        invariant
            t <= n <= ord.len(),
            nr <= n,
            nr == root_count(n as nat),
            ord.len() == candidates.len(),
            forall|q: int| 0 <= q < ord.len() ==> #[trigger] ord@[q] < candidates.len(),
            sorted == permuted(candidates@, ord@),
            rc@ == sorted.take(if t < nr { t as int } else { nr as int }),
            roots@ == sorted.take(if t < nr { t as int } else { nr as int }).map_values(
                |c: ContextCandidate| c.node,
            ),
            nc@ == (if t <= nr { Seq::empty() } else { sorted.subrange(nr as int, t as int) }),
        decreases n - t,
    {
        let c = copy_candidate(&candidates[ord[t]]);
        assert(c == sorted[t as int]);
        if t < nr {
            roots.push(copy_object(&c.node));
            rc.push(c);
            assert(rc@ =~= sorted.take(t + 1));
            assert(roots@ =~= sorted.take(t + 1).map_values(|c: ContextCandidate| c.node));
        } else {
            nc.push(c);
            assert(nc@ =~= sorted.subrange(nr as int, t + 1));
        }
        t = t + 1;
    }
    assert(ranked.take(nr as int) =~= sorted.take(nr as int));
    assert(ranked.skip(nr as int) =~= (if n <= nr { Seq::empty() } else { sorted.subrange(nr as int, n as int) }));
    (roots, rc, nc)
}

/// The token budget for packing hits: the effective budget, at least 100.
pub open spec fn hits_budget(b: ContextBudget) -> nat {
    if effective_budget_of(b) < 100 {
        100
    } else {
        effective_budget_of(b)
    }
}

/// The token budget for packing hits (see `hits_budget`).
pub fn hits_token_budget(budget: &ContextBudget) -> (r: usize)
    requires
        budget.model_context_window is Some ==> budget.reserve_output_tokens
            + budget.reserve_instruction_tokens <= usize::MAX,
    ensures
        r == hits_budget(*budget),
{
    let e = budget.effective_budget();
    if e < 100 {
        100
    } else {
        e
    }
}

/// The warning given when a search finds nothing.
pub open spec fn no_hits_message() -> Seq<char> {
    "No hybrid search hits; try a different query or rebuild_index with embeddings."@
}

/// The pack returned when a search finds nothing: empty, with the effective
/// budget, and a warning.
pub fn empty_hits_pack(query: &str, mode: GraphContextMode, token_budget: usize) -> (p: ContextPack)
    ensures
        p.query@ == query@,
        p.mode == mode,
        p.token_budget == token_budget,
        p.requested_token_budget is None,
        p.effective_token_budget == Some(token_budget),
        p.estimated_tokens == 0,
        p.roots@.len() == 0 && p.nodes@.len() == 0 && p.edges@.len() == 0,
        p.snippets@.len() == 0 && p.sections@.len() == 0 && p.omitted@.len() == 0,
        p.diagnostics@.len() == 1,
        p.diagnostics@[0].severity@ == "warning"@,
        p.diagnostics@[0].message@ == no_hits_message(),
{
    let mut diagnostics: Vec<GraphContextDiagnostic> = Vec::new();
    diagnostics.push(
        GraphContextDiagnostic {
            severity: string_from_chars(&chars_of("warning")),
            message: string_from_chars(
                &chars_of("No hybrid search hits; try a different query or rebuild_index with embeddings."),
            ),
        },
    );
    ContextPack {
        query: string_from_chars(&chars_of(query)),
        mode,
        token_budget,
        requested_token_budget: None,
        effective_token_budget: Some(token_budget),
        estimated_tokens: 0,
        roots: Vec::new(),
        nodes: Vec::new(),
        edges: Vec::new(),
        snippets: Vec::new(),
        sections: Vec::new(),
        omitted: Vec::new(),
        diagnostics,
    }
}

} // verus!
