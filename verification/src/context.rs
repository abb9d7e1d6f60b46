//! Types of budget-aware context retrieval: budgets, options, candidates and packs.
use vstd::prelude::*;
use crate::model::{
    EdgeDirection, EdgeKind, GraphContextDiagnostic, GraphContextEdge, GraphContextMode,
    LanguageObject, SourceRange, SymbolId, copy_context_edge, copy_object,
};
use crate::strings::{str_eq};
use crate::unicode::{lowercase, to_lower};

verus! {

#[derive(Debug, Clone, Copy, PartialEq, Eq, Structural)]
pub enum DepthLimit {
    Fixed(usize),
    Auto,
}

#[derive(Debug, Clone, Copy, PartialEq, Eq, Structural)]
pub enum RankingMode {
    Graph,
    Lexical,
    Hybrid,
}

#[derive(Debug, Clone, Copy, PartialEq, Eq, Structural)]
pub enum ContextPackingMode {
    Frontloaded,
    Sandwich,
    Balanced,
}

#[derive(Debug, Clone, Copy, PartialEq, Eq, Structural)]
pub enum ContextSectionKind {
    Summary,
    Root,
    DirectRelationships,
    KeyNeighbors,
    Snippets,
    OmittedSummary,
    Diagnostics,
}

#[derive(Debug, Clone)]
pub struct ContextSection {
    pub kind: ContextSectionKind,
    pub text: String,
    pub estimated_tokens: usize,
}

/// A symbol considered for inclusion in a context pack. Scores are kept as
/// integer keys that order candidates exactly as their scores do.
#[derive(Debug, Clone)]
pub struct ContextCandidate {
    pub node: LanguageObject,
    pub distance: usize,
    pub direction: EdgeDirection,
    pub via_edge: Option<GraphContextEdge>,
    pub file_path: String,
    pub range: SourceRange,
    pub graph_score: i64,
    pub lexical_score: i64,
    pub combined_score: i64,
    pub estimated_tokens: usize,
    pub reason: String,
}

/// A candidate left out of a pack, with the reason.
#[derive(Debug, Clone)]
pub struct OmittedContext {
    pub name: String,
    pub qualified_name: String,
    pub file_path: String,
    pub score: i64,
    pub reason: String,
}

/// The source text included for one candidate.
#[derive(Debug, Clone)]
pub struct ContextSnippet {
    pub file_path: String,
    pub range: SourceRange,
    pub symbol_id: Option<SymbolId>,
    pub text: String,
    pub estimated_tokens: usize,
    pub relevance: i64,
    pub reason: String,
}

/// The packed result of a context query.
#[derive(Debug, Clone)]
pub struct ContextPack {
    pub query: String,
    pub mode: GraphContextMode,
    pub token_budget: usize,
    pub requested_token_budget: Option<usize>,
    pub effective_token_budget: Option<usize>,
    pub estimated_tokens: usize,
    pub roots: Vec<LanguageObject>,
    pub nodes: Vec<LanguageObject>,
    pub edges: Vec<GraphContextEdge>,
    pub snippets: Vec<ContextSnippet>,
    pub sections: Vec<ContextSection>,
    pub omitted: Vec<OmittedContext>,
    pub diagnostics: Vec<GraphContextDiagnostic>,
}

#[derive(Debug, Clone, Copy)]
pub struct ContextBudget {
    pub token_budget: usize,
    pub model_context_window: Option<usize>,
    pub reserve_output_tokens: usize,
    pub reserve_instruction_tokens: usize,
}

/// The budget actually usable: the requested budget, capped by what the model's
/// context window leaves after the reserved output and instruction tokens.
pub open spec fn effective_budget_of(b: ContextBudget) -> nat {
    let cap: int = match b.model_context_window {
        Some(w) => {
            let reserved = b.reserve_output_tokens + b.reserve_instruction_tokens;
            if w > reserved {
                w - reserved
            } else {
                0
            }
        },
        None => usize::MAX as int,
    };
    if b.token_budget < cap {
        b.token_budget as nat
    } else {
        cap as nat
    }
}

/// The usable budget never exceeds what was asked for, and with a context window
/// it leaves room for the reserved output and instruction tokens.
pub proof fn law_effective_budget_bounds(b: ContextBudget)
    ensures
        effective_budget_of(b) <= b.token_budget,
        b.model_context_window matches Some(w) ==> effective_budget_of(b) + b.reserve_output_tokens
            + b.reserve_instruction_tokens <= w || effective_budget_of(b) == 0,
{
}

impl ContextBudget {
    pub fn effective_budget(&self) -> (r: usize)
        requires
            self.model_context_window is Some ==> self.reserve_output_tokens
                + self.reserve_instruction_tokens <= usize::MAX,
        ensures
            r == effective_budget_of(*self),
    {
        let max_from_window = match self.model_context_window {
            Some(w) => {
                let reserved = self.reserve_output_tokens + self.reserve_instruction_tokens;
                if w > reserved {
                    w - reserved
                } else {
                    0
                }
            },
            None => usize::MAX,
        };
        if self.token_budget < max_from_window {
            self.token_budget
        } else {
            max_from_window
        }
    }
}

/// Estimates how many LLM tokens a text costs.
pub trait TokenEstimator {
    fn estimate_tokens(&self, text: &str) -> usize;
}

/// About one token per four characters, rounded up.
pub open spec fn approx_tokens(chars: nat) -> nat {
    if chars == 0 {
        0
    } else {
        ((chars + 3) / 4) as nat
    }
}

pub struct ApproxTokenEstimator;

impl ApproxTokenEstimator {
    /// `approx_tokens` of a character count.
    pub fn tokens_for_len(n: usize) -> (r: usize)
        ensures
            r == approx_tokens(n as nat),
    {
        if n == 0 {
            0
        } else {
            let q = n / 4;
            if n % 4 == 0 {
                q
            } else {
                q + 1
            }
        }
    }
}

impl TokenEstimator for ApproxTokenEstimator {
    fn estimate_tokens(&self, text: &str) -> (r: usize)
        ensures
            r == approx_tokens(text@.len()),
    {
        let n = text.unicode_len();
        ApproxTokenEstimator::tokens_for_len(n)
    }
}

pub struct ContextQuery {
    pub query_string: String,
    pub roots: Vec<LanguageObject>,
    pub include_tests: bool,
}

#[derive(Debug, Clone)]
pub struct ContextRetrievalOptions {
    pub mode: GraphContextMode,
    pub depth_limit: DepthLimit,
    pub max_nodes: usize,
    pub max_files: usize,
    pub ranking_mode: RankingMode,
    pub packing_mode: ContextPackingMode,
    pub with_snippets: bool,
    pub context_lines: usize,
    pub include_tests: bool,
    pub edge_kinds: Vec<EdgeKind>,
    pub include_unresolved: bool,
    pub explain_ranking: bool,
}

#[derive(Debug, Clone, Copy, PartialEq, Eq, Structural)]
pub enum RetrievalStrategy {
    Hybrid,
    Graph,
    Lexical,
    Dense,
}

/// Case-insensitive strategy names; anything unknown means `Hybrid`.
pub open spec fn strategy_of(s: Seq<char>) -> RetrievalStrategy {
    let l = lowercase(s);
    if l == "graph"@ {
        RetrievalStrategy::Graph
    } else if l == "lexical"@ {
        RetrievalStrategy::Lexical
    } else if l == "dense"@ {
        RetrievalStrategy::Dense
    } else {
        RetrievalStrategy::Hybrid
    }
}

impl RetrievalStrategy {
    pub fn from_str(s: &str) -> (r: RetrievalStrategy)
        ensures
            r == strategy_of(s@),
    {
        let l = to_lower(s);
        let l = l.as_str();
        if str_eq(l, "graph") {
            RetrievalStrategy::Graph
        } else if str_eq(l, "lexical") {
            RetrievalStrategy::Lexical
        } else if str_eq(l, "dense") {
            RetrievalStrategy::Dense
        } else {
            RetrievalStrategy::Hybrid
        }
    }
}

#[derive(Debug, Clone)]
pub struct HybridRetrievalOptions {
    pub strategy: RetrievalStrategy,
    pub graph_options: ContextRetrievalOptions,
    pub hybrid_top_k: usize,
    pub rrf_k: usize,
    pub lexical_top_k: usize,
    pub dense_top_k: usize,
    pub enable_rerank: bool,
    pub rerank_top_k: usize,
    pub expansion_max_children: usize,
}

impl Default for HybridRetrievalOptions {
    /// The defaults: hybrid search over a neighbourhood with automatic depth,
    /// up to 200 nodes from 50 files, sandwich packing with 3 context lines.
    fn default() -> (o: HybridRetrievalOptions)
        ensures
            o.strategy == RetrievalStrategy::Hybrid,
            o.graph_options.mode == GraphContextMode::Neighborhood,
            o.graph_options.depth_limit == DepthLimit::Auto,
            o.graph_options.max_nodes == 200,
            o.graph_options.max_files == 50,
            o.graph_options.ranking_mode == RankingMode::Hybrid,
            o.graph_options.packing_mode == ContextPackingMode::Sandwich,
            o.graph_options.with_snippets,
            o.graph_options.context_lines == 3,
            !o.graph_options.include_tests,
            o.graph_options.edge_kinds@.len() == 0,
            !o.graph_options.include_unresolved,
            !o.graph_options.explain_ranking,
            o.hybrid_top_k == 30,
            o.rrf_k == 60,
            o.lexical_top_k == 50,
            o.dense_top_k == 50,
            !o.enable_rerank,
            o.rerank_top_k == 20,
            o.expansion_max_children == 5,
    {
        HybridRetrievalOptions {
            strategy: RetrievalStrategy::Hybrid,
            graph_options: ContextRetrievalOptions {
                mode: GraphContextMode::Neighborhood,
                depth_limit: DepthLimit::Auto,
                max_nodes: 200,
                max_files: 50,
                ranking_mode: RankingMode::Hybrid,
                packing_mode: ContextPackingMode::Sandwich,
                with_snippets: true,
                context_lines: 3,
                include_tests: false,
                edge_kinds: Vec::new(),
                include_unresolved: false,
                explain_ranking: false,
            },
            hybrid_top_k: 30,
            rrf_k: 60,
            lexical_top_k: 50,
            dense_top_k: 50,
            enable_rerank: false,
            rerank_top_k: 20,
            expansion_max_children: 5,
        }
    }
}

/// A copy of a candidate, equal to it.
pub fn copy_candidate(c: &ContextCandidate) -> (r: ContextCandidate)
    ensures
        r == *c,
{
    ContextCandidate {
        node: copy_object(&c.node),
        distance: c.distance,
        direction: c.direction,
        via_edge: match &c.via_edge {
            Some(e) => Some(copy_context_edge(e)),
            None => None,
        },
        file_path: c.file_path.clone(),
        range: c.range,
        graph_score: c.graph_score,
        lexical_score: c.lexical_score,
        combined_score: c.combined_score,
        estimated_tokens: c.estimated_tokens,
        reason: c.reason.clone(),
    }
}

/// A copy of a snippet, equal to it.
pub fn copy_snippet(s: &ContextSnippet) -> (r: ContextSnippet)
    ensures
        r == *s,
{
    ContextSnippet {
        file_path: s.file_path.clone(),
        range: s.range,
        symbol_id: s.symbol_id,
        text: s.text.clone(),
        estimated_tokens: s.estimated_tokens,
        relevance: s.relevance,
        reason: s.reason.clone(),
    }
}

} // verus!
