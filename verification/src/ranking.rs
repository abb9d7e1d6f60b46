//! Ranking signals for context candidates. The graph ranker's score is a sum of
//! terms that are all multiples of one tenth; they are computed here exactly, in
//! tenths. The lexical ranker's term matching and document frequencies are
//! computed here as well; the floating-point weighting lives with the callers.
use vstd::prelude::*;
use crate::context::{ContextCandidate, ContextQuery, copy_candidate};
use crate::retrieval::permuted;
use crate::roots::byte_len;
use crate::sorting::{desc_order, order_by_key_desc};
use crate::model::{LanguageObject};
use crate::paths::{parents_equal, paths_equal, same_parent, same_path};
use crate::strings::{chars_contains, chars_of, chars_starts_with, contains_seq, is_prefix, str_eq};
use crate::text::{is_subseq, is_subsequence, string_views};
use crate::unicode::{lowercase, to_lower};

verus! {

pub struct GraphRanker;

pub struct LexicalRanker;

/// The weight of a candidate's distance from the roots, in tenths.
pub open spec fn distance_tenths(distance: nat) -> int {
    if distance == 0 {
        100
    } else if distance == 1 {
        60
    } else if distance == 2 {
        30
    } else if distance == 3 {
        10
    } else {
        0
    }
}

/// The weight of the confidence of the edge a candidate was reached by, in tenths.
pub open spec fn confidence_tenths(conf: Option<Seq<char>>) -> int {
    match conf {
        Some(s) => if s == "LspExact"@ || s == "Exact"@ {
            20
        } else if s == "Syntax"@ || s == "Local"@ {
            12
        } else if s == "Heuristic"@ || s == "NameOnly"@ || s == "Ambiguous"@ {
            5
        } else if s == "Unresolved"@ {
            -10
        } else {
            0
        },
        None => 0,
    }
}

pub open spec fn same_file_as_root(roots: Seq<LanguageObject>, path: Seq<char>) -> bool {
    exists|i: int| 0 <= i < roots.len() && same_path(#[trigger] roots[i].file_path@, path)
}

pub open spec fn same_dir_as_root(roots: Seq<LanguageObject>, path: Seq<char>) -> bool {
    exists|i: int| 0 <= i < roots.len() && same_parent(#[trigger] roots[i].file_path@, path)
}

/// Same file as a root: two points; else same directory as a root: one point.
pub open spec fn locality_tenths(roots: Seq<LanguageObject>, path: Seq<char>) -> int {
    if same_file_as_root(roots, path) {
        20
    } else if same_dir_as_root(roots, path) {
        10
    } else {
        0
    }
}

pub open spec fn mentions(s: Seq<char>, word: Seq<char>) -> bool {
    contains_seq(lowercase(s), word)
}

/// A candidate looks like test code when its name, qualified name or path mentions "test".
pub open spec fn looks_like_test(c: ContextCandidate) -> bool {
    mentions(c.node.name@, "test"@) || mentions(c.node.qualified_name@, "test"@) || mentions(
        c.file_path@,
        "test"@,
    )
}

/// A path looks vendored or generated when it mentions vendor, generated, target or node_modules.
pub open spec fn looks_external(path: Seq<char>) -> bool {
    mentions(path, "vendor"@) || mentions(path, "generated"@) || mentions(path, "target"@)
        || mentions(path, "node_modules"@)
}

/// The five terms of a graph score, in tenths of a point.
pub struct GraphScoreTerms {
    pub distance: i64,
    pub locality: i64,
    pub confidence: i64,
    pub test_penalty: i64,
    pub vendor_penalty: i64,
}

pub open spec fn via_confidence(c: ContextCandidate) -> Option<Seq<char>> {
    match c.via_edge {
        Some(e) => match e.confidence {
            Some(s) => Some(s@),
            None => None,
        },
        None => None,
    }
}

pub open spec fn graph_terms_ok(q: ContextQuery, c: ContextCandidate, t: GraphScoreTerms) -> bool {
    &&& t.distance == distance_tenths(c.distance as nat)
    &&& t.locality == locality_tenths(q.roots@, c.file_path@)
    &&& t.confidence == confidence_tenths(via_confidence(c))
    &&& t.test_penalty == if looks_like_test(c) && !q.include_tests {
        -20int
    } else {
        0
    }
    &&& t.vendor_penalty == if looks_external(c.file_path@) {
        -40int
    } else {
        0
    }
}

pub open spec fn graph_total(t: GraphScoreTerms) -> int {
    t.distance + t.locality + t.confidence + t.test_penalty + t.vendor_penalty
}

/// The other terms of a graph score: nearness falls with distance (10, 6, 3 and
/// 1 points for distance 0 to 3, nothing further out) and never rises; vendored
/// or generated paths lose 4 points and no other path loses any; a candidate in a
/// root's file gains 2 points, one in a root's directory 1.
pub proof fn law_graph_score_terms(q: ContextQuery, c: ContextCandidate, t: GraphScoreTerms, d1: nat, d2: nat)
    requires
        graph_terms_ok(q, c, t),
    ensures
        distance_tenths(0) == 100 && distance_tenths(1) == 60 && distance_tenths(2) == 30 && distance_tenths(3) == 10,
        d2 >= 4 ==> distance_tenths(d2) == 0,
        d1 <= d2 ==> distance_tenths(d1) >= distance_tenths(d2),
        looks_external(c.file_path@) ==> t.vendor_penalty == -40,
        !looks_external(c.file_path@) ==> t.vendor_penalty == 0,
        same_file_as_root(q.roots@, c.file_path@) ==> t.locality == 20,
        !same_file_as_root(q.roots@, c.file_path@) && same_dir_as_root(q.roots@, c.file_path@) ==> t.locality == 10,
        !same_file_as_root(q.roots@, c.file_path@) && !same_dir_as_root(q.roots@, c.file_path@) ==> t.locality == 0,
{
}

/// The test penalty of a graph score: -20 tenths exactly when the candidate
/// looks like test code and the query leaves tests out, nothing otherwise; so
/// when tests are wanted no candidate is penalised as a test, and the same
/// candidate never scores lower for a query that wants tests than for one that
/// leaves them out.
pub proof fn law_test_penalty(
    q: ContextQuery,
    c: ContextCandidate,
    t: GraphScoreTerms,
    q2: ContextQuery,
    t2: GraphScoreTerms,
)
    requires
        graph_terms_ok(q, c, t),
        graph_terms_ok(q2, c, t2),
        q2.roots@ == q.roots@,
    ensures
        q.include_tests ==> t.test_penalty == 0,
        !looks_like_test(c) ==> t.test_penalty == 0,
        looks_like_test(c) && !q.include_tests ==> t.test_penalty == -20,
        q.include_tests && !q2.include_tests ==> graph_total(t) >= graph_total(t2),
        q.include_tests && !q2.include_tests && looks_like_test(c) ==> graph_total(t) == graph_total(t2) + 20,
{
}

fn lower_mentions(s: &str, word: &str) -> (r: bool)
    ensures
        r == mentions(s@, word@),
{
    let l = to_lower(s);
    let lv = chars_of(l.as_str());
    let wv = chars_of(word);
    chars_contains(&lv, &wv)
}

fn confidence_weight(conf: &str) -> (r: i64)
    ensures
        r == confidence_tenths(Some(conf@)),
{
    if str_eq(conf, "LspExact") || str_eq(conf, "Exact") {
        20
    } else if str_eq(conf, "Syntax") || str_eq(conf, "Local") {
        12
    } else if str_eq(conf, "Heuristic") || str_eq(conf, "NameOnly") || str_eq(conf, "Ambiguous") {
        5
    } else if str_eq(conf, "Unresolved") {
        -10
    } else {
        0
    }
}

impl GraphRanker {
    /// The graph score of a candidate, term by term (see `graph_terms_ok`): nearness
    /// to the roots, locality to a root's file or directory, the confidence of the
    /// edge it was reached by, and penalties for test code (unless tests are wanted)
    /// and for vendored or generated paths.
    pub fn score_terms(query: &ContextQuery, c: &ContextCandidate) -> (t: GraphScoreTerms)
        ensures
            graph_terms_ok(*query, *c, t),
    {
        let distance: i64 = if c.distance == 0 {
            100
        } else if c.distance == 1 {
            60
        } else if c.distance == 2 {
            30
        } else if c.distance == 3 {
            10
        } else {
            0
        };
        let mut same_file = false;
        let mut same_dir = false;
        let mut i: usize = 0;
        while i < query.roots.len()
            invariant
                i <= query.roots.len(),
                same_file == exists|j: int|
                    0 <= j < i && same_path(#[trigger] query.roots@[j].file_path@, c.file_path@),
                same_dir == exists|j: int|
                    0 <= j < i && same_parent(#[trigger] query.roots@[j].file_path@, c.file_path@),
            decreases query.roots.len() - i,
        {
            let r = &query.roots[i];
            if paths_equal(r.file_path.as_str(), c.file_path.as_str()) {
                same_file = true;
            }
            if parents_equal(r.file_path.as_str(), c.file_path.as_str()) {
                same_dir = true;
            }
            i = i + 1;
        }
        let locality: i64 = if same_file {
            20
        } else if same_dir {
            10
        } else {
            0
        };
        let confidence: i64 = match &c.via_edge {
            Some(e) => match &e.confidence {
                Some(s) => confidence_weight(s.as_str()),
                None => 0,
            },
            None => 0,
        };
        let is_test = lower_mentions(c.node.name.as_str(), "test") || lower_mentions(
            c.node.qualified_name.as_str(),
            "test",
        ) || lower_mentions(c.file_path.as_str(), "test");
        let test_penalty: i64 = if is_test && !query.include_tests {
            -20
        } else {
            0
        };
        let path = c.file_path.as_str();
        let external = lower_mentions(path, "vendor") || lower_mentions(path, "generated")
            || lower_mentions(path, "target") || lower_mentions(path, "node_modules");
        let vendor_penalty: i64 = if external {
            -40
        } else {
            0
        };
        GraphScoreTerms { distance, locality, confidence, test_penalty, vendor_penalty }
    }
}

/// How a query term matches a token of a candidate.
#[derive(Debug, Clone, Copy, PartialEq, Eq, Structural)]
pub enum TermMatch {
    Exact,
    Prefix,
    Subsequence,
    NoMatch,
}

/// Equal; else one is a prefix of the other; else the query is a subsequence of the token.
pub open spec fn term_match_of(q: Seq<char>, t: Seq<char>) -> TermMatch {
    if t == q {
        TermMatch::Exact
    } else if is_prefix(q, t) || is_prefix(t, q) {
        TermMatch::Prefix
    } else if is_subseq(q, t) {
        TermMatch::Subsequence
    } else {
        TermMatch::NoMatch
    }
}

impl LexicalRanker {
    /// How the query term `q` matches the candidate token `t` (see `term_match_of`).
    pub fn term_match(q: &str, t: &str) -> (m: TermMatch)
        ensures
            m == term_match_of(q@, t@),
    {
        let qv = chars_of(q);
        let tv = chars_of(t);
        if str_eq(t, q) {
            TermMatch::Exact
        } else if chars_starts_with(&tv, &qv) || chars_starts_with(&qv, &tv) {
            TermMatch::Prefix
        } else if is_subsequence(q, t) {
            TermMatch::Subsequence
        } else {
            TermMatch::NoMatch
        }
    }

    /// For each query term, in how many candidates' token sets it occurs.
    pub fn document_frequencies(query_terms: &Vec<String>, docs: &Vec<Vec<String>>) -> (df: Vec<
        usize,
    >)
        requires
            docs.len() <= usize::MAX,
        ensures
            df.len() == query_terms.len(),
            forall|k: int|
                0 <= k < query_terms.len() ==> df@[k] == docs@.filter(
                    |d: Vec<String>| string_views(d@).contains(query_terms@[k]@),
                ).len(),
    {
        let mut df: Vec<usize> = Vec::new();
        let mut k: usize = 0;
        while k < query_terms.len()
            invariant
                k <= query_terms.len(),
                df.len() == k,
                forall|m: int|
                    0 <= m < k ==> df@[m] == docs@.filter(
                        |d: Vec<String>| string_views(d@).contains(query_terms@[m]@),
                    ).len(),
            decreases query_terms.len() - k,
        {
            let ghost pred = |d: Vec<String>| string_views(d@).contains(query_terms@[k as int]@);
            let mut count: usize = 0;
            let mut j: usize = 0;
            while j < docs.len()
                invariant
                    j <= docs.len(),
                    k < query_terms.len(),
                    pred == |d: Vec<String>| string_views(d@).contains(query_terms@[k as int]@),
                    count == docs@.subrange(0, j as int).filter(pred).len(),
                    count <= j,
                decreases docs.len() - j,
            {
                let found = Self::doc_has(&docs[j], &query_terms[k]);
                proof {
                    reveal_with_fuel(Seq::filter, 1);
                    assert(docs@.subrange(0, j + 1).drop_last() =~= docs@.subrange(0, j as int));
                }
                if found {
                    count = count + 1;
                }
                j = j + 1;
            }
            assert(docs@.subrange(0, docs.len() as int) =~= docs@);
            df.push(count);
            k = k + 1;
        }
        df
    }

    fn doc_has(doc: &Vec<String>, term: &String) -> (r: bool)
        ensures
            r == string_views(doc@).contains(term@),
    {
        let mut i: usize = 0;
        while i < doc.len()
            invariant
                i <= doc.len(),
                forall|j: int| 0 <= j < i ==> string_views(doc@)[j] != term@,
            decreases doc.len() - i,
        {
            if doc[i] == *term {
                assert(string_views(doc@)[i as int] == term@);
                return true;
            }
            i = i + 1;
        }
        false
    }
}

/// The ranking key of each candidate: its combined score, then the byte length
/// of its qualified name.
pub open spec fn rank_keys(cs: Seq<ContextCandidate>) -> Seq<(i64, usize)> {
    cs.map_values(|c: ContextCandidate| (c.combined_score, byte_len(c.node.qualified_name@)))
}

/// Orders scored candidates as every ranker does: by decreasing combined score,
/// then shorter qualified name first, otherwise keeping their order.
pub fn order_ranked(cs: Vec<ContextCandidate>) -> (r: Vec<ContextCandidate>)
    ensures
        r@ == permuted(cs@, desc_order(rank_keys(cs@))),
{
    let mut keys: Vec<(i64, usize)> = Vec::new();
    let mut k: usize = 0;
    while k < cs.len()
        invariant
            k <= cs.len(),
            keys@ == rank_keys(cs@.take(k as int)),
        decreases cs.len() - k,
    {
        keys.push((cs[k].combined_score, cs[k].node.qualified_name.as_str().len()));
        k = k + 1;
        assert(keys@ =~= rank_keys(cs@.take(k as int)));
    }
    assert(cs@.take(cs.len() as int) =~= cs@);
    let ord = order_by_key_desc(&keys);
    let mut out: Vec<ContextCandidate> = Vec::new();
    let mut t: usize = 0;
    while t < ord.len()
        invariant
            t <= ord.len(),
            ord.len() == cs.len(),
            forall|q: int| 0 <= q < ord.len() ==> #[trigger] ord@[q] < cs.len(),
            out@ == permuted(cs@, ord@.take(t as int)),
        decreases ord.len() - t,
    {
        out.push(copy_candidate(&cs[ord[t]]));
        t = t + 1;
        assert(out@ =~= permuted(cs@, ord@.take(t as int)));
    }
    assert(ord@.take(ord.len() as int) =~= ord@);
    out
}

} // verus!
