//! Packing ranked candidates into a token budget, and laying the pack out in sections.
use vstd::prelude::*;
use crate::context::{
    ApproxTokenEstimator, ContextCandidate, ContextSnippet, OmittedContext, TokenEstimator,
    approx_tokens,
};
use crate::model::LanguageObject;
use crate::paths::{paths_equal, same_path};

verus! {

pub struct PackedSnippets {
    pub included: Vec<(ContextCandidate, ContextSnippet)>,
    pub omitted: Vec<OmittedContext>,
}

/// The snippet recorded for an included candidate.
pub open spec fn snippet_ok(c: ContextCandidate, s: ContextSnippet, text: Seq<char>) -> bool {
    &&& s.file_path@ == c.file_path@
    &&& s.range == c.range
    &&& s.symbol_id == Some(c.node.id)
    &&& s.text@ == text
    &&& s.estimated_tokens == approx_tokens(text.len())
    &&& s.relevance == c.combined_score
    &&& s.reason@ == c.reason@
}

/// The included candidate is the given one with its token estimate filled in.
pub open spec fn included_ok(orig: ContextCandidate, c: ContextCandidate, text: Seq<char>) -> bool {
    &&& c == ContextCandidate { estimated_tokens: approx_tokens(text.len()) as usize, ..orig }
}

/// The record of an omitted candidate.
pub open spec fn omitted_ok(c: ContextCandidate, o: OmittedContext, reason: Seq<char>) -> bool {
    &&& o.name@ == c.node.name@
    &&& o.qualified_name@ == c.node.qualified_name@
    &&& o.file_path@ == c.file_path@
    &&& o.score == c.combined_score
    &&& o.reason@ == reason
}

/// Some listed file is the same path as `p`.
pub open spec fn file_listed(files: Seq<Seq<char>>, p: Seq<char>) -> bool {
    exists|i: int| 0 <= i < files.len() && same_path(#[trigger] files[i], p)
}

/// Adds `p` to the listed files unless it is already there.
pub open spec fn add_file(files: Seq<Seq<char>>, p: Seq<char>) -> Seq<Seq<char>> {
    if file_listed(files, p) {
        files
    } else {
        files.push(p)
    }
}

pub open spec fn files_of_roots(roots: Seq<LanguageObject>) -> Seq<Seq<char>>
    decreases roots.len(),
{
    if roots.len() == 0 {
        Seq::empty()
    } else {
        add_file(files_of_roots(roots.drop_last()), roots.last().file_path@)
    }
}

pub open spec fn sat_sub(a: nat, b: nat) -> nat {
    if a >= b {
        (a - b) as nat
    } else {
        0
    }
}

/// The budget left after all roots are included.
pub open spec fn budget_after_roots(budget: nat, texts: Seq<String>) -> nat
    decreases texts.len(),
{
    if texts.len() == 0 {
        budget
    } else {
        sat_sub(budget_after_roots(budget, texts.drop_last()), approx_tokens(texts.last()@.len()))
    }
}

/// What happens to one neighbour, given how many candidates are included so far,
/// the listed files and the budget left: 0 included; 1 omitted for the node limit;
/// 2 omitted for the file limit; 3 omitted for the token budget.
pub open spec fn neighbor_fate(
    count: nat,
    files: Seq<Seq<char>>,
    budget: nat,
    c: ContextCandidate,
    text: Seq<char>,
    max_nodes: nat,
    max_files: nat,
) -> nat {
    if count >= max_nodes {
        1
    } else if !file_listed(files, c.file_path@) && files.len() >= max_files {
        2
    } else if approx_tokens(text.len()) > budget {
        3
    } else {
        0
    }
}

/// The state of packing after the first `k` neighbours: number included, listed
/// files, budget left.
pub open spec fn pack_state(
    roots: Seq<LanguageObject>,
    root_texts: Seq<String>,
    neighbors: Seq<ContextCandidate>,
    texts: Seq<String>,
    raw_budget: nat,
    max_nodes: nat,
    max_files: nat,
    k: nat,
) -> (nat, Seq<Seq<char>>, nat)
    decreases k,
{
    if k == 0 {
        (root_texts.len(), files_of_roots(roots), budget_after_roots(raw_budget, root_texts))
    } else {
        let (count, files, budget) = pack_state(
            roots,
            root_texts,
            neighbors,
            texts,
            raw_budget,
            max_nodes,
            max_files,
            (k - 1) as nat,
        );
        let c = neighbors[k - 1];
        let t = texts[k - 1]@;
        if neighbor_fate(count, files, budget, c, t, max_nodes, max_files) == 0 {
            (count + 1, add_file(files, c.file_path@), (budget - approx_tokens(t.len())) as nat)
        } else {
            (count, files, budget)
        }
    }
}

pub open spec fn fate_reason(f: nat) -> Seq<char> {
    if f == 1 {
        "Truncated: max_nodes limit reached"@
    } else if f == 2 {
        "Truncated: max_files limit reached"@
    } else {
        "Truncated: token budget exceeded"@
    }
}

fn listed(files: &Vec<String>, p: &str) -> (r: bool)
    ensures
        r == file_listed(files@.map_values(|s: String| s@), p@),
{
    let ghost fv = files@.map_values(|s: String| s@);
    let mut i: usize = 0;
    while i < files.len()
        invariant
            i <= files.len(),
            fv == files@.map_values(|s: String| s@),
            forall|j: int| 0 <= j < i ==> !same_path(#[trigger] fv[j], p@),
        decreases files.len() - i,
    {
        if paths_equal(files[i].as_str(), p) {
            assert(same_path(fv[i as int], p@));
            return true;
        }
        i = i + 1;
    }
    false
}

fn add_listed(files: &mut Vec<String>, p: &String)
    ensures
        final(files)@.map_values(|s: String| s@) == add_file(old(files)@.map_values(|s: String| s@), p@),
{
    if !listed(files, p.as_str()) {
        let ghost f0 = files@;
        files.push(p.clone());
        assert(files@.map_values(|s: String| s@) =~= f0.map_values(|s: String| s@).push(p@));
    }
}

fn make_snippet(c: &ContextCandidate, text: String, tokens: usize) -> (s: ContextSnippet)
    requires
        tokens == approx_tokens(text@.len()),
    ensures
        snippet_ok(*c, s, text@),
{
    ContextSnippet {
        file_path: c.file_path.clone(),
        range: c.range,
        symbol_id: Some(c.node.id),
        text,
        estimated_tokens: tokens,
        relevance: c.combined_score,
        reason: c.reason.clone(),
    }
}

fn make_omitted(c: &ContextCandidate, reason: &str) -> (o: OmittedContext)
    ensures
        omitted_ok(*c, o, reason@),
{
    OmittedContext {
        name: c.node.name.clone(),
        qualified_name: c.node.qualified_name.clone(),
        file_path: c.file_path.clone(),
        score: c.combined_score,
        reason: String::from_str(reason),
    }
}

/// `p` packs the candidates as `pack_snippets` says it does: every root
/// candidate is included first, in order; each neighbour is included or omitted
/// as `neighbor_placement` places it; and as many are included as the packing
/// state counts.
pub open spec fn packed_ok(
    p: PackedSnippets,
    roots: Seq<LanguageObject>,
    roots_cand: Seq<ContextCandidate>,
    root_texts: Seq<String>,
    neighbors: Seq<ContextCandidate>,
    neighbor_texts: Seq<String>,
    raw_budget: nat,
    max_nodes: nat,
    max_files: nat,
) -> bool {
    let count = pack_state(
        roots,
        root_texts,
        neighbors,
        neighbor_texts,
        raw_budget,
        max_nodes,
        max_files,
        neighbors.len(),
    ).0;
    &&& p.included@.len() == count
    &&& count + p.omitted@.len() == roots_cand.len() + neighbors.len()
    &&& forall|i: int|
        0 <= i < roots_cand.len() ==> {
            &&& included_ok(roots_cand[i], #[trigger] p.included@[i].0, root_texts[i]@)
            &&& snippet_ok(roots_cand[i], p.included@[i].1, root_texts[i]@)
        }
    &&& exists|pos: Seq<int>| #[trigger] neighbor_placement(
        roots_cand.len(),
        roots,
        root_texts,
        neighbors,
        neighbor_texts,
        raw_budget,
        max_nodes,
        max_files,
        p.included@,
        p.omitted@,
        pos,
    )
}

/// Packs candidates into the token budget. Every root is included, and its tokens
/// come off the budget (never below zero). Then each neighbour, in order, is omitted
/// when the node limit is reached, or when it would open a new file beyond the file
/// limit, or when its tokens exceed what is left; otherwise it is included and its
/// tokens come off the budget. `root_texts` and `neighbor_texts` hold the snippet
/// text of each candidate.
pub fn pack_snippets(
    roots: &[LanguageObject],
    roots_cand: Vec<ContextCandidate>,
    neighbors_cand: Vec<ContextCandidate>,
    root_texts: Vec<String>,
    neighbor_texts: Vec<String>,
    raw_budget: usize,
    max_nodes: usize,
    max_files: usize,
) -> (p: PackedSnippets)
    requires
        root_texts.len() == roots_cand.len(),
        neighbor_texts.len() == neighbors_cand.len(),
    ensures
        ({
            let (count, files, budget) = pack_state(
                roots@,
                root_texts@,
                neighbors_cand@,
                neighbor_texts@,
                raw_budget as nat,
                max_nodes as nat,
                max_files as nat,
                neighbors_cand.len() as nat,
            );
            &&& p.included.len() == count
            &&& count + p.omitted.len() == roots_cand.len() + neighbors_cand.len()
        }),
        forall|i: int|
            0 <= i < roots_cand.len() ==> {
                &&& included_ok(roots_cand@[i], #[trigger] p.included@[i].0, root_texts@[i]@)
                &&& snippet_ok(roots_cand@[i], p.included@[i].1, root_texts@[i]@)
            },
        exists|pos: Seq<int>| #[trigger] neighbor_placement(
            roots_cand.len() as nat,
            roots@,
            root_texts@,
            neighbors_cand@,
            neighbor_texts@,
            raw_budget as nat,
            max_nodes as nat,
            max_files as nat,
            p.included@,
            p.omitted@,
            pos,
        ),
{
    let ghost rc0 = roots_cand@;
    let ghost rt0 = root_texts@;
    let ghost nc0 = neighbors_cand@;
    let ghost nt0 = neighbor_texts@;
    let mut included: Vec<(ContextCandidate, ContextSnippet)> = Vec::new();
    let mut omitted: Vec<OmittedContext> = Vec::new();
    let mut current_budget = raw_budget;
    let mut rc = roots_cand;
    let mut rt = root_texts;
    let n_roots = rc.len();
    let mut i: usize = 0;
    while i < n_roots
        invariant
            n_roots == rc0.len() == rt0.len(),
            i <= n_roots,
            rc@ == rc0.subrange(i as int, n_roots as int),
            rt@ == rt0.subrange(i as int, n_roots as int),
            included.len() == i,
            omitted.len() == 0,
            current_budget == budget_after_roots(raw_budget as nat, rt0.subrange(0, i as int)),
            forall|j: int|
                0 <= j < i ==> {
                    &&& included_ok(rc0[j], #[trigger] included@[j].0, rt0[j]@)
                    &&& snippet_ok(rc0[j], included@[j].1, rt0[j]@)
                },
        decreases n_roots - i,
    {
        let mut root = rc.remove(0);
        let text = rt.remove(0);
        let tokens = ApproxTokenEstimator.estimate_tokens(text.as_str());
        root.estimated_tokens = tokens;
        current_budget = if current_budget >= tokens {
            current_budget - tokens
        } else {
            0
        };
        let snippet = make_snippet(&root, text, tokens);
        included.push((root, snippet));
        proof {
            assert(rt0.subrange(0, i + 1).drop_last() =~= rt0.subrange(0, i as int));
            assert(rc@ =~= rc0.subrange(i + 1, n_roots as int));
            assert(rt@ =~= rt0.subrange(i + 1, n_roots as int));
        }
        i = i + 1;
    }
    assert(rt0.subrange(0, n_roots as int) =~= rt0);

    let mut files: Vec<String> = Vec::new();
    let mut r: usize = 0;
    while r < roots.len()
        invariant
            r <= roots.len(),
            files@.map_values(|s: String| s@) == files_of_roots(roots@.subrange(0, r as int)),
        decreases roots.len() - r,
    {
        add_listed(&mut files, &roots[r].file_path);
        proof {
            assert(roots@.subrange(0, r + 1).drop_last() =~= roots@.subrange(0, r as int));
        }
        r = r + 1;
    }
    assert(roots@.subrange(0, roots.len() as int) =~= roots@);

    let mut nc = neighbors_cand;
    let mut nt = neighbor_texts;
    let n = nc.len();
    let ghost mut pos: Seq<int> = Seq::empty();
    let mut k: usize = 0;
    while k < n
        invariant
            n == nc0.len() == nt0.len(),
            n_roots == rc0.len() == rt0.len(),
            k <= n,
            nc@ == nc0.subrange(k as int, n as int),
            nt@ == nt0.subrange(k as int, n as int),
            ({
                let (count, fs, budget) = pack_state(
                    roots@,
                    rt0,
                    nc0,
                    nt0,
                    raw_budget as nat,
                    max_nodes as nat,
                    max_files as nat,
                    k as nat,
                );
                &&& included.len() == count
                &&& files@.map_values(|s: String| s@) == fs
                &&& current_budget == budget
            }),
            included.len() + omitted.len() == n_roots + k,
            included.len() >= n_roots,
            forall|j: int|
                0 <= j < n_roots ==> {
                    &&& included_ok(rc0[j], #[trigger] included@[j].0, rt0[j]@)
                    &&& snippet_ok(rc0[j], included@[j].1, rt0[j]@)
                },
            pos.len() == k,
            forall|kk: int|
                0 <= kk < k ==> {
                    let (count, fs, budget) = pack_state(
                        roots@,
                        rt0,
                        nc0,
                        nt0,
                        raw_budget as nat,
                        max_nodes as nat,
                        max_files as nat,
                        kk as nat,
                    );
                    let fate = neighbor_fate(count, fs, budget, nc0[kk], nt0[kk]@, max_nodes as nat, max_files as nat);
                    if fate == 0 {
                        &&& n_roots <= #[trigger] pos[kk] < included.len()
                        &&& pos[kk] == count
                        &&& included_ok(nc0[kk], included@[pos[kk]].0, nt0[kk]@)
                        &&& snippet_ok(nc0[kk], included@[pos[kk]].1, nt0[kk]@)
                    } else {
                        &&& 0 <= -pos[kk] - 1 < omitted.len()
                        &&& omitted_ok(nc0[kk], omitted@[-pos[kk] - 1], fate_reason(fate))
                    }
                },
            forall|a: int, b: int| 0 <= a < b < k && pos[a] >= 0 && pos[b] >= 0 ==> pos[a] < pos[b],
            forall|a: int, b: int| 0 <= a < b < k && pos[a] < 0 && pos[b] < 0 ==> pos[a] > pos[b],
            forall|a: int| 0 <= a < k && pos[a] >= 0 ==> pos[a] < included.len(),
            forall|a: int| 0 <= a < k && pos[a] < 0 ==> -pos[a] - 1 < omitted.len(),
        decreases n - k,
    {
        let mut neighbor = nc.remove(0);
        let text = nt.remove(0);
        proof {
            assert(neighbor == nc0[k as int]);
            assert(text == nt0[k as int]);
            assert(nc@ =~= nc0.subrange(k + 1, n as int));
            assert(nt@ =~= nt0.subrange(k + 1, n as int));
        }
        let ghost inc0 = included@;
        let ghost om0 = omitted@;
        let ghost st = pack_state(
            roots@,
            rt0,
            nc0,
            nt0,
            raw_budget as nat,
            max_nodes as nat,
            max_files as nat,
            k as nat,
        );
        let ghost fate = neighbor_fate(st.0, st.1, st.2, nc0[k as int], nt0[k as int]@, max_nodes as nat, max_files as nat);
        proof {
            assert(files@.map_values(|s: String| s@).len() == files.len());
        }
        if included.len() >= max_nodes {
            omitted.push(make_omitted(&neighbor, "Truncated: max_nodes limit reached"));
            proof {
                pos = pos.push(-(om0.len() as int) - 1);
            }
        } else if !listed(&files, neighbor.file_path.as_str()) && files.len() >= max_files {
            omitted.push(make_omitted(&neighbor, "Truncated: max_files limit reached"));
            proof {
                pos = pos.push(-(om0.len() as int) - 1);
            }
        } else {
            let tokens = ApproxTokenEstimator.estimate_tokens(text.as_str());
            if tokens > current_budget {
                omitted.push(make_omitted(&neighbor, "Truncated: token budget exceeded"));
                proof {
                    pos = pos.push(-(om0.len() as int) - 1);
                }
            } else {
                neighbor.estimated_tokens = tokens;
                current_budget = current_budget - tokens;
                add_listed(&mut files, &neighbor.file_path);
                let snippet = make_snippet(&neighbor, text, tokens);
                included.push((neighbor, snippet));
                proof {
                    pos = pos.push(inc0.len() as int);
                }
            }
        }
        proof {
            assert(pack_state(
                roots@,
                rt0,
                nc0,
                nt0,
                raw_budget as nat,
                max_nodes as nat,
                max_files as nat,
                (k + 1) as nat,
            ) == if fate == 0 {
                (st.0 + 1, add_file(st.1, nc0[k as int].file_path@), (st.2 - approx_tokens(nt0[k as int]@.len())) as nat)
            } else {
                st
            });
            assert forall|kk: int| #![trigger pos[kk]] 0 <= kk < k + 1 implies ({
                let (count, fs, budget) = pack_state(
                    roots@,
                    rt0,
                    nc0,
                    nt0,
                    raw_budget as nat,
                    max_nodes as nat,
                    max_files as nat,
                    kk as nat,
                );
                let fate = neighbor_fate(count, fs, budget, nc0[kk], nt0[kk]@, max_nodes as nat, max_files as nat);
                if fate == 0 {
                    &&& included_ok(nc0[kk], included@[pos[kk]].0, nt0[kk]@)
                    &&& snippet_ok(nc0[kk], included@[pos[kk]].1, nt0[kk]@)
                } else {
                    omitted_ok(nc0[kk], omitted@[-pos[kk] - 1], fate_reason(fate))
                }
            }) by {
                if kk < k {
                    if pos[kk] >= 0 {
                        assert(included@[pos[kk]] == inc0[pos[kk]]);
                    } else {
                        assert(omitted@[-pos[kk] - 1] == om0[-pos[kk] - 1]);
                    }
                }
            }
            assert forall|j: int| 0 <= j < n_roots implies {
                &&& included_ok(rc0[j], #[trigger] included@[j].0, rt0[j]@)
                &&& snippet_ok(rc0[j], included@[j].1, rt0[j]@)
            } by {
                assert(included@[j] == inc0[j]);
            }
        }
        k = k + 1;
    }
    assert(rt0 == root_texts@);
    assert(nc0 == neighbors_cand@);
    assert(nt0 == neighbor_texts@);
    let p = PackedSnippets { included, omitted };
    assert(forall|i: int|
        0 <= i < roots_cand.len() ==> {
            &&& included_ok(roots_cand@[i], #[trigger] p.included@[i].0, root_texts@[i]@)
            &&& snippet_ok(roots_cand@[i], p.included@[i].1, root_texts@[i]@)
        });
    assert(neighbor_placement(
        roots_cand.len() as nat,
        roots@,
        root_texts@,
        neighbors_cand@,
        neighbor_texts@,
        raw_budget as nat,
        max_nodes as nat,
        max_files as nat,
        p.included@,
        p.omitted@,
        pos,
    ));
    p
}

/// Where each neighbour went: `pos[k] >= 0` is its index among the included pairs,
/// `pos[k] < 0` encodes `-(index among the omitted) - 1`; neighbours keep their
/// order in both lists, and each went where `neighbor_fate` sends it.
pub open spec fn neighbor_placement(
    nroots: nat,
    roots: Seq<LanguageObject>,
    root_texts: Seq<String>,
    neighbors: Seq<ContextCandidate>,
    texts: Seq<String>,
    raw_budget: nat,
    max_nodes: nat,
    max_files: nat,
    included: Seq<(ContextCandidate, ContextSnippet)>,
    omitted: Seq<OmittedContext>,
    pos: Seq<int>,
) -> bool {
    &&& pos.len() == neighbors.len()
    &&& forall|k: int|
        0 <= k < neighbors.len() ==> {
            let (count, files, budget) = pack_state(
                roots,
                root_texts,
                neighbors,
                texts,
                raw_budget,
                max_nodes,
                max_files,
                k as nat,
            );
            let fate = neighbor_fate(count, files, budget, neighbors[k], texts[k]@, max_nodes, max_files);
            if fate == 0 {
                &&& nroots <= #[trigger] pos[k] < included.len()
                &&& pos[k] == count
                &&& included_ok(neighbors[k], included[pos[k]].0, texts[k]@)
                &&& snippet_ok(neighbors[k], included[pos[k]].1, texts[k]@)
            } else {
                &&& 0 <= -pos[k] - 1 < omitted.len()
                &&& omitted_ok(neighbors[k], omitted[-pos[k] - 1], fate_reason(fate))
            }
        }
    &&& forall|a: int, b: int| 0 <= a < b < neighbors.len() && pos[a] >= 0 && pos[b] >= 0 ==> pos[a] < pos[b]
    &&& forall|a: int, b: int| 0 <= a < b < neighbors.len() && pos[a] < 0 && pos[b] < 0 ==> pos[a] > pos[b]
}

} // verus!

verus! {

/// Tokens spent on the neighbours included among the first `k`.
pub open spec fn neighbor_tokens_spent(
    roots: Seq<LanguageObject>,
    root_texts: Seq<String>,
    neighbors: Seq<ContextCandidate>,
    texts: Seq<String>,
    raw_budget: nat,
    max_nodes: nat,
    max_files: nat,
    k: nat,
) -> nat
    decreases k,
{
    if k == 0 {
        0
    } else {
        let prev = neighbor_tokens_spent(roots, root_texts, neighbors, texts, raw_budget, max_nodes, max_files, (k - 1) as nat);
        let (count, files, budget) = pack_state(roots, root_texts, neighbors, texts, raw_budget, max_nodes, max_files, (k - 1) as nat);
        if neighbor_fate(count, files, budget, neighbors[k - 1], texts[k - 1]@, max_nodes, max_files) == 0 {
            prev + approx_tokens(texts[k - 1]@.len())
        } else {
            prev
        }
    }
}

/// Packing stays within budget: the tokens of the included neighbours never exceed
/// the budget left once the roots are in, which is at most the raw budget; and the
/// neighbours never push the number of included candidates past the node limit.
pub proof fn law_pack_within_limits(
    roots: Seq<LanguageObject>,
    root_texts: Seq<String>,
    neighbors: Seq<ContextCandidate>,
    texts: Seq<String>,
    raw_budget: nat,
    max_nodes: nat,
    max_files: nat,
    k: nat,
)
    requires
        k <= neighbors.len(),
        neighbors.len() == texts.len(),
    ensures
        ({
            let (count, files, budget) = pack_state(roots, root_texts, neighbors, texts, raw_budget, max_nodes, max_files, k);
            &&& neighbor_tokens_spent(roots, root_texts, neighbors, texts, raw_budget, max_nodes, max_files, k) + budget
                == budget_after_roots(raw_budget, root_texts)
            &&& budget_after_roots(raw_budget, root_texts) <= raw_budget
            &&& count <= if root_texts.len() > max_nodes { root_texts.len() } else { max_nodes }
        }),
    decreases k,
{
    lemma_budget_after_roots_le(raw_budget, root_texts);
    if k > 0 {
        law_pack_within_limits(roots, root_texts, neighbors, texts, raw_budget, max_nodes, max_files, (k - 1) as nat);
    }
}

/// The file limit: once `max_files` files are listed, a neighbour below the node
/// limit whose file is not listed yet is omitted for the file limit, with that
/// reason; and packing never lists more files than the roots' own files or
/// `max_files`, whichever is more, so the included neighbours never open a file
/// beyond the limit.
pub proof fn law_pack_respects_file_limit(
    roots: Seq<LanguageObject>,
    root_texts: Seq<String>,
    neighbors: Seq<ContextCandidate>,
    texts: Seq<String>,
    raw_budget: nat,
    max_nodes: nat,
    max_files: nat,
    k: nat,
)
    requires
        k <= neighbors.len(),
        neighbors.len() == texts.len(),
    ensures
        forall|count: nat, files: Seq<Seq<char>>, budget: nat, c: ContextCandidate, t: Seq<char>|
            count < max_nodes && !file_listed(files, c.file_path@) && files.len() >= max_files ==> #[trigger] neighbor_fate(
                count,
                files,
                budget,
                c,
                t,
                max_nodes,
                max_files,
            ) == 2,
        fate_reason(2) == "Truncated: max_files limit reached"@,
        pack_state(roots, root_texts, neighbors, texts, raw_budget, max_nodes, max_files, k).1.len() <= if files_of_roots(
            roots,
        ).len() > max_files {
            files_of_roots(roots).len()
        } else {
            max_files
        },
    decreases k,
{
    if k > 0 {
        law_pack_respects_file_limit(roots, root_texts, neighbors, texts, raw_budget, max_nodes, max_files, (k - 1) as nat);
    }
}

proof fn lemma_budget_after_roots_le(budget: nat, texts: Seq<String>)
    ensures
        budget_after_roots(budget, texts) <= budget,
    decreases texts.len(),
{
    if texts.len() > 0 {
        lemma_budget_after_roots_le(budget, texts.drop_last());
    }
}

} // verus!
