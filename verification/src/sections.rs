//! Laying a packed context out as titled text sections.
use vstd::prelude::*;
use crate::context::{
    ApproxTokenEstimator, ContextBudget, ContextCandidate, ContextPackingMode, ContextSection,
    ContextSectionKind, ContextSnippet, OmittedContext, TokenEstimator, approx_tokens,
    effective_budget_of,
};
use crate::model::{GraphContextMode, LanguageObject};
use crate::sorting::{
    desc_order, order_by_key_desc, order_by_path, sort_dedup, sorted_unique_of, stable_by_path,
    stable_desc, str_views,
};
use crate::strings::{decimal, extend_str, push_decimal, string_from_chars};

verus! {

/// The sections of a context pack, and the tokens they are estimated to cost.
pub struct BuiltSections {
    pub sections: Vec<ContextSection>,
    pub total_estimated_tokens: usize,
}

/// How a context mode is written in the summary.
pub open spec fn mode_label(m: GraphContextMode) -> Seq<char> {
    match m {
        GraphContextMode::Callers => "Callers"@,
        GraphContextMode::Callees => "Callees"@,
        GraphContextMode::Dependencies => "Dependencies"@,
        GraphContextMode::Dependents => "Dependents"@,
        GraphContextMode::ForwardSlice => "ForwardSlice"@,
        GraphContextMode::ReverseSlice => "ReverseSlice"@,
        GraphContextMode::Forward => "Forward"@,
        GraphContextMode::Reverse => "Reverse"@,
        GraphContextMode::Neighborhood => "Neighborhood"@,
        GraphContextMode::Impact => "Impact"@,
    }
}

/// The name of a context mode.
pub fn mode_name(m: GraphContextMode) -> (s: &'static str)
    ensures
        s@ == mode_label(m),
{
    match m {
        GraphContextMode::Callers => "Callers",
        GraphContextMode::Callees => "Callees",
        GraphContextMode::Dependencies => "Dependencies",
        GraphContextMode::Dependents => "Dependents",
        GraphContextMode::ForwardSlice => "ForwardSlice",
        GraphContextMode::ReverseSlice => "ReverseSlice",
        GraphContextMode::Forward => "Forward",
        GraphContextMode::Reverse => "Reverse",
        GraphContextMode::Neighborhood => "Neighborhood",
        GraphContextMode::Impact => "Impact",
    }
}

/// The summary section: query, mode, budget, estimate and number of roots.
pub open spec fn summary_text(
    query: Seq<char>,
    mode: GraphContextMode,
    budget: nat,
    estimated: nat,
    roots: nat,
) -> Seq<char> {
    "Query: "@ + query + "\n"@ + "Mode: "@ + mode_label(mode) + "\n"@ + "Token budget: "@
        + decimal(budget) + "\n"@ + "Estimated tokens: "@ + decimal(estimated) + "\n"@
        + "Roots: "@ + decimal(roots) + "\n\n"@
}

/// The block describing one root.
pub open spec fn root_block(r: LanguageObject) -> Seq<char> {
    "Root\n"@ + "  "@ + r.qualified_name@ + "\n"@ + "  "@ + r.file_path@ + ":"@ + decimal(
        r.range.start_line as nat,
    ) + "-"@ + decimal(r.range.end_line as nat) + "\n\n"@
}

/// The root section: one block per root, in order.
pub open spec fn roots_text(rs: Seq<LanguageObject>) -> Seq<char>
    decreases rs.len(),
{
    if rs.len() == 0 {
        Seq::empty()
    } else {
        roots_text(rs.drop_last()) + root_block(rs.last())
    }
}

/// Each line followed by a line break.
pub open spec fn lines_text(ls: Seq<String>) -> Seq<char>
    decreases ls.len(),
{
    if ls.len() == 0 {
        Seq::empty()
    } else {
        lines_text(ls.drop_last()) + ls.last()@ + "\n"@
    }
}

/// The relationship section: empty when there are no relationship lines.
pub open spec fn relationships_text(ls: Seq<String>) -> Seq<char> {
    if ls.len() == 0 {
        Seq::empty()
    } else {
        "Top relationships\n"@ + lines_text(ls) + "\n"@
    }
}

/// Numbered entries, counting from 1.
pub open spec fn file_entries(fs: Seq<Seq<char>>) -> Seq<char>
    decreases fs.len(),
{
    if fs.len() == 0 {
        Seq::empty()
    } else {
        file_entries(fs.drop_last()) + "  "@ + decimal(fs.len()) + ". "@ + fs.last() + "\n"@
    }
}

/// The section listing the files to read.
pub open spec fn files_text(fs: Seq<Seq<char>>) -> Seq<char> {
    "Files to read\n"@ + file_entries(fs) + "\n"@
}

/// The file of each included candidate.
pub open spec fn snippet_paths(inc: Seq<(ContextCandidate, ContextSnippet)>) -> Seq<Seq<char>> {
    inc.map_values(|p: (ContextCandidate, ContextSnippet)| p.0.file_path@)
}

/// The combined score of each included candidate, as a sort key.
pub open spec fn snippet_scores(inc: Seq<(ContextCandidate, ContextSnippet)>) -> Seq<(i64, usize)> {
    inc.map_values(|p: (ContextCandidate, ContextSnippet)| (p.0.combined_score, 0usize))
}

/// Tokens of the included snippets, added up.
pub open spec fn snippet_token_sum(inc: Seq<(ContextCandidate, ContextSnippet)>) -> nat
    decreases inc.len(),
{
    if inc.len() == 0 {
        0
    } else {
        snippet_token_sum(inc.drop_last()) + inc.last().1.estimated_tokens as nat
    }
}

/// A header line, the snippet text ended by a line break, and a blank line.
pub open spec fn snippet_block(c: ContextCandidate, s: ContextSnippet) -> Seq<char> {
    "  --- "@ + c.file_path@ + ":"@ + decimal(c.range.start_line as nat) + "-"@ + decimal(
        c.range.end_line as nat,
    ) + " "@ + c.node.qualified_name@ + "\n"@ + s.text@ + (if s.text@.len() > 0
        && s.text@.last() != '\n' {
        "\n"@
    } else {
        Seq::empty()
    }) + "\n"@
}

/// The snippet blocks in the given order.
pub open spec fn snippet_blocks(inc: Seq<(ContextCandidate, ContextSnippet)>, ord: Seq<usize>) -> Seq<
    char,
>
    decreases ord.len(),
{
    if ord.len() == 0 {
        Seq::empty()
    } else {
        snippet_blocks(inc, ord.drop_last()) + snippet_block(
            inc[ord.last() as int].0,
            inc[ord.last() as int].1,
        )
    }
}

/// The snippet section.
pub open spec fn snippets_text(inc: Seq<(ContextCandidate, ContextSnippet)>, ord: Seq<usize>) -> Seq<
    char,
> {
    "Context\n"@ + snippet_blocks(inc, ord)
}

/// The order of the snippets for a packing mode: by decreasing score (ties in
/// order), as included, or by file path (ties in order).
pub open spec fn snippet_order_ok(
    mode: ContextPackingMode,
    inc: Seq<(ContextCandidate, ContextSnippet)>,
    ord: Seq<usize>,
) -> bool {
    match mode {
        ContextPackingMode::Frontloaded => ord == desc_order(snippet_scores(inc)),
        ContextPackingMode::Sandwich => ord == Seq::new(inc.len(), |i: int| i as usize),
        ContextPackingMode::Balanced => stable_by_path(snippet_paths(inc), ord),
    }
}

/// How the `i`-th recap line (from 0) begins.
pub open spec fn recap_label(i: nat) -> Seq<char> {
    if i == 0 {
        "Start with"@
    } else if i == 1 {
        "Then read"@
    } else {
        "Then inspect"@
    }
}

/// The first `n` recap lines, following `ord`.
pub open spec fn recap_lines(inc: Seq<(ContextCandidate, ContextSnippet)>, ord: Seq<usize>, n: nat) -> Seq<
    char,
>
    decreases n,
{
    if n == 0 {
        Seq::empty()
    } else {
        recap_lines(inc, ord, (n - 1) as nat) + "  "@ + decimal(n) + ". "@ + recap_label(
            (n - 1) as nat,
        ) + " "@ + inc[ord[n - 1] as int].0.node.qualified_name@ + "\n"@
    }
}

/// The closing section: a recap of the (at most three) best candidates, and a
/// note on how many were omitted.
pub open spec fn end_text(
    inc: Seq<(ContextCandidate, ContextSnippet)>,
    ord: Seq<usize>,
    omitted: nat,
) -> Seq<char> {
    (if inc.len() > 0 {
        "Most important context recap\n"@ + recap_lines(
            inc,
            ord,
            if inc.len() < 3 {
                inc.len()
            } else {
                3
            },
        ) + "\n"@
    } else {
        Seq::empty()
    }) + (if omitted > 0 {
        "Diagnostics\n"@ + "  Context truncated: "@ + decimal(omitted)
            + " candidates omitted due to token budget.\n\n"@
    } else {
        Seq::empty()
    })
}

/// The estimate reported for a built pack: the snippets' own estimates plus every
/// section but the snippet section.
pub open spec fn sections_total(
    query: Seq<char>,
    mode: GraphContextMode,
    budget: ContextBudget,
    roots: Seq<LanguageObject>,
    inc: Seq<(ContextCandidate, ContextSnippet)>,
    omitted: nat,
    rels: Seq<String>,
) -> nat {
    let s = snippet_token_sum(inc);
    s + approx_tokens(summary_text(query, mode, effective_budget_of(budget), s, roots.len()).len())
        + approx_tokens(roots_text(roots).len()) + approx_tokens(relationships_text(rels).len())
        + approx_tokens(files_text(sorted_unique_of(snippet_paths(inc))).len()) + approx_tokens(
        end_text(inc, desc_order(snippet_scores(inc)), omitted).len(),
    )
}

fn summary_section(query: &str, mode: GraphContextMode, budget: usize, estimated: usize, roots: usize) -> (s:
    String)
    ensures
        s@ == summary_text(query@, mode, budget as nat, estimated as nat, roots as nat),
{
    let mut v: Vec<char> = Vec::new();
    extend_str(&mut v, "Query: ");
    extend_str(&mut v, query);
    extend_str(&mut v, "\n");
    extend_str(&mut v, "Mode: ");
    extend_str(&mut v, mode_name(mode));
    extend_str(&mut v, "\n");
    extend_str(&mut v, "Token budget: ");
    push_decimal(&mut v, budget);
    extend_str(&mut v, "\n");
    extend_str(&mut v, "Estimated tokens: ");
    push_decimal(&mut v, estimated);
    extend_str(&mut v, "\n");
    extend_str(&mut v, "Roots: ");
    push_decimal(&mut v, roots);
    extend_str(&mut v, "\n\n");
    string_from_chars(&v)
}

fn roots_section(roots: &[LanguageObject]) -> (s: String)
    ensures
        s@ == roots_text(roots@),
{
    let mut v: Vec<char> = Vec::new();
    let mut i: usize = 0;
    while i < roots.len()
        invariant
            i <= roots.len(),
            v@ == roots_text(roots@.take(i as int)),
        decreases roots.len() - i,
    {
        let r = &roots[i];
        let ghost v0 = v@;
        extend_str(&mut v, "Root\n");
        extend_str(&mut v, "  ");
        extend_str(&mut v, r.qualified_name.as_str());
        extend_str(&mut v, "\n");
        extend_str(&mut v, "  ");
        extend_str(&mut v, r.file_path.as_str());
        extend_str(&mut v, ":");
        push_decimal(&mut v, r.range.start_line);
        extend_str(&mut v, "-");
        push_decimal(&mut v, r.range.end_line);
        extend_str(&mut v, "\n\n");
        proof {
            assert(roots@.take(i + 1).drop_last() =~= roots@.take(i as int));
            assert(v@ =~= v0 + root_block(roots@[i as int]));
        }
        i = i + 1;
    }
    assert(roots@.take(roots.len() as int) =~= roots@);
    string_from_chars(&v)
}

fn relationships_section(lines: &[String]) -> (s: String)
    ensures
        s@ == relationships_text(lines@),
{
    let mut v: Vec<char> = Vec::new();
    if lines.len() > 0 {
        extend_str(&mut v, "Top relationships\n");
        let mut i: usize = 0;
        while i < lines.len()
            invariant
                i <= lines.len(),
                v@ == "Top relationships\n"@ + lines_text(lines@.take(i as int)),
            decreases lines.len() - i,
        {
            let ghost v0 = v@;
            extend_str(&mut v, lines[i].as_str());
            extend_str(&mut v, "\n");
            proof {
                assert(lines@.take(i + 1).drop_last() =~= lines@.take(i as int));
                assert(v@ =~= "Top relationships\n"@ + lines_text(lines@.take(i + 1)));
            }
            i = i + 1;
        }
        extend_str(&mut v, "\n");
        assert(lines@.take(lines.len() as int) =~= lines@);
    }
    assert(v@ =~= relationships_text(lines@));
    string_from_chars(&v)
}

fn files_section(files: &Vec<String>) -> (s: String)
    ensures
        s@ == files_text(str_views(files@)),
{
    let ghost fv = str_views(files@);
    let mut v: Vec<char> = Vec::new();
    extend_str(&mut v, "Files to read\n");
    let mut i: usize = 0;
    while i < files.len()
        invariant
            i <= files.len(),
            fv == str_views(files@),
            v@ == "Files to read\n"@ + file_entries(fv.take(i as int)),
        decreases files.len() - i,
    {
        let ghost v0 = v@;
        extend_str(&mut v, "  ");
        push_decimal(&mut v, i + 1);
        extend_str(&mut v, ". ");
        extend_str(&mut v, files[i].as_str());
        extend_str(&mut v, "\n");
        proof {
            assert(fv.take(i + 1).drop_last() =~= fv.take(i as int));
            assert(fv.take(i + 1).last() == files@[i as int]@);
            assert(v@ =~= "Files to read\n"@ + file_entries(fv.take(i + 1)));
        }
        i = i + 1;
    }
    extend_str(&mut v, "\n");
    assert(fv.take(files.len() as int) =~= fv);
    string_from_chars(&v)
}

fn push_snippet_block(v: &mut Vec<char>, c: &ContextCandidate, sn: &ContextSnippet)
    ensures
        final(v)@ == old(v)@ + snippet_block(*c, *sn),
{
    extend_str(v, "  --- ");
    extend_str(v, c.file_path.as_str());
    extend_str(v, ":");
    push_decimal(v, c.range.start_line);
    extend_str(v, "-");
    push_decimal(v, c.range.end_line);
    extend_str(v, " ");
    extend_str(v, c.node.qualified_name.as_str());
    extend_str(v, "\n");
    let ghost v1 = v@;
    extend_str(v, sn.text.as_str());
    let n = sn.text.unicode_len();
    if n > 0 && sn.text.get_char(n - 1) != '\n' {
        v.push('\n');
    }
    v.push('\n');
    proof {
        let tail: Seq<char> = if sn.text@.len() > 0 && sn.text@.last() != '\n' {
            "\n"@
        } else {
            Seq::empty()
        };
        reveal_strlit("\n");
        assert(v@ =~= v1 + sn.text@ + tail + "\n"@);
        assert(v@ =~= old(v)@ + snippet_block(*c, *sn));
    }
}

fn snippets_section(inc: &[(ContextCandidate, ContextSnippet)], ord: &Vec<usize>) -> (s: String)
    requires
        forall|i: int| 0 <= i < ord.len() ==> #[trigger] ord@[i] < inc.len(),
    ensures
        s@ == snippets_text(inc@, ord@),
{
    let mut v: Vec<char> = Vec::new();
    extend_str(&mut v, "Context\n");
    let mut i: usize = 0;
    while i < ord.len()
        invariant
            i <= ord.len(),
            forall|k: int| 0 <= k < ord.len() ==> #[trigger] ord@[k] < inc.len(),
            v@ == "Context\n"@ + snippet_blocks(inc@, ord@.take(i as int)),
        decreases ord.len() - i,
    {
        let ghost v0 = v@;
        let k = ord[i];
        push_snippet_block(&mut v, &inc[k].0, &inc[k].1);
        proof {
            assert(ord@.take(i + 1).drop_last() =~= ord@.take(i as int));
            assert(v@ =~= "Context\n"@ + snippet_blocks(inc@, ord@.take(i + 1)));
        }
        i = i + 1;
    }
    assert(ord@.take(ord.len() as int) =~= ord@);
    string_from_chars(&v)
}

fn end_section(inc: &[(ContextCandidate, ContextSnippet)], ord: &Vec<usize>, omitted: usize) -> (s:
    String)
    requires
        ord.len() == inc.len(),
        forall|i: int| 0 <= i < ord.len() ==> #[trigger] ord@[i] < inc.len(),
    ensures
        s@ == end_text(inc@, ord@, omitted as nat),
{
    let mut v: Vec<char> = Vec::new();
    if inc.len() > 0 {
        extend_str(&mut v, "Most important context recap\n");
        let n: usize = if inc.len() < 3 {
            inc.len()
        } else {
            3
        };
        let mut i: usize = 0;
        while i < n
            invariant
                i <= n,
                n <= ord.len(),
                ord.len() == inc.len(),
                forall|k: int| 0 <= k < ord.len() ==> #[trigger] ord@[k] < inc.len(),
                v@ == "Most important context recap\n"@ + recap_lines(inc@, ord@, i as nat),
            decreases n - i,
        {
            let ghost v0 = v@;
            let label = if i == 0 {
                "Start with"
            } else if i == 1 {
                "Then read"
            } else {
                "Then inspect"
            };
            extend_str(&mut v, "  ");
            push_decimal(&mut v, i + 1);
            extend_str(&mut v, ". ");
            extend_str(&mut v, label);
            extend_str(&mut v, " ");
            extend_str(&mut v, inc[ord[i]].0.node.qualified_name.as_str());
            extend_str(&mut v, "\n");
            proof {
                assert(label@ == recap_label(i as nat));
                assert(v@ =~= "Most important context recap\n"@ + recap_lines(
                    inc@,
                    ord@,
                    (i + 1) as nat,
                ));
            }
            i = i + 1;
        }
        extend_str(&mut v, "\n");
    }
    let ghost v0 = v@;
    if omitted > 0 {
        extend_str(&mut v, "Diagnostics\n");
        extend_str(&mut v, "  Context truncated: ");
        push_decimal(&mut v, omitted);
        extend_str(&mut v, " candidates omitted due to token budget.\n\n");
    }
    assert(v@ =~= end_text(inc@, ord@, omitted as nat));
    string_from_chars(&v)
}

/// A section of the given kind and text, with the text's token estimate.
pub open spec fn section_ok(s: ContextSection, kind: ContextSectionKind, text: Seq<char>) -> bool {
    &&& s.kind == kind
    &&& s.text@ == text
    &&& s.estimated_tokens == approx_tokens(text.len())
}

fn make_section(kind: ContextSectionKind, text: String) -> (s: ContextSection)
    ensures
        section_ok(s, kind, text@),
{
    let tokens = ApproxTokenEstimator.estimate_tokens(text.as_str());
    ContextSection { kind, text, estimated_tokens: tokens }
}

proof fn lemma_token_sum_prefix(inc: Seq<(ContextCandidate, ContextSnippet)>, i: int)
    requires
        0 <= i <= inc.len(),
    ensures
        snippet_token_sum(inc.take(i)) <= snippet_token_sum(inc),
    decreases inc.len() - i,
{
    if i < inc.len() {
        lemma_token_sum_prefix(inc, i + 1);
        assert(inc.take(i + 1).drop_last() =~= inc.take(i));
    } else {
        assert(inc.take(i) =~= inc);
    }
}

fn identity_order(n: usize) -> (r: Vec<usize>)
    ensures
        r@ == Seq::new(n as nat, |i: int| i as usize),
{
    let mut r: Vec<usize> = Vec::new();
    let mut i: usize = 0;
    while i < n
        invariant
            i <= n,
            r@ == Seq::new(i as nat, |k: int| k as usize),
        decreases n - i,
    {
        r.push(i);
        i = i + 1;
        assert(r@ =~= Seq::new(i as nat, |k: int| k as usize));
    }
    r
}

/// Whether the estimated tokens of the sections `build_context_sections` would
/// lay out fit in a `usize` (see `sections_total`).
pub fn sections_fit(
    query_str: &str,
    mode: GraphContextMode,
    budget: &ContextBudget,
    roots: &[LanguageObject],
    included_snippets: &[(ContextCandidate, ContextSnippet)],
    omitted_candidates: &[OmittedContext],
    relationship_lines: &[String],
) -> (r: bool)
    requires
        budget.model_context_window is Some ==> budget.reserve_output_tokens
            + budget.reserve_instruction_tokens <= usize::MAX,
    ensures
        r == (sections_total(
            query_str@,
            mode,
            *budget,
            roots@,
            included_snippets@,
            omitted_candidates.len() as nat,
            relationship_lines@,
        ) <= usize::MAX),
{
    let ghost inc = included_snippets@;
    let mut total: usize = 0;
    let mut paths: Vec<String> = Vec::new();
    let mut keys: Vec<(i64, usize)> = Vec::new();
    let mut i: usize = 0;
    assert(inc.take(0) =~= Seq::<(ContextCandidate, ContextSnippet)>::empty());
    while i < included_snippets.len()
        invariant
            i <= included_snippets.len(),
            inc == included_snippets@,
            total == snippet_token_sum(inc.take(i as int)),
            paths.len() == i,
            keys.len() == i,
            forall|k: int| 0 <= k < i ==> #[trigger] paths@[k]@ == inc[k].0.file_path@,
            forall|k: int| 0 <= k < i ==> #[trigger] keys@[k] == (inc[k].0.combined_score, 0usize),
        decreases included_snippets.len() - i,
    {
        proof {
            assert(inc.take(i + 1).drop_last() =~= inc.take(i as int));
            lemma_token_sum_prefix(inc, i + 1);
        }
        match total.checked_add(included_snippets[i].1.estimated_tokens) {
            Some(t) => total = t,
            None => return false,
        }
        paths.push(included_snippets[i].0.file_path.clone());
        keys.push((included_snippets[i].0.combined_score, 0));
        i = i + 1;
    }
    proof {
        assert(inc.take(inc.len() as int) =~= inc);
        assert(str_views(paths@) =~= snippet_paths(inc));
        assert(keys@ =~= snippet_scores(inc));
    }
    let eff = budget.effective_budget();
    let summary = make_section(ContextSectionKind::Summary, summary_section(query_str, mode, eff, total, roots.len()));
    let root_sec = make_section(ContextSectionKind::Root, roots_section(roots));
    let rel_sec = make_section(ContextSectionKind::DirectRelationships, relationships_section(relationship_lines));
    let files = sort_dedup(&paths);
    let files_sec = make_section(ContextSectionKind::KeyNeighbors, files_section(&files));
    let desc = order_by_key_desc(&keys);
    let end_sec = make_section(
        ContextSectionKind::OmittedSummary,
        end_section(included_snippets, &desc, omitted_candidates.len()),
    );
    let sum: u128 = total as u128 + summary.estimated_tokens as u128 + root_sec.estimated_tokens as u128
        + rel_sec.estimated_tokens as u128 + files_sec.estimated_tokens as u128 + end_sec.estimated_tokens as u128;
    assert(sum == sections_total(
        query_str@,
        mode,
        *budget,
        roots@,
        inc,
        omitted_candidates.len() as nat,
        relationship_lines@,
    ));
    sum <= usize::MAX as u128
}

/// Lays a pack out as six sections: summary, roots, relationships, files to read,
/// snippets (ordered as the packing mode asks) and a closing recap.
pub fn build_context_sections(
    query_str: &str,
    mode: GraphContextMode,
    budget: &ContextBudget,
    roots: &[LanguageObject],
    included_snippets: &[(ContextCandidate, ContextSnippet)],
    omitted_candidates: &[OmittedContext],
    relationship_lines: &[String],
    packing_mode: ContextPackingMode,
) -> (b: BuiltSections)
    requires
        budget.model_context_window is Some ==> budget.reserve_output_tokens
            + budget.reserve_instruction_tokens <= usize::MAX,
        sections_total(
            query_str@,
            mode,
            *budget,
            roots@,
            included_snippets@,
            omitted_candidates.len() as nat,
            relationship_lines@,
        ) <= usize::MAX,
    ensures
        b.sections@.len() == 6,
        section_ok(
            b.sections@[0],
            ContextSectionKind::Summary,
            summary_text(
                query_str@,
                mode,
                effective_budget_of(*budget),
                snippet_token_sum(included_snippets@),
                roots.len() as nat,
            ),
        ),
        section_ok(b.sections@[1], ContextSectionKind::Root, roots_text(roots@)),
        section_ok(
            b.sections@[2],
            ContextSectionKind::DirectRelationships,
            relationships_text(relationship_lines@),
        ),
        section_ok(
            b.sections@[3],
            ContextSectionKind::KeyNeighbors,
            files_text(sorted_unique_of(snippet_paths(included_snippets@))),
        ),
        exists|ord: Seq<usize>|
            snippet_order_ok(packing_mode, included_snippets@, ord) && #[trigger] section_ok(
                b.sections@[4],
                ContextSectionKind::Snippets,
                snippets_text(included_snippets@, ord),
            ),
        section_ok(
            b.sections@[5],
            ContextSectionKind::OmittedSummary,
            end_text(
                included_snippets@,
                desc_order(snippet_scores(included_snippets@)),
                omitted_candidates.len() as nat,
            ),
        ),
        b.total_estimated_tokens == sections_total(
            query_str@,
            mode,
            *budget,
            roots@,
            included_snippets@,
            omitted_candidates.len() as nat,
            relationship_lines@,
        ),
{
    let ghost inc = included_snippets@;
    let mut total: usize = 0;
    let mut paths: Vec<String> = Vec::new();
    let mut keys: Vec<(i64, usize)> = Vec::new();
    let mut i: usize = 0;
    proof {
        lemma_token_sum_prefix(inc, inc.len() as int);
        assert(inc.take(0) =~= Seq::<(ContextCandidate, ContextSnippet)>::empty());
    }
    while i < included_snippets.len()
        invariant
            i <= included_snippets.len(),
            inc == included_snippets@,
            total == snippet_token_sum(inc.take(i as int)),
            snippet_token_sum(inc) <= usize::MAX,
            paths.len() == i,
            keys.len() == i,
            forall|k: int| 0 <= k < i ==> #[trigger] paths@[k]@ == inc[k].0.file_path@,
            forall|k: int| 0 <= k < i ==> #[trigger] keys@[k] == (inc[k].0.combined_score, 0usize),
        decreases included_snippets.len() - i,
    {
        proof {
            assert(inc.take(i + 1).drop_last() =~= inc.take(i as int));
            lemma_token_sum_prefix(inc, i + 1);
        }
        total = total + included_snippets[i].1.estimated_tokens;
        paths.push(included_snippets[i].0.file_path.clone());
        keys.push((included_snippets[i].0.combined_score, 0));
        i = i + 1;
    }
    proof {
        assert(inc.take(inc.len() as int) =~= inc);
        assert(str_views(paths@) =~= snippet_paths(inc));
        assert(keys@ =~= snippet_scores(inc));
    }
    let ghost s_tokens = total as nat;
    let ghost full = sections_total(
        query_str@,
        mode,
        *budget,
        roots@,
        inc,
        omitted_candidates.len() as nat,
        relationship_lines@,
    );
    let mut sections: Vec<ContextSection> = Vec::new();

    let eff = budget.effective_budget();
    let summary = make_section(
        ContextSectionKind::Summary,
        summary_section(query_str, mode, eff, total, roots.len()),
    );
    total = total + summary.estimated_tokens;
    sections.push(summary);

    let root_sec = make_section(ContextSectionKind::Root, roots_section(roots));
    total = total + root_sec.estimated_tokens;
    sections.push(root_sec);

    let rel_sec = make_section(
        ContextSectionKind::DirectRelationships,
        relationships_section(relationship_lines),
    );
    total = total + rel_sec.estimated_tokens;
    sections.push(rel_sec);

    let files = sort_dedup(&paths);
    let files_sec = make_section(ContextSectionKind::KeyNeighbors, files_section(&files));
    total = total + files_sec.estimated_tokens;
    sections.push(files_sec);

    let desc = order_by_key_desc(&keys);
    let ghost mut ord: Seq<usize> = desc@;
    let snippets = match packing_mode {
        ContextPackingMode::Frontloaded => snippets_section(included_snippets, &desc),
        ContextPackingMode::Sandwich => {
            let ident = identity_order(included_snippets.len());
            proof {
                ord = ident@;
            }
            snippets_section(included_snippets, &ident)
        },
        ContextPackingMode::Balanced => {
            let by_path = order_by_path(&paths);
            proof {
                ord = by_path@;
                assert(paths@.map_values(|s: String| s@) =~= snippet_paths(inc));
                assert forall|k: int| 0 <= k < by_path.len() implies #[trigger] by_path@[k]
                    < included_snippets.len() by {
                    assert(by_path@[k] < paths.len());
                }
            }
            snippets_section(included_snippets, &by_path)
        },
    };
    let snip_sec = make_section(ContextSectionKind::Snippets, snippets);
    assert(snippet_order_ok(packing_mode, inc, ord));
    sections.push(snip_sec);

    let end_sec = make_section(
        ContextSectionKind::OmittedSummary,
        end_section(included_snippets, &desc, omitted_candidates.len()),
    );
    total = total + end_sec.estimated_tokens;
    sections.push(end_sec);
    assert(section_ok(
        sections@[4],
        ContextSectionKind::Snippets,
        snippets_text(included_snippets@, ord),
    ));
    let b = BuiltSections { sections, total_estimated_tokens: total };
    assert(snippet_order_ok(packing_mode, included_snippets@, ord) && section_ok(
        b.sections@[4],
        ContextSectionKind::Snippets,
        snippets_text(included_snippets@, ord),
    ));
    b
}

} // verus!
