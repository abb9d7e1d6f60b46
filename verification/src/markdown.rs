//! The Markdown report of a graph-context result.
use vstd::prelude::*;
use crate::model::{
    ContextFileSpan, GraphContextEdge, GraphContextMode, GraphContextResult, LanguageObject,
    SymbolId,
};
use crate::paths::{extension_of, path_extension, path_less, path_lt, relative_display, relative_path};
use crate::render::{format_symbol_line, kind_label, kind_to_str, symbol_line};
use crate::sections::{mode_label, mode_name};
use crate::sorting::{is_permutation, is_sorted_permutation, sort_strings, str_views};
use crate::strings::{decimal, extend_str, push_decimal, string_from_chars};

verus! {

/// Decimal rendering of an integer, with a minus sign when negative.
pub open spec fn int_text(i: int) -> Seq<char> {
    if i < 0 {
        "-"@ + decimal((-i) as nat)
    } else {
        decimal(i as nat)
    }
}

/// How a symbol id is written when its symbol is unknown (its `Debug` form).
pub open spec fn id_debug(id: SymbolId) -> Seq<char> {
    "SymbolId("@ + int_text(id.0 as int) + ")"@
}

/// The name shown for a symbol id: the qualified name of the last node with that
/// id, else the root's if it has it, else `unknown_` and the id.
pub open spec fn node_name(root: LanguageObject, nodes: Seq<LanguageObject>, id: SymbolId) -> Seq<char>
    decreases nodes.len(),
{
    if nodes.len() == 0 {
        if root.id == id {
            root.qualified_name@
        } else {
            "unknown_"@ + id_debug(id)
        }
    } else if nodes.last().id == id {
        nodes.last().qualified_name@
    } else {
        node_name(root, nodes.drop_last(), id)
    }
}

/// `<from> -> <to>` for an edge.
pub open spec fn edge_text(root: LanguageObject, nodes: Seq<LanguageObject>, e: GraphContextEdge) -> Seq<char> {
    node_name(root, nodes, e.from) + " -> "@ + node_name(root, nodes, e.to)
}

pub open spec fn edge_texts(
    root: LanguageObject,
    nodes: Seq<LanguageObject>,
    edges: Seq<GraphContextEdge>,
) -> Seq<Seq<char>> {
    edges.map_values(|e: GraphContextEdge| edge_text(root, nodes, e))
}

/// The symbol lines of the root and then of each node.
pub open spec fn symbol_texts(root: LanguageObject, nodes: Seq<LanguageObject>, rp: Seq<char>) -> Seq<
    Seq<char>,
> {
    seq![symbol_line(root, rp)] + nodes.map_values(|n: LanguageObject| symbol_line(n, rp))
}

/// Each line followed by a line break.
pub open spec fn joined(ls: Seq<Seq<char>>) -> Seq<char>
    decreases ls.len(),
{
    if ls.len() == 0 {
        Seq::empty()
    } else {
        joined(ls.drop_last()) + ls.last() + "\n"@
    }
}

/// File span `a` is listed before `b`: by path, then by first line.
pub open spec fn span_before(a: ContextFileSpan, b: ContextFileSpan) -> bool {
    path_lt(a.file_path@, b.file_path@) || (!path_lt(a.file_path@, b.file_path@) && !path_lt(
        b.file_path@,
        a.file_path@,
    ) && a.range.start_line < b.range.start_line)
}

/// Span positions in listing order, equal spans keeping their order.
pub open spec fn stable_by_span(fs: Seq<ContextFileSpan>, r: Seq<usize>) -> bool {
    &&& is_permutation(r, fs.len())
    &&& forall|i: int|
        0 < i < r.len() ==> {
            &&& !span_before(fs[#[trigger] r[i] as int], fs[r[i - 1] as int])
            &&& (!span_before(fs[r[i - 1] as int], fs[r[i] as int]) ==> r[i - 1] < r[i])
        }
}

/// The language named on a code fence, from the file's extension.
pub open spec fn fence_lang(p: Seq<char>) -> Seq<char> {
    match extension_of(p) {
        Some(e) => if e == "rs"@ {
            "rust"@
        } else if e == "py"@ {
            "python"@
        } else if e == "js"@ {
            "javascript"@
        } else if e == "ts"@ {
            "typescript"@
        } else if e == "tsx"@ {
            "tsx"@
        } else if e == "jsx"@ {
            "jsx"@
        } else {
            ""@
        },
        None => ""@,
    }
}

/// A file span's heading and its content in a code fence.
pub open spec fn file_block(f: ContextFileSpan, content: Seq<char>, rp: Seq<char>) -> Seq<char> {
    "### "@ + relative_display(f.file_path@, rp) + ":"@ + decimal(f.range.start_line as nat) + "-"@
        + decimal(f.range.end_line as nat) + "\n\n"@ + "```"@ + fence_lang(f.file_path@) + "\n"@
        + content + (if content.len() > 0 && content.last() != '\n' {
        "\n"@
    } else {
        Seq::empty()
    }) + "```\n\n"@
}

/// The blocks of the first `n` spans in listing order.
pub open spec fn file_blocks(
    fs: Seq<ContextFileSpan>,
    contents: Seq<String>,
    ord: Seq<usize>,
    n: nat,
    rp: Seq<char>,
) -> Seq<char>
    decreases n,
{
    if n == 0 {
        Seq::empty()
    } else {
        file_blocks(fs, contents, ord, (n - 1) as nat, rp) + file_block(
            fs[ord[n - 1] as int],
            contents[ord[n - 1] as int]@,
            rp,
        )
    }
}

/// How many files are shown: all when `max_files` is 0, else at most `max_files`.
pub open spec fn shown_files(len: nat, max_files: nat) -> nat {
    if max_files == 0 || len < max_files {
        len
    } else {
        max_files
    }
}

/// The heading lines that describe the root.
pub open spec fn header_root(root: LanguageObject, rp: Seq<char>) -> Seq<char> {
    "# Graph Context\n\n"@ + "Root: "@ + kind_label(root.kind) + " "@ + root.name@ + "\n"@
        + "Path: "@ + relative_display(root.file_path@, rp) + ":"@ + decimal(
        root.range.start_line as nat,
    ) + "-"@ + decimal(root.range.end_line as nat) + "\n"@
}

/// The heading lines that describe the query.
pub open spec fn header_params(mode: GraphContextMode, depth: nat, max_nodes: nat, max_files: nat) -> Seq<
    char,
> {
    "Mode: "@ + mode_label(mode) + "\n"@ + "Depth: "@ + decimal(depth) + "\n"@ + "Max nodes: "@
        + decimal(max_nodes) + "\n"@ + "Max files: "@ + decimal(max_files) + "\n\n"@
}

/// The report's heading lines.
pub open spec fn markdown_header(
    root: LanguageObject,
    rp: Seq<char>,
    mode: GraphContextMode,
    depth: nat,
    max_nodes: nat,
    max_files: nat,
) -> Seq<char> {
    header_root(root, rp) + header_params(mode, depth, max_nodes, max_files)
}

/// The whole report, given the sorted edge lines, the sorted symbol lines and the
/// listing order of the file spans.
pub open spec fn markdown_text(
    result: GraphContextResult,
    rp: Seq<char>,
    mode: GraphContextMode,
    depth: nat,
    max_nodes: nat,
    max_files: nat,
    contents: Seq<String>,
    edge_lines: Seq<Seq<char>>,
    symbol_lines: Seq<Seq<char>>,
    ord: Seq<usize>,
) -> Seq<char> {
    let n = result.files@.len();
    let shown = shown_files(n, max_files);
    markdown_header(result.root, rp, mode, depth, max_nodes, max_files) + "## Graph\n\n"@ + joined(
        edge_lines,
    ) + "\n"@ + "## Included Symbols\n\n"@ + joined(symbol_lines) + "\n"@ + "## Files\n\n"@
        + file_blocks(result.files@, contents, ord, shown, rp) + (if n > shown {
        "_("@ + decimal((n - shown) as nat) + " additional files omitted due to max_files limit)_\n"@
    } else {
        Seq::empty()
    })
}

fn push_u64_decimal(v: &mut Vec<char>, n: u64)
    ensures
        final(v)@ == old(v)@ + decimal(n as nat),
    decreases n,
{
    if n < 10 {
        let ghost v0 = v@;
        let mut t: Vec<char> = Vec::new();
        push_decimal(&mut t, n as usize);
        crate::strings::extend_chars(v, &t);
    } else {
        let ghost v0 = v@;
        push_u64_decimal(v, n / 10);
        let mut t: Vec<char> = Vec::new();
        push_decimal(&mut t, (n % 10) as usize);
        crate::strings::extend_chars(v, &t);
        assert(decimal((n % 10) as nat) =~= seq![crate::strings::digit_char((n % 10) as nat)]);
        assert(v@ =~= v0 + decimal(n as nat));
    }
}

fn push_id_debug(v: &mut Vec<char>, id: SymbolId)
    ensures
        final(v)@ == old(v)@ + id_debug(id),
{
    let ghost v0 = v@;
    extend_str(v, "SymbolId(");
    let x = id.0;
    if x < 0 {
        extend_str(v, "-");
        let m: u64 = ((-(x + 1)) as u64) + 1;
        assert(m == -(x as int));
        push_u64_decimal(v, m);
    } else {
        push_u64_decimal(v, x as u64);
    }
    extend_str(v, ")");
    assert(v@ =~= v0 + id_debug(id));
}

fn push_node_name(v: &mut Vec<char>, root: &LanguageObject, nodes: &Vec<LanguageObject>, id: SymbolId)
    ensures
        final(v)@ == old(v)@ + node_name(*root, nodes@, id),
{
    let ghost v0 = v@;
    let mut i: usize = nodes.len();
    assert(nodes@.take(nodes.len() as int) =~= nodes@);
    while i > 0
        invariant
            i <= nodes.len(),
            v@ == v0,
            v0 == old(v)@,
            node_name(*root, nodes@, id) == node_name(*root, nodes@.take(i as int), id),
        decreases i,
    {
        proof {
            assert(nodes@.take(i as int).drop_last() =~= nodes@.take(i - 1));
            assert(nodes@.take(i as int).last() == nodes@[i - 1]);
        }
        if nodes[i - 1].id == id {
            extend_str(v, nodes[i - 1].qualified_name.as_str());
            return;
        }
        i = i - 1;
    }
    assert(nodes@.take(0) =~= Seq::<LanguageObject>::empty());
    if root.id == id {
        extend_str(v, root.qualified_name.as_str());
    } else {
        extend_str(v, "unknown_");
        push_id_debug(v, id);
    }
}

fn push_joined(v: &mut Vec<char>, lines: &Vec<String>)
    ensures
        final(v)@ == old(v)@ + joined(str_views(lines@)),
{
    let ghost v0 = v@;
    let ghost lv = str_views(lines@);
    let mut i: usize = 0;
    while i < lines.len()
        invariant
            i <= lines.len(),
            lv == str_views(lines@),
            v@ == v0 + joined(lv.take(i as int)),
        decreases lines.len() - i,
    {
        extend_str(v, lines[i].as_str());
        extend_str(v, "\n");
        proof {
            assert(lv.take(i + 1).drop_last() =~= lv.take(i as int));
            assert(lv[i as int] == lines@[i as int]@);
        }
        i = i + 1;
        assert(v@ =~= v0 + joined(lv.take(i as int)));
    }
    assert(lv.take(lines.len() as int) =~= lv);
}

fn span_less(a: &ContextFileSpan, b: &ContextFileSpan) -> (r: bool)
    ensures
        r == span_before(*a, *b),
        r ==> !span_before(*b, *a),
{
    let ab = path_less(a.file_path.as_str(), b.file_path.as_str());
    let ba = path_less(b.file_path.as_str(), a.file_path.as_str());
    ab || (!ab && !ba && a.range.start_line < b.range.start_line)
}

/// The listing order of the file spans (see `stable_by_span`).
fn order_spans(fs: &Vec<ContextFileSpan>) -> (r: Vec<usize>)
    ensures
        stable_by_span(fs@, r@),
{
    let mut r: Vec<usize> = Vec::new();
    let mut j: usize = 0;
    while j < fs.len()
        invariant
            j <= fs.len(),
            stable_by_span(fs@.subrange(0, j as int), r@),
        decreases fs.len() - j,
    {
        let ghost sub = fs@.subrange(0, j as int);
        let mut pos: usize = r.len();
        while pos > 0 && span_less(&fs[j], &fs[r[pos - 1]])
            invariant
                pos <= r.len(),
                j < fs.len(),
                stable_by_span(sub, r@),
                sub == fs@.subrange(0, j as int),
                forall|t: int|
                    pos <= t < r.len() ==> span_before(fs@[j as int], fs@[#[trigger] r@[t] as int])
                        && !span_before(fs@[r@[t] as int], fs@[j as int]),
            decreases pos,
        {
            assert(r@[pos - 1] < j);
            pos = pos - 1;
        }
        let ghost r0 = r@;
        proof {
            if pos > 0 {
                assert(r0[pos - 1] < j);
                assert(sub[r0[pos - 1] as int] == fs@[r0[pos - 1] as int]);
            }
            lemma_insert_span(fs@, j, r0, pos as int);
        }
        r.insert(pos, j);
        j = j + 1;
    }
    assert(fs@.subrange(0, fs.len() as int) =~= fs@);
    r
}

proof fn lemma_insert_span(fs: Seq<ContextFileSpan>, j: usize, r0: Seq<usize>, pos: int)
    requires
        0 <= j < fs.len(),
        stable_by_span(fs.subrange(0, j as int), r0),
        0 <= pos <= r0.len(),
        forall|t: int|
            pos <= t < r0.len() ==> span_before(fs[j as int], fs[#[trigger] r0[t] as int])
                && !span_before(fs[r0[t] as int], fs[j as int]),
        pos > 0 ==> !span_before(fs[j as int], fs[r0[pos - 1] as int]),
    ensures
        stable_by_span(fs.subrange(0, j + 1), r0.insert(pos, j)),
{
    let sub = fs.subrange(0, j as int);
    let sub2 = fs.subrange(0, j + 1);
    let r = r0.insert(pos, j);
    crate::sorting::lemma_insert_perm(r0, pos, j);
    assert forall|i: int| 0 < i < r.len() implies {
        &&& !span_before(sub2[#[trigger] r[i] as int], sub2[r[i - 1] as int])
        &&& (!span_before(sub2[r[i - 1] as int], sub2[r[i] as int]) ==> r[i - 1] < r[i])
    } by {
        if i < pos {
            assert(r[i - 1] == r0[i - 1] && r[i] == r0[i]);
            assert(sub[r0[i] as int] == sub2[r0[i] as int]);
            assert(sub[r0[i - 1] as int] == sub2[r0[i - 1] as int]);
        } else if i == pos {
            assert(r[i - 1] == r0[i - 1]);
            assert(r0[i - 1] < j);
        } else if i == pos + 1 {
            assert(r[i] == r0[pos]);
            assert(span_before(fs[j as int], fs[r0[pos] as int]));
        } else {
            assert(r[i - 1] == r0[i - 2] && r[i] == r0[i - 1]);
            assert(sub[r0[i - 1] as int] == sub2[r0[i - 1] as int]);
            assert(sub[r0[i - 2] as int] == sub2[r0[i - 2] as int]);
        }
    }
}

fn fence_language(p: &str) -> (s: &'static str)
    ensures
        s@ == fence_lang(p@),
{
    match path_extension(p) {
        Some(e) => {
            let e = e.as_str();
            if crate::strings::str_eq(e, "rs") {
                "rust"
            } else if crate::strings::str_eq(e, "py") {
                "python"
            } else if crate::strings::str_eq(e, "js") {
                "javascript"
            } else if crate::strings::str_eq(e, "ts") {
                "typescript"
            } else if crate::strings::str_eq(e, "tsx") {
                "tsx"
            } else if crate::strings::str_eq(e, "jsx") {
                "jsx"
            } else {
                ""
            }
        },
        None => "",
    }
}

fn push_file_block(v: &mut Vec<char>, f: &ContextFileSpan, content: &String, root_path: &str)
    ensures
        final(v)@ == old(v)@ + file_block(*f, content@, root_path@),
{
    let ghost v0 = v@;
    let rel = relative_path(f.file_path.as_str(), root_path);
    extend_str(v, "### ");
    extend_str(v, rel.as_str());
    extend_str(v, ":");
    push_decimal(v, f.range.start_line);
    extend_str(v, "-");
    push_decimal(v, f.range.end_line);
    extend_str(v, "\n\n");
    extend_str(v, "```");
    extend_str(v, fence_language(f.file_path.as_str()));
    extend_str(v, "\n");
    extend_str(v, content.as_str());
    let ghost v1 = v@;
    let n = content.as_str().unicode_len();
    if n > 0 && content.as_str().get_char(n - 1) != '\n' {
        v.push('\n');
    }
    let ghost v2 = v@;
    extend_str(v, "```\n\n");
    proof {
        reveal_strlit("\n");
        let tail: Seq<char> = if content@.len() > 0 && content@.last() != '\n' {
            "\n"@
        } else {
            Seq::empty()
        };
        assert(v2 =~= v1 + tail);
        assert(v@ =~= v0 + file_block(*f, content@, root_path@));
    }
}

fn push_header_root(v: &mut Vec<char>, root: &LanguageObject, root_path: &str)
    ensures
        final(v)@ == old(v)@ + header_root(*root, root_path@),
{
    let ghost v0 = v@;
    let rel = relative_path(root.file_path.as_str(), root_path);
    extend_str(v, "# Graph Context\n\n");
    extend_str(v, "Root: ");
    extend_str(v, kind_to_str(root.kind));
    extend_str(v, " ");
    extend_str(v, root.name.as_str());
    extend_str(v, "\n");
    extend_str(v, "Path: ");
    extend_str(v, rel.as_str());
    extend_str(v, ":");
    push_decimal(v, root.range.start_line);
    extend_str(v, "-");
    push_decimal(v, root.range.end_line);
    extend_str(v, "\n");
    assert(v@ =~= v0 + header_root(*root, root_path@));
}

fn push_header_params(
    v: &mut Vec<char>,
    mode: GraphContextMode,
    depth: usize,
    max_nodes: usize,
    max_files: usize,
)
    ensures
        final(v)@ == old(v)@ + header_params(mode, depth as nat, max_nodes as nat, max_files as nat),
{
    let ghost v0 = v@;
    extend_str(v, "Mode: ");
    extend_str(v, mode_name(mode));
    extend_str(v, "\n");
    extend_str(v, "Depth: ");
    push_decimal(v, depth);
    extend_str(v, "\n");
    extend_str(v, "Max nodes: ");
    push_decimal(v, max_nodes);
    extend_str(v, "\n");
    extend_str(v, "Max files: ");
    push_decimal(v, max_files);
    extend_str(v, "\n\n");
    assert(v@ =~= v0 + header_params(mode, depth as nat, max_nodes as nat, max_files as nat));
}

fn edge_line_strings(root: &LanguageObject, nodes: &Vec<LanguageObject>, edges: &Vec<GraphContextEdge>) -> (r:
    Vec<String>)
    ensures
        str_views(r@) == edge_texts(*root, nodes@, edges@),
{
    let mut r: Vec<String> = Vec::new();
    let mut i: usize = 0;
    while i < edges.len()
        invariant
            i <= edges.len(),
            str_views(r@) == edge_texts(*root, nodes@, edges@.take(i as int)),
        decreases edges.len() - i,
    {
        let mut v: Vec<char> = Vec::new();
        push_node_name(&mut v, root, nodes, edges[i].from);
        extend_str(&mut v, " -> ");
        push_node_name(&mut v, root, nodes, edges[i].to);
        let ghost r0 = r@;
        r.push(string_from_chars(&v));
        proof {
            assert(v@ =~= edge_text(*root, nodes@, edges@[i as int]));
            assert(str_views(r@) =~= str_views(r0).push(v@));
        }
        i = i + 1;
        assert(str_views(r@) =~= edge_texts(*root, nodes@, edges@.take(i as int)));
    }
    assert(edges@.take(edges.len() as int) =~= edges@);
    r
}

fn symbol_line_strings(root: &LanguageObject, nodes: &Vec<LanguageObject>, root_path: &str) -> (r: Vec<
    String,
>)
    ensures
        str_views(r@) == symbol_texts(*root, nodes@, root_path@),
{
    let mut r: Vec<String> = Vec::new();
    r.push(format_symbol_line(root, root_path));
    let mut i: usize = 0;
    while i < nodes.len()
        invariant
            i <= nodes.len(),
            str_views(r@) == symbol_texts(*root, nodes@.take(i as int), root_path@),
        decreases nodes.len() - i,
    {
        let ghost r0 = r@;
        let line = format_symbol_line(&nodes[i], root_path);
        r.push(line);
        proof {
            assert(str_views(r@) =~= str_views(r0).push(line@));
        }
        i = i + 1;
        assert(str_views(r@) =~= symbol_texts(*root, nodes@.take(i as int), root_path@));
    }
    assert(nodes@.take(nodes.len() as int) =~= nodes@);
    r
}

/// The Markdown report of a context result: the root and the query, the edges
/// and the included symbols (each list sorted), then the file spans in listing
/// order with their contents (`contents[i]` is the text of the `i`-th span), at
/// most `max_files` of them unless it is 0, and a note on those left out.
pub fn render_context_to_markdown(
    result: &GraphContextResult,
    root_path: &str,
    mode: GraphContextMode,
    depth: usize,
    max_nodes: usize,
    max_files: usize,
    contents: &Vec<String>,
) -> (s: String)
    requires
        contents.len() == result.files.len(),
    ensures
        exists|es: Seq<Seq<char>>, ss: Seq<Seq<char>>, ord: Seq<usize>|
            is_sorted_permutation(edge_texts(result.root, result.nodes@, result.edges@), es)
                && is_sorted_permutation(symbol_texts(result.root, result.nodes@, root_path@), ss)
                && stable_by_span(result.files@, ord) && #[trigger] markdown_text(
                *result,
                root_path@,
                mode,
                depth as nat,
                max_nodes as nat,
                max_files as nat,
                contents@,
                es,
                ss,
                ord,
            ) == s@,
{
    let mut out: Vec<char> = Vec::new();
    push_header_root(&mut out, &result.root, root_path);
    push_header_params(&mut out, mode, depth, max_nodes, max_files);
    extend_str(&mut out, "## Graph\n\n");
    let edge_lines = sort_strings(&edge_line_strings(&result.root, &result.nodes, &result.edges));
    push_joined(&mut out, &edge_lines);
    extend_str(&mut out, "\n");
    extend_str(&mut out, "## Included Symbols\n\n");
    let symbol_lines = sort_strings(&symbol_line_strings(&result.root, &result.nodes, root_path));
    push_joined(&mut out, &symbol_lines);
    extend_str(&mut out, "\n");
    extend_str(&mut out, "## Files\n\n");
    let ghost before_files = out@;
    let ord = order_spans(&result.files);
    let n = result.files.len();
    let shown = if max_files == 0 || n < max_files {
        n
    } else {
        max_files
    };
    let mut i: usize = 0;
    while i < shown
        invariant
            i <= shown,
            shown <= n,
            n == result.files.len(),
            contents.len() == n,
            ord.len() == n,
            forall|t: int| 0 <= t < ord.len() ==> #[trigger] ord@[t] < n,
            out@ == before_files + file_blocks(
                result.files@,
                contents@,
                ord@,
                i as nat,
                root_path@,
            ),
        decreases shown - i,
    {
        let k = ord[i];
        push_file_block(&mut out, &result.files[k], &contents[k], root_path);
        i = i + 1;
        assert(out@ =~= before_files + file_blocks(
            result.files@,
            contents@,
            ord@,
            i as nat,
            root_path@,
        ));
    }
    let ghost before_note = out@;
    if n > shown {
        extend_str(&mut out, "_(");
        push_decimal(&mut out, n - shown);
        extend_str(&mut out, " additional files omitted due to max_files limit)_\n");
    }
    let s = string_from_chars(&out);
    assert(markdown_text(
        *result,
        root_path@,
        mode,
        depth as nat,
        max_nodes as nat,
        max_files as nat,
        contents@,
        str_views(edge_lines@),
        str_views(symbol_lines@),
        ord@,
    ) =~= s@);
    s
}

} // verus!
