//! The Rust syntax tree of a source file, as a list of nodes in document order.
//!
//! The tree comes from tree-sitter's Rust grammar. Each node is listed before
//! its children, which follow in order, with its depth in the tree; the parent of
//! a node is the nearest earlier node that is less deep, and its previous sibling
//! the nearest earlier node at the same depth with none less deep in between.
use vstd::prelude::*;
use tree_sitter::Parser;
use tree_sitter_rust::LANGUAGE;

verus! {

/// A node: its kind, the name of the field it fills in its parent (if any), its
/// depth, its source text, and its 0-based start row and column and end row and
/// column.
pub type SyntaxNode = (String, Option<String>, usize, String, (usize, usize, usize, usize));

/// The view of a node.
pub type NodeView = (Seq<char>, Option<Seq<char>>, usize, Seq<char>, (usize, usize, usize, usize));

pub open spec fn node_view(n: SyntaxNode) -> NodeView {
    (
        n.0@,
        match n.1 {
            Some(f) => Some(f@),
            None => None,
        },
        n.2,
        n.3@,
        n.4,
    )
}

pub open spec fn nodes_view(ns: Seq<SyntaxNode>) -> Seq<NodeView> {
    ns.map_values(|n: SyntaxNode| node_view(n))
}

/// The view of a syntax outcome: whether the tree holds a syntax error, and its
/// nodes; nothing when no tree was built.
pub open spec fn outcome_view(o: Option<(bool, Vec<SyntaxNode>)>) -> Option<(bool, Seq<NodeView>)> {
    match o {
        Some((err, ns)) => Some((err, nodes_view(ns@))),
        None => None,
    }
}

/// The syntax outcome tree-sitter's Rust grammar gives for a source text: whether
/// the tree holds a syntax error, and its nodes in document order.
pub uninterp spec fn rust_syntax_of(source: Seq<char>) -> Option<(bool, Seq<NodeView>)>;

/// Parses `source` with tree-sitter-rust's grammar (`Parser::parse`) and lists
/// the nodes as `TreeCursor::goto_descendant` visits them, with the root's
/// `has_error`. Trusted: the result is `rust_syntax_of(source)`.
#[verifier::external_body]
fn rust_syntax_nodes(source: &str) -> (r: Option<(bool, Vec<SyntaxNode>)>)
    ensures
        outcome_view(r) == rust_syntax_of(source@),
{
    let mut p = Parser::new();
    p.set_language(&LANGUAGE.into()).ok()?;
    let tree = p.parse(source, None)?;
    let mut c = tree.walk();
    Some((tree.root_node().has_error(), (0..tree.root_node().descendant_count()).map(|i| {
        c.goto_descendant(i);
        let n = c.node();
        let (a, b) = (n.start_position(), n.end_position());
        (n.kind().into(), c.field_name().map(Into::into), c.depth() as _, n.utf8_text(source.as_bytes()).unwrap_or("").into(), (a.row, a.column, b.row, b.column))
    }).collect()))
}

/// Parses Rust source with tree-sitter's Rust grammar and lists the tree's nodes
/// in document order, with whether the tree holds a syntax error; nothing when the
/// grammar is refused or the parser gives no tree.
pub fn parse_rust_syntax(source: &str) -> (r: Option<(bool, Vec<SyntaxNode>)>)
    ensures
        outcome_view(r) == rust_syntax_of(source@),
{
    rust_syntax_nodes(source)
}

/// The nearest node before `i` less deep than `d`, or -1.
pub open spec fn nearest_below(ns: Seq<NodeView>, i: int, d: usize) -> int
    decreases i,
{
    if i <= 0 {
        -1
    } else if ns[i - 1].2 < d {
        i - 1
    } else {
        nearest_below(ns, i - 1, d)
    }
}

/// The nearest node before `i` at most `d` deep, or -1.
pub open spec fn nearest_at_most(ns: Seq<NodeView>, i: int, d: usize) -> int
    decreases i,
{
    if i <= 0 {
        -1
    } else if ns[i - 1].2 <= d {
        i - 1
    } else {
        nearest_at_most(ns, i - 1, d)
    }
}

/// The parent of node `i`, or -1 for a root.
pub open spec fn parent_of(ns: Seq<NodeView>, i: int) -> int {
    nearest_below(ns, i, ns[i].2)
}

/// The previous sibling of node `i`, or -1.
pub open spec fn prev_sibling_of(ns: Seq<NodeView>, i: int) -> int {
    let j = nearest_at_most(ns, i, ns[i].2);
    if j >= 0 && ns[j].2 == ns[i].2 {
        j
    } else {
        -1
    }
}

pub proof fn lemma_nearest_below_range(ns: Seq<NodeView>, i: int, d: usize)
    ensures
        -1 <= nearest_below(ns, i, d) < i || (i <= 0 && nearest_below(ns, i, d) == -1),
        nearest_below(ns, i, d) >= 0 ==> ns[nearest_below(ns, i, d)].2 < d,
        forall|k: int| nearest_below(ns, i, d) < k < i ==> ns[k].2 >= d,
    decreases i,
{
    if i > 0 && !(ns[i - 1].2 < d) {
        lemma_nearest_below_range(ns, i - 1, d);
    }
}

pub proof fn lemma_nearest_at_most_range(ns: Seq<NodeView>, i: int, d: usize)
    ensures
        -1 <= nearest_at_most(ns, i, d) < i || (i <= 0 && nearest_at_most(ns, i, d) == -1),
        nearest_at_most(ns, i, d) >= 0 ==> ns[nearest_at_most(ns, i, d)].2 <= d,
        forall|k: int| nearest_at_most(ns, i, d) < k < i ==> ns[k].2 > d,
    decreases i,
{
    if i > 0 && !(ns[i - 1].2 <= d) {
        lemma_nearest_at_most_range(ns, i - 1, d);
    }
}

/// The nearest node before `i` less deep than `d` is found by following parents
/// from any later node at least `d` deep: everything in between is that deep.
pub proof fn lemma_nearest_below_jump(ns: Seq<NodeView>, i: int, j: int, d: usize)
    requires
        0 <= j < i <= ns.len(),
        forall|k: int| j < k < i ==> ns[k].2 >= d,
        ns[j].2 >= d,
    ensures
        nearest_below(ns, i, d) == nearest_below(ns, j, d),
    decreases i - j,
{
    if i - 1 > j {
        lemma_nearest_below_jump(ns, i - 1, j, d);
    }
}

/// A search from `i` ends where a search from `j` does when the nodes from `j`
/// to `i` are all at least `d` deep.
pub proof fn lemma_nearest_below_skip(ns: Seq<NodeView>, i: int, j: int, d: usize)
    requires
        0 <= j <= i <= ns.len(),
        forall|k: int| j <= k < i ==> ns[k].2 >= d,
    ensures
        nearest_below(ns, i, d) == nearest_below(ns, j, d),
    decreases i - j,
{
    if i > j {
        lemma_nearest_below_skip(ns, i - 1, j, d);
    }
}

pub proof fn lemma_nearest_at_most_skip(ns: Seq<NodeView>, i: int, j: int, d: usize)
    requires
        0 <= j <= i <= ns.len(),
        forall|k: int| j <= k < i ==> ns[k].2 > d,
    ensures
        nearest_at_most(ns, i, d) == nearest_at_most(ns, j, d),
    decreases i - j,
{
    if i > j {
        lemma_nearest_at_most_skip(ns, i - 1, j, d);
    }
}

/// The parent of every node, or -1 (see `parent_of`).
pub fn parents(ns: &Vec<SyntaxNode>) -> (r: Vec<i64>)
    requires
        ns.len() < i64::MAX,
    ensures
        r.len() == ns.len(),
        forall|i: int| 0 <= i < ns.len() ==> #[trigger] r@[i] == parent_of(nodes_view(ns@), i),
{
    let ghost nv = nodes_view(ns@);
    let mut r: Vec<i64> = Vec::new();
    let mut i: usize = 0;
    while i < ns.len()
        invariant
            i <= ns.len(),
            ns.len() < i64::MAX,
            nv == nodes_view(ns@),
            r.len() == i,
            forall|k: int| 0 <= k < i ==> #[trigger] r@[k] == parent_of(nv, k),
        decreases ns.len() - i,
    {
        let d = ns[i].2;
        assert(nv[i as int].2 == d);
        // walk up from the previous node until one is less deep
        let mut j: i64 = i as i64 - 1;
        proof {
            lemma_nearest_below_skip(nv, i as int, i as int, d);
        }
        while j >= 0 && ns[j as usize].2 >= d
            invariant
                -1 <= j < i,
                i < ns.len(),
                nv == nodes_view(ns@),
                d == nv[i as int].2,
                r.len() == i,
                forall|k: int| 0 <= k < i ==> #[trigger] r@[k] == parent_of(nv, k),
                j >= 0 ==> nearest_below(nv, i as int, d) == nearest_below(nv, j + 1, d),
                j < 0 ==> nearest_below(nv, i as int, d) == -1,
            decreases j + 1,
        {
            let ghost jj = j as int;
            assert(nv[jj].2 == ns@[jj].2);
            let p = r[j as usize];
            proof {
                // the nodes between j's parent and j are all at least as deep as j
                lemma_nearest_below_range(nv, jj, nv[jj].2);
                assert(nearest_below(nv, jj + 1, d) == nearest_below(nv, jj, d));
                if p >= 0 {
                    assert forall|k: int| p < k < jj implies nv[k].2 >= d by {
                    }
                    lemma_nearest_below_skip(nv, jj, p + 1, d);
                    assert(nearest_below(nv, p + 1, d) == if nv[p as int].2 < d {
                        p as int
                    } else {
                        nearest_below(nv, p as int, d)
                    });
                } else {
                    assert forall|k: int| 0 <= k < jj implies nv[k].2 >= d by {
                    }
                    lemma_nearest_below_skip(nv, jj, 0, d);
                }
            }
            j = p;
        }
        proof {
            if j >= 0 {
                assert(nv[j as int].2 < d);
                assert(nearest_below(nv, j + 1, d) == j);
            }
        }
        r.push(j);
        i = i + 1;
    }
    r
}

/// The previous sibling of every node is found by following parents from the
/// node before it (see `prev_sibling_of`).
pub fn prev_sibling(ns: &Vec<SyntaxNode>, parents: &Vec<i64>, i: usize) -> (r: i64)
    requires
        i < ns.len() < i64::MAX,
        parents.len() == ns.len(),
        forall|k: int| 0 <= k < ns.len() ==> #[trigger] parents@[k] == parent_of(nodes_view(ns@), k),
    ensures
        r == prev_sibling_of(nodes_view(ns@), i as int),
{
    let ghost nv = nodes_view(ns@);
    let d = ns[i].2;
    assert(nv[i as int].2 == d);
    let mut j: i64 = i as i64 - 1;
    while j >= 0 && ns[j as usize].2 > d
        invariant
            -1 <= j < i,
            i < ns.len() < i64::MAX,
            nv == nodes_view(ns@),
            d == nv[i as int].2,
            parents.len() == ns.len(),
            forall|k: int| 0 <= k < ns.len() ==> #[trigger] parents@[k] == parent_of(nv, k),
            j >= 0 ==> nearest_at_most(nv, i as int, d) == nearest_at_most(nv, j + 1, d),
            j < 0 ==> nearest_at_most(nv, i as int, d) == -1,
        decreases j + 1,
    {
        let ghost jj = j as int;
        assert(nv[jj].2 == ns@[jj].2);
        let p = parents[j as usize];
        proof {
            lemma_nearest_below_range(nv, jj, nv[jj].2);
            assert(nearest_at_most(nv, jj + 1, d) == nearest_at_most(nv, jj, d));
            if p >= 0 {
                assert forall|k: int| p + 1 <= k < jj implies nv[k].2 > d by {
                }
                lemma_nearest_at_most_skip(nv, jj, p + 1, d);
            } else {
                assert forall|k: int| 0 <= k < jj implies nv[k].2 > d by {
                }
                lemma_nearest_at_most_skip(nv, jj, 0, d);
            }
        }
        j = p;
    }
    if j >= 0 {
        assert(nv[j as int].2 == ns@[j as int].2);
        assert(nearest_at_most(nv, j + 1, d) == j);
        if ns[j as usize].2 == d {
            j
        } else {
            -1
        }
    } else {
        -1
    }
}

/// The first child of node `j`, from position `k` on, that fills field `f`.
pub open spec fn field_child_from(ns: Seq<NodeView>, j: int, f: Seq<char>, k: int) -> int
    decreases ns.len() - k,
{
    if k >= ns.len() || k < 0 {
        -1
    } else if parent_of(ns, k) == j && ns[k].1 == Some(f) {
        k
    } else {
        field_child_from(ns, j, f, k + 1)
    }
}

/// The first child of node `j` that fills field `f`, or -1 (`child_by_field_name`).
pub open spec fn field_child(ns: Seq<NodeView>, j: int, f: Seq<char>) -> int {
    field_child_from(ns, j, f, j + 1)
}

proof fn lemma_no_child_after(ns: Seq<NodeView>, j: int, f: Seq<char>, k: int, stop: int)
    requires
        0 <= j < stop <= k,
        stop < ns.len(),
        ns[stop].2 <= ns[j].2,
    ensures
        field_child_from(ns, j, f, k) == -1,
    decreases ns.len() - k,
{
    if k < ns.len() {
        if parent_of(ns, k) == j {
            lemma_nearest_below_range(ns, k, ns[k].2);
            if k == stop {
            } else {
                assert(j < stop < k);
            }
        }
        lemma_no_child_after(ns, j, f, k + 1, stop);
    }
}

/// The first child of node `j` that fills field `f` (see `field_child`).
pub fn find_field_child(ns: &Vec<SyntaxNode>, parents: &Vec<i64>, j: usize, f: &str) -> (r: i64)
    requires
        j < ns.len() < i64::MAX,
        parents.len() == ns.len(),
        forall|k: int| 0 <= k < ns.len() ==> #[trigger] parents@[k] == parent_of(nodes_view(ns@), k),
    ensures
        r == field_child(nodes_view(ns@), j as int, f@),
        r == -1 || (j < r < ns.len()),
{
    let ghost nv = nodes_view(ns@);
    let d = ns[j].2;
    assert(nv[j as int].2 == d);
    let mut k: usize = j + 1;
    while k < ns.len()
        invariant
            j < k <= ns.len(),
            ns.len() < i64::MAX,
            nv == nodes_view(ns@),
            d == nv[j as int].2,
            parents.len() == ns.len(),
            forall|q: int| 0 <= q < ns.len() ==> #[trigger] parents@[q] == parent_of(nv, q),
            field_child(nv, j as int, f@) == field_child_from(nv, j as int, f@, k as int),
        decreases ns.len() - k,
    {
        assert(nv[k as int].2 == ns@[k as int].2);
        if ns[k].2 <= d {
            proof {
                lemma_no_child_after(nv, j as int, f@, k as int, k as int);
            }
            return -1;
        }
        let is_field = match &ns[k].1 {
            Some(name) => crate::strings::str_eq(name.as_str(), f),
            None => false,
        };
        assert(is_field == (nv[k as int].1 == Some(f@)));
        if parents[k] == j as i64 && is_field {
            return k as i64;
        }
        k = k + 1;
    }
    -1
}

} // verus!
