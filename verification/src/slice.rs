//! Forward and reverse slices of the call graph, computed breadth first.
use vstd::prelude::*;
use vstd::set_lib::lemma_len_subset;
use crate::model::{CodeIndex, GraphEdge, Symbol, SymbolId, SymbolKind};

verus! {

pub struct SliceOptions {
    pub max_depth: usize,
    pub max_nodes: Option<usize>,
    pub include_tests: bool,
}

/// `i` is the first position of `syms` whose symbol has id `id`.
pub open spec fn is_first_with_id(syms: Seq<Symbol>, i: int, id: SymbolId) -> bool {
    &&& 0 <= i < syms.len()
    &&& syms[i].id == Some(id)
    &&& forall|j: int| 0 <= j < i ==> syms[j].id != Some(id)
}

/// A symbol is left out of a slice when tests are excluded and the first symbol
/// carrying its id is a test.
pub open spec fn is_excluded(syms: Seq<Symbol>, id: SymbolId, include_tests: bool) -> bool {
    &&& !include_tests
    &&& exists|i: int| #[trigger] is_first_with_id(syms, i, id) && syms[i].kind == SymbolKind::Test
}

/// Edge `e` leads from `a` to `b` when followed forwards (caller to callee)
/// or backwards (callee to caller).
pub open spec fn edge_links(e: GraphEdge, forward: bool, a: SymbolId, b: SymbolId) -> bool {
    if forward {
        e.from_symbol_id == Some(a) && e.to_symbol_id == Some(b)
    } else {
        e.to_symbol_id == Some(a) && e.from_symbol_id == Some(b)
    }
}

/// Some edge leads from `a` to `b` in the given direction.
pub open spec fn steps_to(edges: Seq<GraphEdge>, forward: bool, a: SymbolId, b: SymbolId) -> bool {
    exists|k: int| 0 <= k < edges.len() && #[trigger] edge_links(edges[k], forward, a, b)
}

/// Result `i` is one step from an earlier result that is one level shallower
/// and still below the depth limit.
pub open spec fn has_parent(
    edges: Seq<GraphEdge>,
    forward: bool,
    res: Seq<SymbolId>,
    ds: Seq<nat>,
    max_depth: nat,
    i: int,
) -> bool {
    exists|j: int|
        0 <= j < i && ds[j] < max_depth && ds[i] as int == ds[j] as int + 1 && #[trigger] steps_to(
            edges,
            forward,
            res[j],
            res[i],
        )
}

/// `ds` gives each result a BFS depth: the first result is at depth 0, depths never
/// decrease along the result, none exceeds `max_depth`, and every later result is
/// reached by one step from an earlier result one level shallower.
pub open spec fn bfs_layers(
    edges: Seq<GraphEdge>,
    forward: bool,
    res: Seq<SymbolId>,
    ds: Seq<nat>,
    max_depth: nat,
) -> bool {
    &&& ds.len() == res.len()
    &&& (res.len() > 0 ==> ds[0] == 0)
    &&& forall|i: int, j: int| 0 <= i <= j < res.len() ==> ds[i] <= ds[j]
    &&& forall|i: int| 0 <= i < res.len() ==> ds[i] <= max_depth
    &&& forall|i: int| 0 < i < res.len() ==> #[trigger] has_parent(edges, forward, res, ds, max_depth, i)
}

/// Every symbol one step away from a result that is shallower than `max_depth`
/// is itself a result, or is an excluded test.
pub open spec fn bfs_closed(
    syms: Seq<Symbol>,
    edges: Seq<GraphEdge>,
    forward: bool,
    res: Seq<SymbolId>,
    ds: Seq<nat>,
    max_depth: nat,
    include_tests: bool,
) -> bool {
    forall|i: int, w: SymbolId|
        0 <= i < res.len() && ds[i] < max_depth && #[trigger] steps_to(edges, forward, res[i], w)
            ==> res.contains(w) || is_excluded(syms, w, include_tests)
}

pub open spec fn bfs_witness(
    index: CodeIndex,
    forward: bool,
    opts: SliceOptions,
    res: Seq<SymbolId>,
    ds: Seq<nat>,
) -> bool {
    &&& bfs_layers(index.edges@, forward, res, ds, opts.max_depth as nat)
    &&& ((opts.max_nodes is None || res.len() < opts.max_nodes->0) ==> bfs_closed(
        index.symbols@,
        index.edges@,
        forward,
        res,
        ds,
        opts.max_depth as nat,
        opts.include_tests,
    ))
}

/// What a slice from `start` is: a duplicate-free list that begins with `start`
/// (unless `start` is an excluded test or no node is allowed), holds no excluded
/// test, respects the node limit, and is laid out in breadth-first layers that are
/// closed under one more step whenever the node limit did not cut the walk short.
pub open spec fn is_slice(
    index: CodeIndex,
    forward: bool,
    start: SymbolId,
    opts: SliceOptions,
    res: Seq<SymbolId>,
) -> bool {
    &&& res.no_duplicates()
    &&& forall|i: int|
        0 <= i < res.len() ==> !is_excluded(index.symbols@, #[trigger] res[i], opts.include_tests)
    &&& (opts.max_nodes matches Some(l) ==> res.len() <= l)
    &&& (res.len() > 0 ==> res[0] == start)
    &&& (res.len() == 0 <==> (is_excluded(index.symbols@, start, opts.include_tests)
        || opts.max_nodes == Some(0usize)))
    &&& exists|ds: Seq<nat>| #[trigger] bfs_witness(index, forward, opts, res, ds)
}

/// Edge `k` is the first edge that leads from `a` to `b`.
pub open spec fn is_first_edge(edges: Seq<GraphEdge>, forward: bool, a: SymbolId, b: SymbolId, k: int) -> bool {
    &&& 0 <= k < edges.len()
    &&& edge_links(edges[k], forward, a, b)
    &&& forall|k2: int| 0 <= k2 < k ==> !#[trigger] edge_links(edges[k2], forward, a, b)
}

/// Result `i` was discovered from result `p` along edge `k`: `p` is the first
/// result, in result order, that is shallower than the depth limit and leads to
/// result `i`, and `k` is the first edge by which it does; result `i` lies one
/// level below it.
pub open spec fn discovered_from(
    edges: Seq<GraphEdge>,
    forward: bool,
    res: Seq<SymbolId>,
    ds: Seq<nat>,
    max_depth: nat,
    i: int,
    p: int,
    k: int,
) -> bool {
    &&& 0 <= p < i
    &&& ds[p] < max_depth
    &&& ds[i] == ds[p] + 1
    &&& is_first_edge(edges, forward, res[p], res[i], k)
    &&& forall|j: int|
        0 <= j < p && ds[j] < max_depth ==> !#[trigger] steps_to(edges, forward, res[j], res[i])
}

/// `(p1, k1)` comes before `(p2, k2)`: by the first, then by the second.
pub open spec fn key_less(p1: int, k1: int, p2: int, k2: int) -> bool {
    p1 < p2 || (p1 == p2 && k1 < k2)
}

/// The order of a breadth-first walk that takes the neighbours of each result
/// in edge order: each result after the first was discovered from result `ps[i]`
/// along edge `ks[i]`, the results come in the order of those pairs, and no
/// symbol that a result leads to within the depth limit was passed over: it is a
/// result, an excluded test, or it would come after every result (the node limit
/// stopped the walk first).
pub open spec fn bfs_order(
    index: CodeIndex,
    forward: bool,
    opts: SliceOptions,
    res: Seq<SymbolId>,
    ds: Seq<nat>,
    ps: Seq<int>,
    ks: Seq<int>,
) -> bool {
    let edges = index.edges@;
    let md = opts.max_depth as nat;
    &&& ps.len() == res.len()
    &&& ks.len() == res.len()
    &&& forall|i: int| 0 < i < res.len() ==> #[trigger] discovered_from(edges, forward, res, ds, md, i, ps[i], ks[i])
    &&& forall|i: int, j: int| #![trigger ps[i], ps[j]] 0 < i < j < res.len() ==> key_less(ps[i], ks[i], ps[j], ks[j])
    &&& forall|j: int, k: int, x: SymbolId|
        0 <= j < res.len() && ds[j] < md && 0 <= k < edges.len() && #[trigger] edge_links(
            edges[k],
            forward,
            res[j],
            x,
        ) ==> res.contains(x) || is_excluded(index.symbols@, x, opts.include_tests) || forall|i: int|
            0 < i < res.len() ==> #[trigger] key_less(ps[i], ks[i], j, k)
}

/// The results of a slice come in breadth-first order, each layer ordered by
/// where its symbols were discovered (see `bfs_order`).
pub open spec fn in_bfs_order(index: CodeIndex, forward: bool, opts: SliceOptions, res: Seq<SymbolId>) -> bool {
    exists|ds: Seq<nat>, ps: Seq<int>, ks: Seq<int>|
        bfs_witness(index, forward, opts, res, ds) && #[trigger] bfs_order(index, forward, opts, res, ds, ps, ks)
}

pub open spec fn qids(q: Seq<(SymbolId, usize)>) -> Seq<SymbolId> {
    q.map_values(|p: (SymbolId, usize)| p.0)
}

pub open spec fn edge_far_end(e: GraphEdge, forward: bool, dflt: SymbolId) -> SymbolId {
    if forward {
        match e.to_symbol_id {
            Some(t) => t,
            None => dflt,
        }
    } else {
        match e.from_symbol_id {
            Some(t) => t,
            None => dflt,
        }
    }
}

/// Every symbol a slice can reach: the start and the far end of each edge.
pub open spec fn universe(edges: Seq<GraphEdge>, forward: bool, start: SymbolId) -> Seq<SymbolId> {
    Seq::new(
        (edges.len() + 1) as nat,
        |i: int|
            if i == 0 {
                start
            } else {
                edge_far_end(edges[i - 1], forward, start)
            },
    )
}

proof fn lemma_distinct_within(q: Seq<SymbolId>, u: Seq<SymbolId>)
    requires
        q.no_duplicates(),
        forall|i: int| 0 <= i < q.len() ==> u.contains(#[trigger] q[i]),
    ensures
        q.len() <= u.len(),
{
    q.unique_seq_to_set();
    u.lemma_cardinality_of_set();
    assert(q.to_set().subset_of(u.to_set()));
    lemma_len_subset(q.to_set(), u.to_set());
}

/// Whether `id` names a test that the options exclude.
fn excluded_exec(symbols: &Vec<Symbol>, id: SymbolId, include_tests: bool) -> (r: bool)
    ensures
        r == is_excluded(symbols@, id, include_tests),
{
    let mut i: usize = 0;
    while i < symbols.len()
        invariant
            i <= symbols.len(),
            forall|j: int| 0 <= j < i ==> symbols@[j].id != Some(id),
        decreases symbols.len() - i,
    {
        let matches = match symbols[i].id {
            Some(sid) => sid.0 == id.0,
            None => false,
        };
        if matches {
            assert(is_first_with_id(symbols@, i as int, id));
            if include_tests {
                return false;
            }
            let is_test = symbols[i].kind == SymbolKind::Test;
            proof {
                if !is_test {
                    assert forall|k: int| #[trigger]
                        is_first_with_id(symbols@, k, id) implies symbols@[k].kind
                        != SymbolKind::Test by {
                        assert(k == i);
                    }
                }
            }
            return is_test;
        }
        i = i + 1;
    }
    false
}

fn queue_has(q: &Vec<(SymbolId, usize)>, id: SymbolId) -> (r: bool)
    ensures
        r == qids(q@).contains(id),
{
    let mut i: usize = 0;
    while i < q.len()
        invariant
            i <= q.len(),
            forall|j: int| 0 <= j < i ==> qids(q@)[j] != id,
        decreases q.len() - i,
    {
        if q[i].0.0 == id.0 {
            assert(qids(q@)[i as int] == id);
            return true;
        }
        i = i + 1;
    }
    false
}

/// The symbol an edge leads to from `curr`, if it leads anywhere from `curr`.
fn far_end(e: &GraphEdge, forward: bool, curr: SymbolId) -> (r: Option<SymbolId>)
    ensures
        match r {
            Some(w) => edge_links(*e, forward, curr, w),
            None => forall|w: SymbolId| !edge_links(*e, forward, curr, w),
        },
{
    let (near, far) = if forward {
        (e.from_symbol_id, e.to_symbol_id)
    } else {
        (e.to_symbol_id, e.from_symbol_id)
    };
    match near {
        Some(n) => {
            if n.0 == curr.0 {
                far
            } else {
                None
            }
        },
        None => None,
    }
}

proof fn lemma_qids_push(q: Seq<(SymbolId, usize)>, p: (SymbolId, usize))
    ensures
        qids(q.push(p)) == qids(q).push(p.0),
        forall|k: int| 0 <= k < q.len() ==> #[trigger] qids(q.push(p))[k] == qids(q)[k],
{
    assert(qids(q.push(p)) =~= qids(q).push(p.0));
}

/// Ghost record of a breadth-first walk: the queue (ids with depths), how many
/// entries were taken from it, the results, for each queue entry the result it
/// was discovered from, for each result its queue position, and whether the node
/// limit stopped the walk.
pub ghost struct Walk {
    pub q: Seq<(SymbolId, usize)>,
    pub head: int,
    pub res: Seq<SymbolId>,
    pub qpar: Seq<int>,
    pub rq: Seq<int>,
    pub stopped: bool,
}

pub open spec fn depth_of(w: Walk, i: int) -> usize {
    w.q[w.rq[i]].1
}

/// Results `0..n` that are shallower than the depth limit have every neighbour queued.
pub open spec fn expanded_upto(index: CodeIndex, forward: bool, opts: SliceOptions, w: Walk, n: int) -> bool {
    forall|i: int, x: SymbolId|
        0 <= i < n && depth_of(w, i) < opts.max_depth && #[trigger] steps_to(
            index.edges@,
            forward,
            w.res[i],
            x,
        ) ==> qids(w.q).contains(x)
}

/// Facts about a walk that hold at every step.
pub open spec fn walk_core(index: CodeIndex, forward: bool, start: SymbolId, opts: SliceOptions, w: Walk) -> bool {
    let syms = index.symbols@;
    let edges = index.edges@;
    let u = universe(edges, forward, start);
    &&& 1 <= w.q.len() <= edges.len() + 1
    &&& 0 <= w.head <= w.q.len()
    &&& w.q[0] == (start, 0usize)
    &&& qids(w.q).no_duplicates()
    &&& forall|k: int| 0 <= k < w.q.len() ==> u.contains(#[trigger] qids(w.q)[k])
    &&& forall|k: int| 0 <= k < w.q.len() ==> (#[trigger] w.q[k]).1 <= opts.max_depth
    &&& forall|a: int, b: int| 0 <= a <= b < w.q.len() ==> w.q[a].1 <= w.q[b].1
    &&& w.qpar.len() == w.q.len()
    &&& w.rq.len() == w.res.len()
    &&& forall|i: int| 0 <= i < w.rq.len() ==> 0 <= #[trigger] w.rq[i] < w.head
    &&& forall|i: int, j: int| 0 <= i < j < w.rq.len() ==> w.rq[i] < w.rq[j]
    &&& forall|i: int| 0 <= i < w.rq.len() ==> w.res[i] == #[trigger] qids(w.q)[w.rq[i]]
    &&& (w.res.len() > 0 ==> w.rq[0] == 0)
    &&& forall|k: int|
        0 < k < w.q.len() ==> {
            &&& 0 <= #[trigger] w.qpar[k] < w.res.len()
            &&& depth_of(w, w.qpar[k]) < opts.max_depth
            &&& w.q[k].1 == depth_of(w, w.qpar[k]) + 1
            &&& steps_to(edges, forward, w.res[w.qpar[k]], w.q[k].0)
        }
    &&& forall|i: int| 0 < i < w.rq.len() ==> w.qpar[#[trigger] w.rq[i]] < i
    &&& forall|k: int|
        0 <= k < w.head ==> (exists|i: int| 0 <= i < w.rq.len() && #[trigger] w.rq[i] == k)
            || is_excluded(syms, (#[trigger] qids(w.q)[k]), opts.include_tests)
    &&& forall|i: int|
        0 <= i < w.res.len() ==> !is_excluded(syms, #[trigger] w.res[i], opts.include_tests)
    &&& (opts.max_nodes matches Some(l) ==> w.res.len() <= l)
    &&& (w.head == 0 ==> w.q.len() == 1 && w.res.len() == 0)
    &&& (w.res.len() == 0 ==> (w.head == 0 || is_excluded(syms, start, opts.include_tests)))
    &&& (w.res.len() == 0 && w.head > 0 ==> w.q.len() == 1)
    &&& (w.stopped ==> (opts.max_nodes matches Some(l) && w.res.len() >= l))
}

/// The loop invariant between two nodes taken from the queue.
pub open spec fn walk_inv(index: CodeIndex, forward: bool, start: SymbolId, opts: SliceOptions, w: Walk) -> bool {
    &&& walk_core(index, forward, start, opts, w)
    &&& (w.head < w.q.len() ==> forall|k: int|
        0 <= k < w.q.len() ==> (#[trigger] w.q[k]).1 <= w.q[w.head].1 + 1)
    &&& expanded_upto(index, forward, opts, w, w.res.len() as int)
}

/// The invariant while the neighbours of the newest result are being queued,
/// having looked at the first `e` edges.
pub open spec fn walk_expanding(
    index: CodeIndex,
    forward: bool,
    start: SymbolId,
    opts: SliceOptions,
    w: Walk,
    e: int,
) -> bool {
    let ri = w.res.len() - 1;
    let h = w.head - 1;
    let d = w.q[h].1;
    &&& walk_core(index, forward, start, opts, w)
    &&& 0 <= e <= index.edges.len()
    &&& w.res.len() >= 1
    &&& w.rq[ri] == h
    &&& d < opts.max_depth
    &&& forall|k: int| 0 <= k < w.q.len() ==> (#[trigger] w.q[k]).1 <= d + 1
    &&& forall|k: int| h <= k < w.q.len() ==> d <= (#[trigger] w.q[k]).1
    &&& expanded_upto(index, forward, opts, w, ri)
    &&& forall|k: int, x: SymbolId|
        0 <= k < e && #[trigger] edge_links(index.edges@[k], forward, w.res[ri], x) ==> qids(
            w.q,
        ).contains(x)
}

proof fn lemma_walk_start(index: CodeIndex, forward: bool, start: SymbolId, opts: SliceOptions)
    ensures
        walk_inv(
            index,
            forward,
            start,
            opts,
            Walk {
                q: seq![(start, 0usize)],
                head: 0,
                res: Seq::empty(),
                qpar: seq![0int],
                rq: Seq::empty(),
                stopped: false,
            },
        ),
{
    let u = universe(index.edges@, forward, start);
    assert(u[0] == start);
    assert(qids(seq![(start, 0usize)]) =~= seq![start]);
}

proof fn lemma_walk_skip_excluded(index: CodeIndex, forward: bool, start: SymbolId, opts: SliceOptions, w: Walk)
    requires
        walk_inv(index, forward, start, opts, w),
        w.head < w.q.len(),
        is_excluded(index.symbols@, qids(w.q)[w.head], opts.include_tests),
    ensures
        walk_inv(index, forward, start, opts, Walk { head: w.head + 1, ..w }),
{
    let w2 = Walk { head: w.head + 1, ..w };
    if w.head == 0 {
        assert(qids(w.q)[0] == start);
    }
    assert forall|k: int|
        0 <= k < w2.head implies (exists|i: int| 0 <= i < w2.rq.len() && #[trigger] w2.rq[i] == k)
            || is_excluded(index.symbols@, (#[trigger] qids(w2.q)[k]), opts.include_tests) by {
        if k < w.head && !is_excluded(index.symbols@, qids(w.q)[k], opts.include_tests) {
            let i = choose|i: int| 0 <= i < w.rq.len() && #[trigger] w.rq[i] == k;
            assert(w2.rq[i] == k);
        }
    }
    if w2.head < w2.q.len() {
        assert(w.q[w.head].1 <= w.q[w2.head].1);
    }
}

proof fn lemma_walk_stop(index: CodeIndex, forward: bool, start: SymbolId, opts: SliceOptions, w: Walk)
    requires
        walk_inv(index, forward, start, opts, w),
        opts.max_nodes matches Some(l) && w.res.len() >= l,
    ensures
        walk_inv(index, forward, start, opts, Walk { stopped: true, ..w }),
{
}

proof fn lemma_walk_take(index: CodeIndex, forward: bool, start: SymbolId, opts: SliceOptions, w: Walk)
    requires
        walk_inv(index, forward, start, opts, w),
        w.head < w.q.len(),
        !is_excluded(index.symbols@, qids(w.q)[w.head], opts.include_tests),
        opts.max_nodes matches Some(l) ==> w.res.len() < l,
    ensures
        ({
            let w2 = Walk {
                head: w.head + 1,
                res: w.res.push(qids(w.q)[w.head]),
                rq: w.rq.push(w.head),
                ..w
            };
            &&& w.q[w.head].1 >= opts.max_depth ==> walk_inv(index, forward, start, opts, w2)
            &&& w.q[w.head].1 < opts.max_depth ==> walk_expanding(index, forward, start, opts, w2, 0)
        }),
{
    let h = w.head;
    let curr = qids(w.q)[h];
    let ri = w.res.len() as int;
    let w2 = Walk { head: w.head + 1, res: w.res.push(curr), rq: w.rq.push(w.head), ..w };
    if ri == 0 {
        assert(h == 0) by {
            if h > 0 {
                assert(w.q.len() == 1);
            }
        }
    }
    assert forall|k: int|
        0 <= k < w2.head implies (exists|i: int| 0 <= i < w2.rq.len() && #[trigger] w2.rq[i] == k)
            || is_excluded(index.symbols@, (#[trigger] qids(w2.q)[k]), opts.include_tests) by {
        if k == h {
            assert(w2.rq[ri] == k);
        } else if !is_excluded(index.symbols@, qids(w.q)[k], opts.include_tests) {
            let i = choose|i: int| 0 <= i < w.rq.len() && #[trigger] w.rq[i] == k;
            assert(w2.rq[i] == k);
        }
    }
    assert forall|i: int| 0 <= i < w2.rq.len() implies w2.res[i] == #[trigger] qids(w2.q)[w2.rq[i]] by {
    }
    assert forall|k: int|
        0 < k < w2.q.len() implies {
            &&& 0 <= #[trigger] w2.qpar[k] < w2.res.len()
            &&& depth_of(w2, w2.qpar[k]) < opts.max_depth
            &&& w2.q[k].1 == depth_of(w2, w2.qpar[k]) + 1
            &&& steps_to(index.edges@, forward, w2.res[w2.qpar[k]], w2.q[k].0)
        } by {
        assert(w2.res[w.qpar[k]] == w.res[w.qpar[k]]);
        assert(w2.rq[w.qpar[k]] == w.rq[w.qpar[k]]);
    }
    assert forall|i: int| 0 < i < w2.rq.len() implies w2.qpar[#[trigger] w2.rq[i]] < i by {
        if i == ri {
            assert(w.rq[0] == 0);
        }
    }
    assert(expanded_upto(index, forward, opts, w2, ri)) by {
        assert forall|i: int, x: SymbolId|
            0 <= i < ri && depth_of(w2, i) < opts.max_depth && #[trigger] steps_to(
                index.edges@,
                forward,
                w2.res[i],
                x,
            ) implies qids(w2.q).contains(x) by {
            assert(w2.res[i] == w.res[i]);
            assert(depth_of(w2, i) == depth_of(w, i));
        }
    }
    if w.q[h].1 >= opts.max_depth {
        assert(expanded_upto(index, forward, opts, w2, ri + 1)) by {
            assert forall|i: int, x: SymbolId|
                0 <= i < ri + 1 && depth_of(w2, i) < opts.max_depth && #[trigger] steps_to(
                    index.edges@,
                    forward,
                    w2.res[i],
                    x,
                ) implies qids(w2.q).contains(x) by {
                assert(w2.res[i] == w.res[i]);
                assert(depth_of(w2, i) == depth_of(w, i));
            }
        }
        if w2.head < w2.q.len() {
            assert(w.q[h].1 <= w.q[w2.head].1);
        }
    }
}

proof fn lemma_walk_edge(
    index: CodeIndex,
    forward: bool,
    start: SymbolId,
    opts: SliceOptions,
    w: Walk,
    e: int,
    found: Option<SymbolId>,
)
    requires
        walk_expanding(index, forward, start, opts, w, e),
        e < index.edges.len(),
        match found {
            Some(x) => edge_links(index.edges@[e], forward, w.res[w.res.len() - 1], x),
            None => forall|x: SymbolId| !#[trigger] edge_links(index.edges@[e], forward, w.res[w.res.len() - 1], x),
        },
    ensures
        ({
            let d = w.q[w.head - 1].1;
            let ri = w.res.len() - 1;
            match found {
                Some(x) => if qids(w.q).contains(x) {
                    walk_expanding(index, forward, start, opts, w, e + 1)
                } else {
                    walk_expanding(
                        index,
                        forward,
                        start,
                        opts,
                        Walk { q: w.q.push((x, (d + 1) as usize)), qpar: w.qpar.push(ri), ..w },
                        e + 1,
                    )
                },
                None => walk_expanding(index, forward, start, opts, w, e + 1),
            }
        }),
{
    let edges = index.edges@;
    let ri = w.res.len() - 1;
    let curr = w.res[ri];
    let d = w.q[w.head - 1].1;
    match found {
        Some(x) => {
            if !qids(w.q).contains(x) {
                let w2 = Walk { q: w.q.push((x, (d + 1) as usize)), qpar: w.qpar.push(ri), ..w };
                let u = universe(edges, forward, start);
                lemma_qids_push(w.q, (x, (d + 1) as usize));
                assert(u[e + 1] == x);
                assert(qids(w2.q)[w2.q.len() - 1] == x);
                assert(steps_to(edges, forward, w2.res[ri], x)) by {
                    assert(edge_links(edges[e], forward, curr, x));
                }
                assert forall|k: int| 0 <= k < w2.q.len() implies u.contains(#[trigger] qids(w2.q)[k]) by {
                    if k < w.q.len() {
                        assert(qids(w2.q)[k] == qids(w.q)[k]);
                    }
                }
                lemma_distinct_within(qids(w2.q), u);
                assert forall|i: int| 0 <= i < w2.rq.len() implies w2.res[i] == #[trigger] qids(w2.q)[w2.rq[i]] by {
                    assert(qids(w2.q)[w.rq[i]] == qids(w.q)[w.rq[i]]);
                }
                assert forall|k: int|
                    0 <= k < w2.head implies (exists|i: int| 0 <= i < w2.rq.len() && #[trigger] w2.rq[i] == k)
                        || is_excluded(index.symbols@, (#[trigger] qids(w2.q)[k]), opts.include_tests) by {
                    assert(qids(w2.q)[k] == qids(w.q)[k]);
                    if !is_excluded(index.symbols@, qids(w.q)[k], opts.include_tests) {
                        let i = choose|i: int| 0 <= i < w.rq.len() && #[trigger] w.rq[i] == k;
                        assert(w2.rq[i] == k);
                    }
                }
                assert forall|k: int, y: SymbolId|
                    0 <= k < e + 1 && #[trigger] edge_links(edges[k], forward, w2.res[ri], y) implies qids(
                    w2.q,
                ).contains(y) by {
                    if k < e {
                        let j = choose|j: int| 0 <= j < w.q.len() && qids(w.q)[j] == y;
                        assert(qids(w2.q)[j] == y);
                    } else {
                        assert(y == x);
                    }
                }
                assert(expanded_upto(index, forward, opts, w2, ri)) by {
                    assert forall|i: int, y: SymbolId|
                        0 <= i < ri && depth_of(w2, i) < opts.max_depth && #[trigger] steps_to(
                            edges,
                            forward,
                            w2.res[i],
                            y,
                        ) implies qids(w2.q).contains(y) by {
                        assert(depth_of(w2, i) == depth_of(w, i));
                        let j = choose|j: int| 0 <= j < w.q.len() && qids(w.q)[j] == y;
                        assert(qids(w2.q)[j] == y);
                    }
                }
                assert forall|k: int|
                    0 < k < w2.q.len() implies {
                        &&& 0 <= #[trigger] w2.qpar[k] < w2.res.len()
                        &&& depth_of(w2, w2.qpar[k]) < opts.max_depth
                        &&& w2.q[k].1 == depth_of(w2, w2.qpar[k]) + 1
                        &&& steps_to(edges, forward, w2.res[w2.qpar[k]], w2.q[k].0)
                    } by {
                    if k < w.q.len() {
                        assert(depth_of(w2, w.qpar[k]) == depth_of(w, w.qpar[k]));
                    } else {
                        assert(depth_of(w2, ri) == d);
                    }
                }
            } else {
            }
        },
        None => {
        },
    }
}

proof fn lemma_walk_expanded(index: CodeIndex, forward: bool, start: SymbolId, opts: SliceOptions, w: Walk)
    requires
        walk_expanding(index, forward, start, opts, w, index.edges.len() as int),
    ensures
        walk_inv(index, forward, start, opts, w),
{
    let edges = index.edges@;
    let ri = w.res.len() - 1;
    assert forall|i: int, x: SymbolId|
        0 <= i < w.res.len() && depth_of(w, i) < opts.max_depth && #[trigger] steps_to(
            edges,
            forward,
            w.res[i],
            x,
        ) implies qids(w.q).contains(x) by {
        if i == ri {
            let k = choose|k: int| 0 <= k < edges.len() && #[trigger] edge_links(edges[k], forward, w.res[i], x);
            assert(edge_links(edges[k], forward, w.res[ri], x));
        }
    }
}

/// The depth of each result of a walk.
pub open spec fn walk_depths(w: Walk) -> Seq<nat> {
    Seq::new(w.res.len() as nat, |i: int| depth_of(w, i) as nat)
}

proof fn lemma_walk_finish(index: CodeIndex, forward: bool, start: SymbolId, opts: SliceOptions, w: Walk)
    requires
        walk_inv(index, forward, start, opts, w),
        w.head == w.q.len() || w.stopped,
    ensures
        is_slice(index, forward, start, opts, w.res),
        bfs_witness(index, forward, opts, w.res, walk_depths(w)),
{
    let syms = index.symbols@;
    let edges = index.edges@;
    let ds: Seq<nat> = walk_depths(w);
    assert(w.res.no_duplicates()) by {
        assert forall|i: int, j: int| 0 <= i < j < w.res.len() implies w.res[i] != w.res[j] by {
            assert(qids(w.q)[w.rq[i]] != qids(w.q)[w.rq[j]]);
        }
    }
    assert(bfs_layers(edges, forward, w.res, ds, opts.max_depth as nat)) by {
        assert forall|i: int, j: int| 0 <= i <= j < w.res.len() implies ds[i] <= ds[j] by {
            if i < j {
                assert(w.rq[i] < w.rq[j]);
            }
        }
        assert forall|i: int| 0 <= i < w.res.len() implies ds[i] <= opts.max_depth as nat by {
            assert(w.q[w.rq[i]].1 <= opts.max_depth);
        }
        if w.res.len() > 0 {
            assert(ds[0] == 0);
        }
        assert(ds.len() == w.res.len());
        assert forall|i: int| 0 < i < w.res.len() implies #[trigger] has_parent(
            edges,
            forward,
            w.res,
            ds,
            opts.max_depth as nat,
            i,
        ) by {
            let k = w.rq[i];
            assert(w.rq[0] < w.rq[i]);
            let j = w.qpar[k];
            assert(qids(w.q)[k] == w.q[k].0);
            assert(steps_to(edges, forward, w.res[j], w.res[i]));
        }
        assert(forall|i: int, j: int| 0 <= i <= j < w.res.len() ==> ds[i] <= ds[j]);
        assert(forall|i: int| 0 <= i < w.res.len() ==> ds[i] <= opts.max_depth as nat);
        assert(w.res.len() > 0 ==> ds[0] == 0);
    }
    if !w.stopped {
        assert(bfs_closed(syms, edges, forward, w.res, ds, opts.max_depth as nat, opts.include_tests)) by {
            assert forall|i: int, x: SymbolId|
                0 <= i < w.res.len() && ds[i] < opts.max_depth as nat && #[trigger] steps_to(
                    edges,
                    forward,
                    w.res[i],
                    x,
                ) implies w.res.contains(x) || is_excluded(syms, x, opts.include_tests) by {
                assert(qids(w.q).contains(x));
                let k = choose|k: int| 0 <= k < w.q.len() && qids(w.q)[k] == x;
                if !is_excluded(syms, x, opts.include_tests) {
                    let j = choose|j: int| 0 <= j < w.rq.len() && #[trigger] w.rq[j] == k;
                    assert(w.res[j] == x);
                }
            }
        }
    }
    assert(bfs_witness(index, forward, opts, w.res, ds));
    assert(qids(w.q)[0] == start);
    if w.res.len() > 0 {
        assert(w.res[0] == start);
    }
}

/// What the walk knows of queue entry `k`: the edge it was first reached by, from
/// the first result that leads to it.
pub open spec fn queue_entry_ok(index: CodeIndex, forward: bool, opts: SliceOptions, w: Walk, qe: Seq<int>, k: int) -> bool {
    let edges = index.edges@;
    &&& is_first_edge(edges, forward, w.res[w.qpar[k]], w.q[k].0, qe[k])
    &&& forall|j: int|
        0 <= j < w.qpar[k] && depth_of(w, j) < opts.max_depth ==> !#[trigger] steps_to(
            edges,
            forward,
            w.res[j],
            w.q[k].0,
        )
}

/// The queue entries after the first were each reached by their first edge from
/// the first result leading to them, and are queued in the order of those
/// (result, edge) pairs.
pub open spec fn queue_order(index: CodeIndex, forward: bool, opts: SliceOptions, w: Walk, qe: Seq<int>) -> bool {
    &&& qe.len() == w.q.len()
    &&& forall|k: int| 0 < k < w.q.len() ==> #[trigger] queue_entry_ok(index, forward, opts, w, qe, k)
    &&& forall|a: int, b: int|
        #![trigger qe[a], qe[b]]
        0 < a < b < w.q.len() ==> key_less(w.qpar[a], qe[a], w.qpar[b], qe[b])
}

/// While the newest result is expanded, the entries it queued came from edges
/// before `e`.
pub open spec fn queue_order_expanding(
    index: CodeIndex,
    forward: bool,
    opts: SliceOptions,
    w: Walk,
    qe: Seq<int>,
    e: int,
) -> bool {
    &&& queue_order(index, forward, opts, w, qe)
    &&& forall|a: int| 0 < a < w.q.len() && w.qpar[a] == w.res.len() - 1 ==> #[trigger] qe[a] < e
}

proof fn lemma_order_same(index: CodeIndex, forward: bool, opts: SliceOptions, w: Walk, w2: Walk, qe: Seq<int>)
    requires
        queue_order(index, forward, opts, w, qe),
        w2.q == w.q,
        w2.qpar == w.qpar,
        w2.res == w.res,
        w2.rq == w.rq,
    ensures
        queue_order(index, forward, opts, w2, qe),
{
    assert forall|k: int| 0 < k < w2.q.len() implies #[trigger] queue_entry_ok(index, forward, opts, w2, qe, k) by {
        assert(queue_entry_ok(index, forward, opts, w, qe, k));
    }
}

proof fn lemma_order_take(index: CodeIndex, forward: bool, start: SymbolId, opts: SliceOptions, w: Walk, qe: Seq<int>)
    requires
        walk_inv(index, forward, start, opts, w),
        queue_order(index, forward, opts, w, qe),
        w.head < w.q.len(),
    ensures
        ({
            let w2 = Walk {
                head: w.head + 1,
                res: w.res.push(qids(w.q)[w.head]),
                rq: w.rq.push(w.head),
                ..w
            };
            &&& queue_order(index, forward, opts, w2, qe)
            &&& queue_order_expanding(index, forward, opts, w2, qe, 0)
        }),
{
    let w2 = Walk { head: w.head + 1, res: w.res.push(qids(w.q)[w.head]), rq: w.rq.push(w.head), ..w };
    assert forall|k: int| 0 < k < w2.q.len() implies #[trigger] queue_entry_ok(index, forward, opts, w2, qe, k) by {
        assert(queue_entry_ok(index, forward, opts, w, qe, k));
        assert(w2.res[w.qpar[k]] == w.res[w.qpar[k]]);
        assert forall|j: int|
            0 <= j < w2.qpar[k] && depth_of(w2, j) < opts.max_depth implies !#[trigger] steps_to(
            index.edges@,
            forward,
            w2.res[j],
            w2.q[k].0,
        ) by {
            assert(w2.res[j] == w.res[j]);
            assert(depth_of(w2, j) == depth_of(w, j));
        }
    }
}

proof fn lemma_order_edge(
    index: CodeIndex,
    forward: bool,
    start: SymbolId,
    opts: SliceOptions,
    w: Walk,
    qe: Seq<int>,
    e: int,
    x: SymbolId,
)
    requires
        walk_expanding(index, forward, start, opts, w, e),
        queue_order_expanding(index, forward, opts, w, qe, e),
        e < index.edges.len(),
        edge_links(index.edges@[e], forward, w.res[w.res.len() - 1], x),
        !qids(w.q).contains(x),
    ensures
        ({
            let d = w.q[w.head - 1].1;
            let ri = w.res.len() - 1;
            let w2 = Walk { q: w.q.push((x, (d + 1) as usize)), qpar: w.qpar.push(ri), ..w };
            queue_order_expanding(index, forward, opts, w2, qe.push(e), e + 1)
        }),
{
    let edges = index.edges@;
    let d = w.q[w.head - 1].1;
    let ri = w.res.len() - 1;
    let w2 = Walk { q: w.q.push((x, (d + 1) as usize)), qpar: w.qpar.push(ri), ..w };
    let qe2 = qe.push(e);
    let n = w.q.len() as int;
    assert forall|k: int| 0 < k < w2.q.len() implies #[trigger] queue_entry_ok(index, forward, opts, w2, qe2, k) by {
        if k < n {
            assert(queue_entry_ok(index, forward, opts, w, qe, k));
            assert forall|j: int|
                0 <= j < w2.qpar[k] && depth_of(w2, j) < opts.max_depth implies !#[trigger] steps_to(
                edges,
                forward,
                w2.res[j],
                w2.q[k].0,
            ) by {
                assert(depth_of(w2, j) == depth_of(w, j));
            }
        } else {
            assert(w2.q[k].0 == x);
            assert(w2.qpar[k] == ri);
            assert forall|k2: int| 0 <= k2 < e implies !#[trigger] edge_links(edges[k2], forward, w.res[ri], x) by {
                if edge_links(edges[k2], forward, w.res[ri], x) {
                    assert(qids(w.q).contains(x));
                }
            }
            assert forall|j: int|
                0 <= j < w2.qpar[k] && depth_of(w2, j) < opts.max_depth implies !#[trigger] steps_to(
                edges,
                forward,
                w2.res[j],
                w2.q[k].0,
            ) by {
                assert(depth_of(w2, j) == depth_of(w, j));
                if steps_to(edges, forward, w.res[j], x) {
                    assert(qids(w.q).contains(x));
                }
            }
        }
    }
    assert forall|a: int, b: int|
        #![trigger qe2[a], qe2[b]]
        0 < a < b < w2.q.len() implies key_less(w2.qpar[a], qe2[a], w2.qpar[b], qe2[b]) by {
        if b < n {
            assert(qe2[a] == qe[a] && qe2[b] == qe[b]);
        } else {
            assert(qe2[a] == qe[a]);
            assert(0 <= w.qpar[a] < w.res.len());
        }
    }
    assert forall|a: int| 0 < a < w2.q.len() && w2.qpar[a] == w2.res.len() - 1 implies #[trigger] qe2[a] < e + 1 by {
        if a < n {
            assert(qe2[a] == qe[a]);
        }
    }
}

proof fn lemma_order_finish(index: CodeIndex, forward: bool, start: SymbolId, opts: SliceOptions, w: Walk, qe: Seq<int>)
    requires
        walk_inv(index, forward, start, opts, w),
        queue_order(index, forward, opts, w, qe),
        w.head == w.q.len() || w.stopped,
    ensures
        in_bfs_order(index, forward, opts, w.res),
{
    let edges = index.edges@;
    let md = opts.max_depth as nat;
    lemma_walk_finish(index, forward, start, opts, w);
    let ds = walk_depths(w);
    let ps: Seq<int> = Seq::new(w.res.len() as nat, |i: int| w.qpar[w.rq[i]]);
    let ks: Seq<int> = Seq::new(w.res.len() as nat, |i: int| qe[w.rq[i]]);
    assert forall|i: int| 0 < i < w.res.len() implies #[trigger] discovered_from(edges, forward, w.res, ds, md, i, ps[i], ks[i]) by {
        let k = w.rq[i];
        assert(w.rq[0] < w.rq[i]);
        assert(queue_entry_ok(index, forward, opts, w, qe, k));
        assert(qids(w.q)[k] == w.q[k].0);
        assert(w.res[i] == w.q[k].0);
        assert(w.qpar[w.rq[i]] < i);
        assert forall|j: int| 0 <= j < ps[i] && ds[j] < md implies !#[trigger] steps_to(edges, forward, w.res[j], w.res[i]) by {
            assert(ds[j] == depth_of(w, j));
        }
    }
    assert forall|i: int, j: int| #![trigger ps[i], ps[j]] 0 < i < j < w.res.len() implies key_less(ps[i], ks[i], ps[j], ks[j]) by {
        assert(w.rq[0] < w.rq[i]);
        assert(w.rq[i] < w.rq[j]);
        assert(qe[w.rq[i]] == ks[i] && qe[w.rq[j]] == ks[j]);
    }
    assert forall|j: int, k: int, x: SymbolId|
        0 <= j < w.res.len() && ds[j] < md && 0 <= k < edges.len() && #[trigger] edge_links(
            edges[k],
            forward,
            w.res[j],
            x,
        ) implies w.res.contains(x) || is_excluded(index.symbols@, x, opts.include_tests) || forall|i: int|
        0 < i < w.res.len() ==> #[trigger] key_less(ps[i], ks[i], j, k) by {
        assert(steps_to(edges, forward, w.res[j], x));
        assert(ds[j] == depth_of(w, j));
        assert(qids(w.q).contains(x));
        let p = choose|p: int| 0 <= p < w.q.len() && qids(w.q)[p] == x;
        if p < w.head {
            if !is_excluded(index.symbols@, x, opts.include_tests) {
                let r = choose|r: int| 0 <= r < w.rq.len() && #[trigger] w.rq[r] == p;
                assert(w.res[r] == x);
            }
        } else {
            assert(p > 0);
            assert(queue_entry_ok(index, forward, opts, w, qe, p));
            assert(w.q[p].0 == x);
            assert(w.qpar[p] <= j);
            if w.qpar[p] == j {
                assert(qe[p] <= k);
            }
            assert forall|i: int| 0 < i < w.res.len() implies #[trigger] key_less(ps[i], ks[i], j, k) by {
                assert(w.rq[0] < w.rq[i]);
                assert(w.rq[i] < p);
                assert(qe[w.rq[i]] == ks[i] && qe[p] == qe[p]);
                assert(key_less(w.qpar[w.rq[i]], qe[w.rq[i]], w.qpar[p], qe[p]));
            }
        }
    }
    assert(bfs_order(index, forward, opts, w.res, ds, ps, ks));
}

#[verifier::rlimit(60)]
fn slice_bfs(index: &CodeIndex, start: SymbolId, options: &SliceOptions, forward: bool) -> (res: Vec<
    SymbolId,
>)
    ensures
        is_slice(*index, forward, start, *options, res@),
        in_bfs_order(*index, forward, *options, res@),
{
    let mut queue: Vec<(SymbolId, usize)> = Vec::new();
    queue.push((start, 0));
    let mut head: usize = 0;
    let mut result: Vec<SymbolId> = Vec::new();
    let mut stopped = false;
    let ghost mut qpar: Seq<int> = seq![0int];
    let ghost mut rq: Seq<int> = Seq::empty();
    let ghost mut qe: Seq<int> = seq![0int];
    proof {
        lemma_walk_start(*index, forward, start, *options);
    }
    while head < queue.len() && !stopped
        invariant
            queue.len() <= index.edges.len() + 1,
            walk_inv(
                *index,
                forward,
                start,
                *options,
                Walk { q: queue@, head: head as int, res: result@, qpar, rq, stopped },
            ),
            queue_order(*index, forward, *options, Walk { q: queue@, head: head as int, res: result@, qpar, rq, stopped }, qe),
        decreases index.edges.len() + 1 - head, if stopped { 0int } else { 1int },
    {
        let (curr, depth) = queue[head];
        proof {
            assert(qids(queue@)[head as int] == curr);
        }
        if excluded_exec(&index.symbols, curr, options.include_tests) {
            proof {
                lemma_walk_skip_excluded(
                    *index,
                    forward,
                    start,
                    *options,
                    Walk { q: queue@, head: head as int, res: result@, qpar, rq, stopped },
                );
                lemma_order_same(
                    *index,
                    forward,
                    *options,
                    Walk { q: queue@, head: head as int, res: result@, qpar, rq, stopped },
                    Walk { q: queue@, head: head + 1, res: result@, qpar, rq, stopped },
                    qe,
                );
            }
            head = head + 1;
            continue;
        }
        let mut at_limit = false;
        if let Some(limit) = options.max_nodes {
            if result.len() >= limit {
                at_limit = true;
            }
        }
        if at_limit {
            proof {
                lemma_walk_stop(
                    *index,
                    forward,
                    start,
                    *options,
                    Walk { q: queue@, head: head as int, res: result@, qpar, rq, stopped },
                );
                lemma_order_same(
                    *index,
                    forward,
                    *options,
                    Walk { q: queue@, head: head as int, res: result@, qpar, rq, stopped },
                    Walk { q: queue@, head: head as int, res: result@, qpar, rq, stopped: true },
                    qe,
                );
            }
            stopped = true;
            continue;
        }
        proof {
            lemma_walk_take(
                *index,
                forward,
                start,
                *options,
                Walk { q: queue@, head: head as int, res: result@, qpar, rq, stopped },
            );
            lemma_order_take(
                *index,
                forward,
                start,
                *options,
                Walk { q: queue@, head: head as int, res: result@, qpar, rq, stopped },
                qe,
            );
            rq = rq.push(head as int);
        }
        result.push(curr);
        head = head + 1;
        if depth >= options.max_depth {
            continue;
        }
        let mut e: usize = 0;
        while e < index.edges.len()
            invariant
                e <= index.edges.len(),
                queue.len() <= index.edges.len() + 1,
                depth == queue@[head - 1].1,
                curr == result@[result.len() - 1],
                walk_expanding(
                    *index,
                    forward,
                    start,
                    *options,
                    Walk { q: queue@, head: head as int, res: result@, qpar, rq, stopped },
                    e as int,
                ),
                queue_order_expanding(
                    *index,
                    forward,
                    *options,
                    Walk { q: queue@, head: head as int, res: result@, qpar, rq, stopped },
                    qe,
                    e as int,
                ),
            decreases index.edges.len() - e,
        {
            let found = far_end(&index.edges[e], forward, curr);
            proof {
                lemma_walk_edge(
                    *index,
                    forward,
                    start,
                    *options,
                    Walk { q: queue@, head: head as int, res: result@, qpar, rq, stopped },
                    e as int,
                    found,
                );
            }
            if let Some(w) = found {
                if !queue_has(&queue, w) {
                    proof {
                        lemma_order_edge(
                            *index,
                            forward,
                            start,
                            *options,
                            Walk { q: queue@, head: head as int, res: result@, qpar, rq, stopped },
                            qe,
                            e as int,
                            w,
                        );
                    }
                    queue.push((w, depth + 1));
                    proof {
                        qpar = qpar.push(result.len() - 1);
                        qe = qe.push(e as int);
                    }
                }
            }
            e = e + 1;
        }
        proof {
            lemma_walk_expanded(
                *index,
                forward,
                start,
                *options,
                Walk { q: queue@, head: head as int, res: result@, qpar, rq, stopped },
            );
        }
    }
    proof {
        lemma_walk_finish(
            *index,
            forward,
            start,
            *options,
            Walk { q: queue@, head: head as int, res: result@, qpar, rq, stopped },
        );
        lemma_order_finish(
            *index,
            forward,
            start,
            *options,
            Walk { q: queue@, head: head as int, res: result@, qpar, rq, stopped },
            qe,
        );
    }
    result
}

/// `b` is reached from `a` by at most `n` steps.
pub open spec fn reaches(edges: Seq<GraphEdge>, forward: bool, a: SymbolId, b: SymbolId, n: nat) -> bool
    decreases n,
{
    a == b || (n > 0 && exists|c: SymbolId|
        reaches(edges, forward, a, c, (n - 1) as nat) && #[trigger] steps_to(edges, forward, c, b))
}

proof fn lemma_reaches_more(edges: Seq<GraphEdge>, forward: bool, a: SymbolId, b: SymbolId, n: nat, m: nat)
    requires
        reaches(edges, forward, a, b, n),
        n <= m,
    ensures
        reaches(edges, forward, a, b, m),
    decreases n,
{
    if a != b {
        let c = choose|c: SymbolId|
            reaches(edges, forward, a, c, (n - 1) as nat) && #[trigger] steps_to(edges, forward, c, b);
        lemma_reaches_more(edges, forward, a, c, (n - 1) as nat, (m - 1) as nat);
    }
}

proof fn lemma_layers_reach(edges: Seq<GraphEdge>, forward: bool, res: Seq<SymbolId>, ds: Seq<nat>, max_depth: nat, i: int)
    requires
        bfs_layers(edges, forward, res, ds, max_depth),
        0 <= i < res.len(),
    ensures
        reaches(edges, forward, res[0], res[i], ds[i]),
    decreases i,
{
    if i > 0 {
        assert(has_parent(edges, forward, res, ds, max_depth, i));
        let j = choose|j: int|
            0 <= j < i && ds[j] < max_depth && ds[i] as int == ds[j] as int + 1 && #[trigger] steps_to(
                edges,
                forward,
                res[j],
                res[i],
            );
        lemma_layers_reach(edges, forward, res, ds, max_depth, j);
        assert(reaches(edges, forward, res[0], res[j], (ds[i] - 1) as nat));
    }
}

/// Every symbol of a slice is reached from its start by at most the depth limit
/// of steps (calls followed forwards for a forward slice, backwards for a reverse
/// one).
pub proof fn law_slice_within_depth(
    index: CodeIndex,
    forward: bool,
    start: SymbolId,
    opts: SliceOptions,
    res: Seq<SymbolId>,
)
    requires
        is_slice(index, forward, start, opts, res),
    ensures
        forall|i: int|
            0 <= i < res.len() ==> reaches(index.edges@, forward, start, #[trigger] res[i], opts.max_depth as nat),
{
    let ds = choose|ds: Seq<nat>| #[trigger] bfs_witness(index, forward, opts, res, ds);
    assert forall|i: int| 0 <= i < res.len() implies reaches(
        index.edges@,
        forward,
        start,
        #[trigger] res[i],
        opts.max_depth as nat,
    ) by {
        lemma_layers_reach(index.edges@, forward, res, ds, opts.max_depth as nat, i);
        lemma_reaches_more(index.edges@, forward, start, res[i], ds[i], opts.max_depth as nat);
    }
}

/// An edge with its ends swapped.
pub open spec fn reversed_edge(e: GraphEdge) -> GraphEdge {
    GraphEdge { from_symbol_id: e.to_symbol_id, to_symbol_id: e.from_symbol_id, ..e }
}

/// Stepping backwards along the edges is stepping forwards along the reversed edges.
proof fn lemma_steps_reversed(edges: Seq<GraphEdge>, a: SymbolId, b: SymbolId)
    ensures
        steps_to(edges, false, a, b) == steps_to(edges.map_values(|e: GraphEdge| reversed_edge(e)), true, a, b),
{
    let rev = edges.map_values(|e: GraphEdge| reversed_edge(e));
    if steps_to(edges, false, a, b) {
        let k = choose|k: int| 0 <= k < edges.len() && #[trigger] edge_links(edges[k], false, a, b);
        assert(edge_links(rev[k], true, a, b));
    }
    if steps_to(rev, true, a, b) {
        let k = choose|k: int| 0 <= k < rev.len() && #[trigger] edge_links(rev[k], true, a, b);
        assert(edge_links(edges[k], false, a, b));
    }
}

/// A reverse slice is the forward slice of the graph with every edge reversed.
pub proof fn law_reverse_slice_is_forward_slice_reversed(
    index: CodeIndex,
    rev: CodeIndex,
    target: SymbolId,
    opts: SliceOptions,
    res: Seq<SymbolId>,
)
    requires
        rev.symbols@ == index.symbols@,
        rev.edges@ == index.edges@.map_values(|e: GraphEdge| reversed_edge(e)),
    ensures
        is_slice(index, false, target, opts, res) == is_slice(rev, true, target, opts, res),
        in_bfs_order(index, false, opts, res) == in_bfs_order(rev, true, opts, res),
{
    let e1 = index.edges@;
    let e2 = rev.edges@;
    assert forall|k: int, a: SymbolId, b: SymbolId|
        #![trigger edge_links(e1[k], false, a, b)]
        #![trigger edge_links(e2[k], true, a, b)]
        0 <= k < e1.len() implies edge_links(e1[k], false, a, b) == edge_links(e2[k], true, a, b) by {
        assert(e2[k] == reversed_edge(e1[k]));
    }
    assert forall|a: SymbolId, b: SymbolId|
        #![trigger steps_to(e1, false, a, b)]
        #![trigger steps_to(e2, true, a, b)]
        steps_to(e1, false, a, b) == steps_to(e2, true, a, b) by {
        lemma_steps_reversed(e1, a, b);
    }
    assert forall|ds: Seq<nat>| #[trigger] bfs_witness(index, false, opts, res, ds) == bfs_witness(rev, true, opts, res, ds) by {
        assert forall|i: int|
            #![trigger has_parent(e1, false, res, ds, opts.max_depth as nat, i)]
            #![trigger has_parent(e2, true, res, ds, opts.max_depth as nat, i)]
            0 < i < res.len() && ds.len() == res.len() implies has_parent(e1, false, res, ds, opts.max_depth as nat, i)
            == has_parent(e2, true, res, ds, opts.max_depth as nat, i) by {
            if has_parent(e1, false, res, ds, opts.max_depth as nat, i) {
                let j = choose|j: int|
                    0 <= j < i && ds[j] < opts.max_depth as nat && ds[i] as int == ds[j] as int + 1
                        && #[trigger] steps_to(e1, false, res[j], res[i]);
                assert(steps_to(e2, true, res[j], res[i]));
            }
            if has_parent(e2, true, res, ds, opts.max_depth as nat, i) {
                let j = choose|j: int|
                    0 <= j < i && ds[j] < opts.max_depth as nat && ds[i] as int == ds[j] as int + 1
                        && #[trigger] steps_to(e2, true, res[j], res[i]);
                assert(steps_to(e1, false, res[j], res[i]));
            }
        }
    }
    assert forall|ds: Seq<nat>, ps: Seq<int>, ks: Seq<int>|
        #[trigger] bfs_order(index, false, opts, res, ds, ps, ks) == bfs_order(rev, true, opts, res, ds, ps, ks) by {
        let md = opts.max_depth as nat;
        assert forall|i: int|
            #![trigger discovered_from(e1, false, res, ds, md, i, ps[i], ks[i])]
            #![trigger discovered_from(e2, true, res, ds, md, i, ps[i], ks[i])]
            0 < i < res.len() implies discovered_from(e1, false, res, ds, md, i, ps[i], ks[i])
            == discovered_from(e2, true, res, ds, md, i, ps[i], ks[i]) by {
            if 0 <= ps[i] < i {
                assert(is_first_edge(e1, false, res[ps[i]], res[i], ks[i]) == is_first_edge(
                    e2,
                    true,
                    res[ps[i]],
                    res[i],
                    ks[i],
                ));
            }
        }
    }
    if in_bfs_order(index, false, opts, res) {
        let (ds, ps, ks) = choose|ds: Seq<nat>, ps: Seq<int>, ks: Seq<int>|
            bfs_witness(index, false, opts, res, ds) && #[trigger] bfs_order(index, false, opts, res, ds, ps, ks);
        assert(bfs_witness(rev, true, opts, res, ds));
        assert(bfs_order(rev, true, opts, res, ds, ps, ks));
    }
    if in_bfs_order(rev, true, opts, res) {
        let (ds, ps, ks) = choose|ds: Seq<nat>, ps: Seq<int>, ks: Seq<int>|
            bfs_witness(rev, true, opts, res, ds) && #[trigger] bfs_order(rev, true, opts, res, ds, ps, ks);
        assert(bfs_witness(index, false, opts, res, ds));
        assert(bfs_order(index, false, opts, res, ds, ps, ks));
    }
    if is_slice(index, false, target, opts, res) {
        let ds = choose|ds: Seq<nat>| #[trigger] bfs_witness(index, false, opts, res, ds);
        assert(bfs_witness(rev, true, opts, res, ds));
    }
    if is_slice(rev, true, target, opts, res) {
        let ds = choose|ds: Seq<nat>| #[trigger] bfs_witness(rev, true, opts, res, ds);
        assert(bfs_witness(index, false, opts, res, ds));
    }
}

/// An edge leads from `a` to one symbol at most.
proof fn lemma_edge_links_unique(e: GraphEdge, forward: bool, a: SymbolId, b: SymbolId, c: SymbolId)
    requires
        edge_links(e, forward, a, b),
        edge_links(e, forward, a, c),
    ensures
        b == c,
{
}

/// If two breadth-first slices agree on their first `m` results, they agree on
/// result `m` too: each side's result `m` comes first in the other's order.
proof fn lemma_bfs_next_agrees(
    index: CodeIndex,
    forward: bool,
    start: SymbolId,
    opts: SliceOptions,
    r1: Seq<SymbolId>,
    ds1: Seq<nat>,
    ps1: Seq<int>,
    ks1: Seq<int>,
    r2: Seq<SymbolId>,
    ds2: Seq<nat>,
    ps2: Seq<int>,
    ks2: Seq<int>,
    m: int,
)
    requires
        is_slice(index, forward, start, opts, r1),
        is_slice(index, forward, start, opts, r2),
        bfs_witness(index, forward, opts, r1, ds1),
        bfs_order(index, forward, opts, r1, ds1, ps1, ks1),
        bfs_witness(index, forward, opts, r2, ds2),
        bfs_order(index, forward, opts, r2, ds2, ps2, ks2),
        0 < m < r1.len(),
        m < r2.len(),
        forall|i: int| 0 <= i < m ==> #[trigger] r1[i] == r2[i],
        forall|i: int| 0 <= i < m ==> #[trigger] ds1[i] == ds2[i],
    ensures
        r1[m] == r2[m],
        ds1[m] == ds2[m],
        ps1[m] == ps2[m],
        ks1[m] == ks2[m],
{
    let edges = index.edges@;
    let md = opts.max_depth as nat;
    assert(discovered_from(edges, forward, r1, ds1, md, m, ps1[m], ks1[m]));
    assert(discovered_from(edges, forward, r2, ds2, md, m, ps2[m], ks2[m]));
    let (p1, k1, p2, k2) = (ps1[m], ks1[m], ps2[m], ks2[m]);
    let x1 = r1[m];
    let x2 = r2[m];
    assert(0 <= p1 < m && 0 <= p2 < m);
    assert(r1[p1] == r2[p1]);
    assert(ds1[p1] == ds2[p1]);
    assert(r1[p2] == r2[p2]);
    assert(ds1[p2] == ds2[p2]);
    // Neither key comes first.
    assert(!key_less(p1, k1, p2, k2)) by {
        if key_less(p1, k1, p2, k2) {
            assert(edge_links(edges[k1], forward, r2[p1], x1));
            assert(!is_excluded(index.symbols@, x1, opts.include_tests));
            if r2.contains(x1) {
                let t = choose|t: int| 0 <= t < r2.len() && r2[t] == x1;
                if t < m {
                    assert(r1[t] == r2[t]);
                } else if t == m {
                    if p1 < p2 {
                        assert(steps_to(edges, forward, r2[p1], x2));
                    } else {
                        assert(!edge_links(edges[k1], forward, r2[p2], x2));
                    }
                } else {
                    assert(discovered_from(edges, forward, r2, ds2, md, t, ps2[t], ks2[t]));
                    assert(key_less(ps2[m], ks2[m], ps2[t], ks2[t]));
                    if ps2[t] > p1 {
                        assert(steps_to(edges, forward, r2[p1], r2[t]));
                    } else if ps2[t] == p1 && ks2[t] > k1 {
                        assert(!edge_links(edges[k1], forward, r2[p1], r2[t]));
                    }
                }
            } else {
                assert(key_less(ps2[m], ks2[m], p1, k1));
            }
        }
    }
    assert(!key_less(p2, k2, p1, k1)) by {
        if key_less(p2, k2, p1, k1) {
            assert(edge_links(edges[k2], forward, r1[p2], x2));
            assert(!is_excluded(index.symbols@, x2, opts.include_tests));
            if r1.contains(x2) {
                let t = choose|t: int| 0 <= t < r1.len() && r1[t] == x2;
                if t < m {
                    assert(r1[t] == r2[t]);
                } else if t == m {
                    if p2 < p1 {
                        assert(steps_to(edges, forward, r1[p2], x1));
                    } else {
                        assert(!edge_links(edges[k2], forward, r1[p1], x1));
                    }
                } else {
                    assert(discovered_from(edges, forward, r1, ds1, md, t, ps1[t], ks1[t]));
                    assert(key_less(ps1[m], ks1[m], ps1[t], ks1[t]));
                    if ps1[t] > p2 {
                        assert(steps_to(edges, forward, r1[p2], r1[t]));
                    } else if ps1[t] == p2 && ks1[t] > k2 {
                        assert(!edge_links(edges[k2], forward, r1[p2], r1[t]));
                    }
                }
            } else {
                assert(key_less(ps1[m], ks1[m], p2, k2));
            }
        }
    }
    assert(p1 == p2 && k1 == k2);
    lemma_edge_links_unique(edges[k1], forward, r1[p1], x1, x2);
}

/// Two breadth-first slices agree on their first `n` results, with the same
/// depths, discovering results and edges.
proof fn lemma_bfs_prefix_agree(
    index: CodeIndex,
    forward: bool,
    start: SymbolId,
    opts: SliceOptions,
    r1: Seq<SymbolId>,
    ds1: Seq<nat>,
    ps1: Seq<int>,
    ks1: Seq<int>,
    r2: Seq<SymbolId>,
    ds2: Seq<nat>,
    ps2: Seq<int>,
    ks2: Seq<int>,
    n: int,
)
    requires
        is_slice(index, forward, start, opts, r1),
        is_slice(index, forward, start, opts, r2),
        bfs_witness(index, forward, opts, r1, ds1),
        bfs_order(index, forward, opts, r1, ds1, ps1, ks1),
        bfs_witness(index, forward, opts, r2, ds2),
        bfs_order(index, forward, opts, r2, ds2, ps2, ks2),
        0 <= n <= r1.len(),
        n <= r2.len(),
    ensures
        forall|i: int| 0 <= i < n ==> #[trigger] r1[i] == r2[i],
        forall|i: int| 0 <= i < n ==> #[trigger] ds1[i] == ds2[i],
        forall|i: int| 0 < i < n ==> #[trigger] ps1[i] == ps2[i],
        forall|i: int| 0 < i < n ==> #[trigger] ks1[i] == ks2[i],
    decreases n,
{
    if n > 0 {
        let m = n - 1;
        lemma_bfs_prefix_agree(index, forward, start, opts, r1, ds1, ps1, ks1, r2, ds2, ps2, ks2, m);
        if m == 0 {
            assert(r1[0] == start && r2[0] == start);
            assert(ds1[0] == 0 && ds2[0] == 0);
        } else {
            lemma_bfs_next_agrees(index, forward, start, opts, r1, ds1, ps1, ks1, r2, ds2, ps2, ks2, m);
        }
        assert forall|i: int| 0 <= i < n implies #[trigger] r1[i] == r2[i] by {
            if i < m {
                assert(r1[i] == r2[i]);
            }
        }
        assert forall|i: int| 0 <= i < n implies #[trigger] ds1[i] == ds2[i] by {
            if i < m {
                assert(ds1[i] == ds2[i]);
            }
        }
        assert forall|i: int| 0 < i < n implies #[trigger] ps1[i] == ps2[i] by {
            if i < m {
                assert(ps1[i] == ps2[i]);
            }
        }
        assert forall|i: int| 0 < i < n implies #[trigger] ks1[i] == ks2[i] by {
            if i < m {
                assert(ks1[i] == ks2[i]);
            }
        }
    }
}

/// A slice is determined by the graph, the start and the options: two results
/// that both meet the contract of `forward_slice` (or both that of
/// `reverse_slice`) are equal.
pub proof fn law_slice_is_unique(
    index: CodeIndex,
    forward: bool,
    start: SymbolId,
    opts: SliceOptions,
    r1: Seq<SymbolId>,
    r2: Seq<SymbolId>,
)
    requires
        is_slice(index, forward, start, opts, r1),
        in_bfs_order(index, forward, opts, r1),
        is_slice(index, forward, start, opts, r2),
        in_bfs_order(index, forward, opts, r2),
    ensures
        r1 == r2,
{
    let (ds1, ps1, ks1) = choose|ds: Seq<nat>, ps: Seq<int>, ks: Seq<int>|
        bfs_witness(index, forward, opts, r1, ds) && #[trigger] bfs_order(index, forward, opts, r1, ds, ps, ks);
    let (ds2, ps2, ks2) = choose|ds: Seq<nat>, ps: Seq<int>, ks: Seq<int>|
        bfs_witness(index, forward, opts, r2, ds) && #[trigger] bfs_order(index, forward, opts, r2, ds, ps, ks);
    let n = if r1.len() <= r2.len() { r1.len() as int } else { r2.len() as int };
    lemma_bfs_prefix_agree(index, forward, start, opts, r1, ds1, ps1, ks1, r2, ds2, ps2, ks2, n);
    if r1.len() <= r2.len() {
        lemma_shorter_is_cut(index, forward, start, opts, r1, ds1, ps1, ks1, r2, ds2, ps2, ks2);
    } else {
        lemma_shorter_is_cut(index, forward, start, opts, r2, ds2, ps2, ks2, r1, ds1, ps1, ks1);
    }
    assert(r1 =~= r2);
}

/// A slice that is a proper prefix of another is impossible: the shorter one
/// would have to stop at the node limit, which the longer one passes.
proof fn lemma_shorter_is_cut(
    index: CodeIndex,
    forward: bool,
    start: SymbolId,
    opts: SliceOptions,
    r1: Seq<SymbolId>,
    ds1: Seq<nat>,
    ps1: Seq<int>,
    ks1: Seq<int>,
    r2: Seq<SymbolId>,
    ds2: Seq<nat>,
    ps2: Seq<int>,
    ks2: Seq<int>,
)
    requires
        is_slice(index, forward, start, opts, r1),
        is_slice(index, forward, start, opts, r2),
        bfs_witness(index, forward, opts, r1, ds1),
        bfs_order(index, forward, opts, r1, ds1, ps1, ks1),
        bfs_witness(index, forward, opts, r2, ds2),
        bfs_order(index, forward, opts, r2, ds2, ps2, ks2),
        r1.len() <= r2.len(),
        forall|i: int| 0 <= i < r1.len() ==> #[trigger] r1[i] == r2[i],
        forall|i: int| 0 <= i < r1.len() ==> #[trigger] ds1[i] == ds2[i],
    ensures
        r1.len() == r2.len(),
{
    let edges = index.edges@;
    let md = opts.max_depth as nat;
    if r1.len() < r2.len() {
        let n = r1.len() as int;
        if n == 0 {
            assert(r2.len() == 0);
        } else {
            assert(discovered_from(edges, forward, r2, ds2, md, n, ps2[n], ks2[n]));
            let p = ps2[n];
            let x = r2[n];
            assert(r1[p] == r2[p] && ds1[p] == ds2[p]);
            assert(steps_to(edges, forward, r1[p], x));
            assert(!is_excluded(index.symbols@, x, opts.include_tests));
            assert(!r1.contains(x)) by {
                if r1.contains(x) {
                    let t = choose|t: int| 0 <= t < r1.len() && r1[t] == x;
                    assert(r2[t] == x);
                }
            }
            assert(!(opts.max_nodes is None || r1.len() < opts.max_nodes->0));
        }
    }
}

/// With no node limit and no test left out, every symbol reached from the start
/// within `n` steps (`n` at most the depth limit) is a result, at depth `n` at most.
proof fn lemma_bfs_complete(
    index: CodeIndex,
    forward: bool,
    start: SymbolId,
    opts: SliceOptions,
    res: Seq<SymbolId>,
    ds: Seq<nat>,
    ps: Seq<int>,
    ks: Seq<int>,
    t: SymbolId,
    n: nat,
)
    requires
        opts.max_nodes is None,
        opts.include_tests,
        is_slice(index, forward, start, opts, res),
        bfs_witness(index, forward, opts, res, ds),
        bfs_order(index, forward, opts, res, ds, ps, ks),
        reaches(index.edges@, forward, start, t, n),
        n <= opts.max_depth,
    ensures
        exists|i: int| 0 <= i < res.len() && res[i] == t && ds[i] <= n,
    decreases n,
{
    let edges = index.edges@;
    let md = opts.max_depth as nat;
    assert(!is_excluded(index.symbols@, start, opts.include_tests));
    assert(res.len() > 0);
    if t == start {
        assert(res[0] == t && ds[0] == 0);
    } else {
        let c = choose|c: SymbolId|
            reaches(edges, forward, start, c, (n - 1) as nat) && #[trigger] steps_to(edges, forward, c, t);
        lemma_bfs_complete(index, forward, start, opts, res, ds, ps, ks, c, (n - 1) as nat);
        let j = choose|j: int| 0 <= j < res.len() && res[j] == c && ds[j] <= (n - 1) as nat;
        assert(bfs_closed(index.symbols@, edges, forward, res, ds, md, opts.include_tests));
        assert(steps_to(edges, forward, res[j], t));
        assert(res.contains(t));
        let i = choose|i: int| 0 <= i < res.len() && res[i] == t;
        assert(i > 0);
        assert(discovered_from(edges, forward, res, ds, md, i, ps[i], ks[i]));
        assert(ps[i] <= j);
        assert(ds[ps[i]] <= ds[j]);
        assert(res[i] == t && ds[i] <= n);
    }
}

/// One step followed by a walk of at most `n` steps is a walk of at most `n + 1`.
proof fn lemma_reaches_prepend(edges: Seq<GraphEdge>, forward: bool, a: SymbolId, b: SymbolId, c: SymbolId, n: nat)
    requires
        steps_to(edges, forward, a, b),
        reaches(edges, forward, b, c, n),
    ensures
        reaches(edges, forward, a, c, n + 1),
    decreases n,
{
    if b == c {
        assert(reaches(edges, forward, a, a, n));
    } else {
        let d = choose|d: SymbolId| reaches(edges, forward, b, d, (n - 1) as nat) && #[trigger] steps_to(edges, forward, d, c);
        lemma_reaches_prepend(edges, forward, a, b, d, (n - 1) as nat);
    }
}

/// A walk from `a` to `b` along the calls is a walk from `b` to `a` against them.
proof fn lemma_reaches_reversed(edges: Seq<GraphEdge>, forward: bool, a: SymbolId, b: SymbolId, n: nat)
    requires
        reaches(edges, forward, a, b, n),
    ensures
        reaches(edges, !forward, b, a, n),
    decreases n,
{
    if a != b {
        let c = choose|c: SymbolId| reaches(edges, forward, a, c, (n - 1) as nat) && #[trigger] steps_to(edges, forward, c, b);
        lemma_reaches_reversed(edges, forward, a, c, (n - 1) as nat);
        let k = choose|k: int| 0 <= k < edges.len() && #[trigger] edge_links(edges[k], forward, c, b);
        assert(edge_links(edges[k], !forward, b, c));
        assert(steps_to(edges, !forward, b, c));
        lemma_reaches_prepend(edges, !forward, b, c, a, (n - 1) as nat);
    }
}

/// With no node limit and no test left out, a slice holds exactly the symbols
/// reached from its start within the depth limit.
pub proof fn law_unlimited_slice_is_what_is_reached(
    index: CodeIndex,
    forward: bool,
    start: SymbolId,
    opts: SliceOptions,
    res: Seq<SymbolId>,
    t: SymbolId,
)
    requires
        opts.max_nodes is None,
        opts.include_tests,
        is_slice(index, forward, start, opts, res),
        in_bfs_order(index, forward, opts, res),
    ensures
        res.contains(t) <==> reaches(index.edges@, forward, start, t, opts.max_depth as nat),
{
    law_slice_within_depth(index, forward, start, opts, res);
    if reaches(index.edges@, forward, start, t, opts.max_depth as nat) {
        let (ds, ps, ks) = choose|ds: Seq<nat>, ps: Seq<int>, ks: Seq<int>|
            bfs_witness(index, forward, opts, res, ds) && #[trigger] bfs_order(index, forward, opts, res, ds, ps, ks);
        lemma_bfs_complete(index, forward, start, opts, res, ds, ps, ks, t, opts.max_depth as nat);
    }
    if res.contains(t) {
        let i = choose|i: int| 0 <= i < res.len() && res[i] == t;
        assert(reaches(index.edges@, forward, start, res[i], opts.max_depth as nat));
    }
}

/// With no node limit and no test left out, `t` is in the forward slice from `s`
/// exactly when `s` is in the reverse slice from `t`.
pub proof fn law_forward_and_reverse_slices_agree(
    index: CodeIndex,
    s: SymbolId,
    t: SymbolId,
    opts: SliceOptions,
    fwd: Seq<SymbolId>,
    rev: Seq<SymbolId>,
)
    requires
        opts.max_nodes is None,
        opts.include_tests,
        is_slice(index, true, s, opts, fwd),
        in_bfs_order(index, true, opts, fwd),
        is_slice(index, false, t, opts, rev),
        in_bfs_order(index, false, opts, rev),
    ensures
        fwd.contains(t) <==> rev.contains(s),
{
    let d = opts.max_depth as nat;
    law_unlimited_slice_is_what_is_reached(index, true, s, opts, fwd, t);
    law_unlimited_slice_is_what_is_reached(index, false, t, opts, rev, s);
    if reaches(index.edges@, true, s, t, d) {
        lemma_reaches_reversed(index.edges@, true, s, t, d);
    }
    if reaches(index.edges@, false, t, s, d) {
        lemma_reaches_reversed(index.edges@, false, t, s, d);
    }
}

/// The first `m` results of a breadth-first slice without node limit, with their
/// depths and discoveries, are a breadth-first slice with a limit of `k` nodes,
/// `m` being the smaller of `k` and the slice's length.
proof fn lemma_prefix_is_limited_slice(
    index: CodeIndex,
    forward: bool,
    start: SymbolId,
    opts: SliceOptions,
    k: usize,
    full: Seq<SymbolId>,
    ds: Seq<nat>,
    ps: Seq<int>,
    ks: Seq<int>,
)
    requires
        opts.max_nodes is None,
        is_slice(index, forward, start, opts, full),
        bfs_witness(index, forward, opts, full, ds),
        bfs_order(index, forward, opts, full, ds, ps, ks),
    ensures
        ({
            let lim = SliceOptions { max_nodes: Some(k), ..opts };
            let m = if k < full.len() { k as int } else { full.len() as int };
            &&& is_slice(index, forward, start, lim, full.take(m))
            &&& in_bfs_order(index, forward, lim, full.take(m))
        }),
{
    let edges = index.edges@;
    let md = opts.max_depth as nat;
    let lim = SliceOptions { max_nodes: Some(k), ..opts };
    let m = if k < full.len() { k as int } else { full.len() as int };
    let p = full.take(m);
    let d2 = ds.take(m);
    let ps2 = ps.take(m);
    let ks2 = ks.take(m);
    assert forall|i: int| 0 <= i < m implies p[i] == full[i] && d2[i] == ds[i] && ps2[i] == ps[i] && ks2[i] == ks[i] by {}
    // The layers of the prefix.
    assert forall|i: int| 0 < i < p.len() implies #[trigger] has_parent(edges, forward, p, d2, md, i) by {
        assert(discovered_from(edges, forward, full, ds, md, i, ps[i], ks[i]));
        let j = ps[i];
        assert(steps_to(edges, forward, full[j], full[i]));
        assert(steps_to(edges, forward, p[j], p[i]));
    }
    assert(bfs_layers(edges, forward, p, d2, md));
    if m == full.len() {
        assert(p =~= full);
        assert(d2 =~= ds);
    }
    assert(bfs_witness(index, forward, lim, p, d2));
    // The order of the prefix.
    assert forall|i: int| 0 < i < p.len() implies #[trigger] discovered_from(edges, forward, p, d2, md, i, ps2[i], ks2[i]) by {
        assert(discovered_from(edges, forward, full, ds, md, i, ps[i], ks[i]));
        assert forall|j: int| 0 <= j < ps2[i] && d2[j] < md implies !#[trigger] steps_to(edges, forward, p[j], p[i]) by {
            assert(!steps_to(edges, forward, full[j], full[i]));
        }
    }
    assert forall|a: int, b: int| #![trigger ps2[a], ps2[b]] 0 < a < b < p.len() implies key_less(ps2[a], ks2[a], ps2[b], ks2[b]) by {
        assert(key_less(ps[a], ks[a], ps[b], ks[b]));
    }
    assert forall|j: int, e: int, x: SymbolId|
        0 <= j < p.len() && d2[j] < md && 0 <= e < edges.len() && #[trigger] edge_links(edges[e], forward, p[j], x)
        implies p.contains(x) || is_excluded(index.symbols@, x, lim.include_tests) || forall|i: int|
        0 < i < p.len() ==> #[trigger] key_less(ps2[i], ks2[i], j, e) by {
        assert(edge_links(edges[e], forward, full[j], x));
        if full.contains(x) {
            let t = choose|t: int| 0 <= t < full.len() && full[t] == x;
            if t < m {
                assert(p[t] == x);
            } else {
                assert(t > 0);
                assert(discovered_from(edges, forward, full, ds, md, t, ps[t], ks[t]));
                assert(steps_to(edges, forward, full[j], x));
                assert(ps[t] <= j);
                if ps[t] == j {
                    assert(ks[t] <= e);
                }
                assert forall|i: int| 0 < i < p.len() implies #[trigger] key_less(ps2[i], ks2[i], j, e) by {
                    assert(key_less(ps[i], ks[i], ps[t], ks[t]));
                }
            }
        } else if !is_excluded(index.symbols@, x, opts.include_tests) {
            assert forall|i: int| 0 < i < p.len() implies #[trigger] key_less(ps2[i], ks2[i], j, e) by {
                assert(key_less(ps[i], ks[i], j, e));
            }
        }
    }
    assert(bfs_order(index, forward, lim, p, d2, ps2, ks2));
    assert(p.no_duplicates());
    if p.len() > 0 {
        assert(p[0] == full[0]);
    }
}

/// A node limit only cuts a slice short: with a limit of `k` nodes, a slice is
/// the first `k` results (all of them, if fewer) of the slice without limit.
pub proof fn law_node_limit_keeps_a_prefix(
    index: CodeIndex,
    forward: bool,
    start: SymbolId,
    opts: SliceOptions,
    k: usize,
    full: Seq<SymbolId>,
    cut: Seq<SymbolId>,
)
    requires
        opts.max_nodes is None,
        is_slice(index, forward, start, opts, full),
        in_bfs_order(index, forward, opts, full),
        is_slice(index, forward, start, SliceOptions { max_nodes: Some(k), ..opts }, cut),
        in_bfs_order(index, forward, SliceOptions { max_nodes: Some(k), ..opts }, cut),
    ensures
        cut == full.take(if k < full.len() { k as int } else { full.len() as int }),
{
    let (ds, ps, ks) = choose|ds: Seq<nat>, ps: Seq<int>, ks: Seq<int>|
        bfs_witness(index, forward, opts, full, ds) && #[trigger] bfs_order(index, forward, opts, full, ds, ps, ks);
    lemma_prefix_is_limited_slice(index, forward, start, opts, k, full, ds, ps, ks);
    let m = if k < full.len() { k as int } else { full.len() as int };
    law_slice_is_unique(index, forward, start, SliceOptions { max_nodes: Some(k), ..opts }, cut, full.take(m));
}

/// Symbols reachable from `start` by following calls, breadth first.
pub fn forward_slice(index: &CodeIndex, start: SymbolId, options: SliceOptions) -> (res: Vec<
    SymbolId,
>)
    ensures
        is_slice(*index, true, start, options, res@),
        in_bfs_order(*index, true, options, res@),
{
    slice_bfs(index, start, &options, true)
}

/// Symbols from which `target` is reachable by following calls, breadth first.
pub fn reverse_slice(index: &CodeIndex, target: SymbolId, options: SliceOptions) -> (res: Vec<
    SymbolId,
>)
    ensures
        is_slice(*index, false, target, options, res@),
        in_bfs_order(*index, false, options, res@),
{
    slice_bfs(index, target, &options, false)
}

} // verus!
