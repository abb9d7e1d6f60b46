//! Stable orderings and sorted, duplicate-free string lists.
use vstd::prelude::*;
use crate::paths::{path_less, path_lt};
use crate::strings::{chars_of, str_eq};

verus! {

/// `r` lists each index below `n` exactly once.
pub open spec fn is_permutation(r: Seq<usize>, n: nat) -> bool {
    &&& r.len() == n
    &&& r.no_duplicates()
    &&& forall|i: int| 0 <= i < r.len() ==> #[trigger] r[i] < n
    &&& forall|k: usize| k < n ==> r.contains(k)
}

/// Key `x` ranks below key `y`: a lower score, or the same score and a longer length.
pub open spec fn pair_lt(x: (i64, usize), y: (i64, usize)) -> bool {
    x.0 < y.0 || (x.0 == y.0 && x.1 > y.1)
}

/// Index `a` comes before index `b`: its key ranks higher, or the keys are equal and `a`
/// is earlier.
pub open spec fn key_before(keys: Seq<(i64, usize)>, a: usize, b: usize) -> bool {
    pair_lt(keys[b as int], keys[a as int]) || (keys[a as int] == keys[b as int] && a < b)
}

/// Indices ordered by decreasing score, then increasing length, equal keys keeping
/// their order.
pub open spec fn stable_desc(keys: Seq<(i64, usize)>, r: Seq<usize>) -> bool {
    &&& is_permutation(r, keys.len())
    &&& forall|i: int, j: int| 0 <= i < j < r.len() ==> key_before(keys, #[trigger] r[i], #[trigger] r[j])
}

/// The one ordering of `0..keys.len()` by rank (see `stable_desc`) that keeps ties in order.
pub open spec fn desc_order(keys: Seq<(i64, usize)>) -> Seq<usize> {
    choose|r: Seq<usize>| stable_desc(keys, r)
}

/// Two stable orderings by decreasing key are the same ordering.
pub proof fn lemma_stable_desc_unique(keys: Seq<(i64, usize)>, a: Seq<usize>, b: Seq<usize>)
    requires
        stable_desc(keys, a),
        stable_desc(keys, b),
    ensures
        a == b,
{
    assert forall|i: int| 0 <= i < a.len() implies a[i] == b[i] by {
        lemma_stable_desc_position(keys, a, b, i);
    }
    assert(a =~= b);
}

proof fn lemma_stable_desc_position(keys: Seq<(i64, usize)>, a: Seq<usize>, b: Seq<usize>, i: int)
    requires
        stable_desc(keys, a),
        stable_desc(keys, b),
        0 <= i < a.len(),
    ensures
        a[i] == b[i],
    decreases i,
{
    // every earlier position agrees, so the element at `i` is the first of what is left
    let n = keys.len();
    assert(a[i] < n);
    assert(b.contains(a[i]));
    let p = choose|p: int| 0 <= p < b.len() && b[p] == a[i];
    assert(b[i] < n);
    assert(a.contains(b[i]));
    let q = choose|q: int| 0 <= q < a.len() && a[q] == b[i];
    if p < i {
        lemma_stable_desc_position(keys, a, b, p);
        assert(a[p] == b[p]);
        assert(a[p] == a[i]);
        assert(false);
    }
    if q < i {
        lemma_stable_desc_position(keys, a, b, q);
        assert(b[q] == b[i]);
        assert(false);
    }
    if p > i && q > i {
        assert(key_before(keys, b[i], b[p]));
        assert(key_before(keys, a[i], a[q]));
        assert(false);
    }
}

/// Indices ordered by increasing path, equal paths keeping their order.
pub open spec fn stable_by_path(paths: Seq<Seq<char>>, r: Seq<usize>) -> bool {
    &&& is_permutation(r, paths.len())
    &&& forall|i: int|
        0 < i < r.len() ==> {
            &&& !path_lt(paths[#[trigger] r[i] as int], paths[r[i - 1] as int])
            &&& (!path_lt(paths[r[i - 1] as int], paths[r[i] as int]) ==> r[i - 1] < r[i])
        }
}

pub proof fn lemma_insert_perm(r: Seq<usize>, pos: int, j: usize)
    requires
        is_permutation(r, j as nat),
        0 <= pos <= r.len(),
    ensures
        is_permutation(r.insert(pos, j), (j + 1) as nat),
{
    let r2 = r.insert(pos, j);
    assert forall|a: int, b: int| 0 <= a < b < r2.len() implies r2[a] != r2[b] by {
        if a < pos && b < pos {
        } else if a < pos && b == pos {
        } else if a < pos {
            assert(r2[b] == r[b - 1]);
        } else if a == pos {
            assert(r2[b] == r[b - 1]);
        } else {
            assert(r2[a] == r[a - 1] && r2[b] == r[b - 1]);
        }
    }
    assert forall|i: int| 0 <= i < r2.len() implies #[trigger] r2[i] < j + 1 by {
        if i < pos {
        } else if i > pos {
            assert(r2[i] == r[i - 1]);
        }
    }
    assert forall|k: usize| k < j + 1 implies r2.contains(k) by {
        if k == j {
            assert(r2[pos] == j);
        } else {
            assert(r.contains(k));
            let m = choose|m: int| 0 <= m < r.len() && r[m] == k;
            if m < pos {
                assert(r2[m] == k);
            } else {
                assert(r2[m + 1] == k);
            }
        }
    }
}

proof fn lemma_insert_desc(keys: Seq<(i64, usize)>, j: usize, r0: Seq<usize>, pos: int)
    requires
        0 <= j < keys.len(),
        stable_desc(keys.subrange(0, j as int), r0),
        0 <= pos <= r0.len(),
        forall|t: int| pos <= t < r0.len() ==> pair_lt(keys[#[trigger] r0[t] as int], keys[j as int]),
        forall|t: int| 0 <= t < pos ==> !pair_lt(keys[#[trigger] r0[t] as int], keys[j as int]),
    ensures
        stable_desc(keys.subrange(0, j + 1), r0.insert(pos, j)),
{
    let sub = keys.subrange(0, j as int);
    let sub2 = keys.subrange(0, j + 1);
    let r = r0.insert(pos, j);
    lemma_insert_perm(r0, pos, j);
    assert forall|x: int, y: int| 0 <= x < y < r.len() implies key_before(sub2, #[trigger] r[x], #[trigger] r[y]) by {
        if y < pos {
            assert(r[x] == r0[x] && r[y] == r0[y]);
            assert(key_before(sub, r0[x], r0[y]));
        } else if y == pos {
            assert(r[x] == r0[x]);
            assert(r0[x] < j);
        } else if x == pos {
            assert(r[y] == r0[y - 1]);
        } else if x < pos {
            assert(r[x] == r0[x] && r[y] == r0[y - 1]);
            assert(key_before(sub, r0[x], r0[y - 1]));
        } else {
            assert(r[x] == r0[x - 1] && r[y] == r0[y - 1]);
            assert(key_before(sub, r0[x - 1], r0[y - 1]));
        }
    }
}

proof fn lemma_insert_path(pv: Seq<Seq<char>>, j: usize, r0: Seq<usize>, pos: int)
    requires
        0 <= j < pv.len(),
        stable_by_path(pv.subrange(0, j as int), r0),
        0 <= pos <= r0.len(),
        forall|t: int| pos <= t < r0.len() ==> path_lt(pv[j as int], pv[#[trigger] r0[t] as int]) && !path_lt(pv[r0[t] as int], pv[j as int]),
        pos > 0 ==> !path_lt(pv[j as int], pv[r0[pos - 1] as int]),
    ensures
        stable_by_path(pv.subrange(0, j + 1), r0.insert(pos, j)),
{
    let sub = pv.subrange(0, j as int);
    let sub2 = pv.subrange(0, j + 1);
    let r = r0.insert(pos, j);
    lemma_insert_perm(r0, pos, j);
    assert forall|i: int| 0 < i < r.len() implies {
        &&& !path_lt(sub2[#[trigger] r[i] as int], sub2[r[i - 1] as int])
        &&& (!path_lt(sub2[r[i - 1] as int], sub2[r[i] as int]) ==> r[i - 1] < r[i])
    } by {
        if i < pos {
            assert(r[i - 1] == r0[i - 1] && r[i] == r0[i]);
            assert(sub[r0[i] as int] == sub2[r0[i] as int]);
            assert(sub[r0[i - 1] as int] == sub2[r0[i - 1] as int]);
        } else if i == pos {
            assert(r[i - 1] == r0[i - 1]);
            assert(r0[i - 1] < j);
        } else if i == pos + 1 {
            assert(r[i] == r0[pos]);
            assert(path_lt(pv[j as int], pv[r0[pos] as int]));
        } else {
            assert(r[i - 1] == r0[i - 2] && r[i] == r0[i - 1]);
            assert(sub[r0[i - 1] as int] == sub2[r0[i - 1] as int]);
            assert(sub[r0[i - 2] as int] == sub2[r0[i - 2] as int]);
        }
    }
}

/// A stable ordering of indices by decreasing key (see `stable_desc`).
pub fn order_by_key_desc(keys: &Vec<(i64, usize)>) -> (r: Vec<usize>)
    ensures
        stable_desc(keys@, r@),
        r@ == desc_order(keys@),
{
    let mut r: Vec<usize> = Vec::new();
    let mut j: usize = 0;
    while j < keys.len()
        invariant
            j <= keys.len(),
            stable_desc(keys@.subrange(0, j as int), r@),
        decreases keys.len() - j,
    {
        let ghost sub = keys@.subrange(0, j as int);
        let kj = keys[j];
        let mut pos: usize = r.len();
        while pos > 0 && (keys[r[pos - 1]].0 < kj.0 || (keys[r[pos - 1]].0 == kj.0 && keys[r[
            pos - 1]].1 > kj.1))
            invariant
                pos <= r.len(),
                j < keys.len(),
                kj == keys@[j as int],
                stable_desc(sub, r@),
                sub == keys@.subrange(0, j as int),
                forall|t: int| pos <= t < r.len() ==> pair_lt(keys@[#[trigger] r@[t] as int], kj),
            decreases pos,
        {
            assert(r@[pos - 1] < j);
            pos = pos - 1;
        }
        let ghost r0 = r@;
        proof {
            assert forall|t: int| 0 <= t < pos implies !pair_lt(keys@[#[trigger] r0[t] as int], kj) by {
                assert(r0[t] < j && r0[pos - 1] < j);
                if t < pos - 1 {
                    assert(key_before(sub, r0[t], r0[pos - 1]));
                }
                assert(!pair_lt(keys@[r0[pos - 1] as int], kj));
            }
            lemma_insert_desc(keys@, j, r0, pos as int);
        }
        r.insert(pos, j);
        j = j + 1;
    }
    assert(keys@.subrange(0, keys.len() as int) =~= keys@);
    proof {
        let c = desc_order(keys@);
        assert(stable_desc(keys@, c));
        lemma_stable_desc_unique(keys@, r@, c);
    }
    r
}

/// A stable ordering of indices by increasing path (see `stable_by_path`).
pub fn order_by_path(paths: &Vec<String>) -> (r: Vec<usize>)
    ensures
        stable_by_path(paths@.map_values(|s: String| s@), r@),
{
    let ghost pv = paths@.map_values(|s: String| s@);
    let mut r: Vec<usize> = Vec::new();
    let mut j: usize = 0;
    while j < paths.len()
        invariant
            j <= paths.len(),
            pv == paths@.map_values(|s: String| s@),
            stable_by_path(pv.subrange(0, j as int), r@),
        decreases paths.len() - j,
    {
        let ghost sub = pv.subrange(0, j as int);
        let mut pos: usize = r.len();
        while pos > 0 && path_less(paths[j].as_str(), paths[r[pos - 1]].as_str())
            invariant
                pos <= r.len(),
                j < paths.len(),
                pv == paths@.map_values(|s: String| s@),
                stable_by_path(sub, r@),
                sub == pv.subrange(0, j as int),
                forall|t: int| pos <= t < r.len() ==> path_lt(pv[j as int], pv[#[trigger] r@[t] as int]) && !path_lt(pv[r@[t] as int], pv[j as int]),
            decreases pos,
        {
            assert(r@[pos - 1] < j);
            pos = pos - 1;
        }
        proof {
            if pos > 0 {
                assert(r@[pos - 1] < j);
            }
        }
        let ghost r0 = r@;
        proof {
            lemma_insert_path(pv, j, r0, pos as int);
        }
        r.insert(pos, j);
        j = j + 1;
    }
    assert(pv.subrange(0, paths.len() as int) =~= pv);
    r
}

/// Lexicographic order on character sequences by code point: the order of `str`.
pub open spec fn lex_lt(a: Seq<char>, b: Seq<char>) -> bool
    decreases a.len(),
{
    if a.len() == 0 {
        b.len() > 0
    } else if b.len() == 0 {
        false
    } else if a[0] != b[0] {
        (a[0] as int) < (b[0] as int)
    } else {
        lex_lt(a.drop_first(), b.drop_first())
    }
}

/// No sequence precedes itself.
pub proof fn lemma_lex_irreflexive(a: Seq<char>)
    ensures
        !lex_lt(a, a),
    decreases a.len(),
{
    if a.len() > 0 {
        lemma_lex_irreflexive(a.drop_first());
    }
}

/// The order is transitive.
pub proof fn lemma_lex_transitive(a: Seq<char>, b: Seq<char>, c: Seq<char>)
    requires
        lex_lt(a, b),
        lex_lt(b, c),
    ensures
        lex_lt(a, c),
    decreases a.len(),
{
    if a.len() > 0 && b.len() > 0 && c.len() > 0 {
        if a[0] == b[0] && b[0] == c[0] {
            lemma_lex_transitive(a.drop_first(), b.drop_first(), c.drop_first());
        }
    }
}

/// Two different sequences are ordered one way or the other.
pub proof fn lemma_lex_total(a: Seq<char>, b: Seq<char>)
    requires
        a != b,
    ensures
        lex_lt(a, b) || lex_lt(b, a),
    decreases a.len(),
{
    if a.len() > 0 && b.len() > 0 && a[0] == b[0] {
        if a.drop_first() == b.drop_first() {
            assert(a =~= seq![a[0]] + a.drop_first());
            assert(b =~= seq![b[0]] + b.drop_first());
        }
        lemma_lex_total(a.drop_first(), b.drop_first());
    } else if a.len() > 0 && b.len() > 0 {
        assert((a[0] as int) != (b[0] as int));
    } else if a.len() == 0 && b.len() == 0 {
        assert(a =~= b);
    }
}

proof fn lemma_lex_skip(a: Seq<char>, b: Seq<char>, i: int)
    requires
        0 <= i < a.len(),
        i < b.len(),
        a[i] == b[i],
    ensures
        lex_lt(a.skip(i), b.skip(i)) == lex_lt(a.skip(i + 1), b.skip(i + 1)),
{
    assert(a.skip(i).drop_first() =~= a.skip(i + 1));
    assert(b.skip(i).drop_first() =~= b.skip(i + 1));
}

/// Whether `a` sorts strictly before `b`.
pub fn str_less(a: &str, b: &str) -> (r: bool)
    ensures
        r == lex_lt(a@, b@),
{
    let av = chars_of(a);
    let bv = chars_of(b);
    let mut i: usize = 0;
    assert(a@.skip(0) =~= a@ && b@.skip(0) =~= b@);
    while i < av.len() && i < bv.len() && av[i] == bv[i]
        invariant
            i <= av.len(),
            i <= bv.len(),
            av@ == a@,
            bv@ == b@,
            lex_lt(a@, b@) == lex_lt(a@.skip(i as int), b@.skip(i as int)),
        decreases av.len() - i,
    {
        proof {
            lemma_lex_skip(a@, b@, i as int);
        }
        i = i + 1;
    }
    if i == av.len() {
        i < bv.len()
    } else if i == bv.len() {
        false
    } else {
        assert(a@.skip(i as int)[0] == a@[i as int]);
        assert(b@.skip(i as int)[0] == b@[i as int]);
        av[i] < bv[i]
    }
}

/// Each element strictly precedes every later one.
pub open spec fn strictly_sorted(r: Seq<Seq<char>>) -> bool {
    forall|i: int, j: int| 0 <= i < j < r.len() ==> lex_lt(#[trigger] r[i], #[trigger] r[j])
}

/// `a` and `b` hold the same elements.
pub open spec fn same_elements(a: Seq<Seq<char>>, b: Seq<Seq<char>>) -> bool {
    forall|x: Seq<char>| a.contains(x) <==> b.contains(x)
}

/// The strings of `s`, sorted, each once.
pub open spec fn sorted_unique_of(s: Seq<Seq<char>>) -> Seq<Seq<char>> {
    choose|r: Seq<Seq<char>>| strictly_sorted(r) && same_elements(r, s)
}

/// Only one sorted sequence holds a given set of elements.
pub proof fn lemma_sorted_unique(a: Seq<Seq<char>>, b: Seq<Seq<char>>)
    requires
        strictly_sorted(a),
        strictly_sorted(b),
        same_elements(a, b),
    ensures
        a == b,
    decreases a.len(),
{
    if a.len() == 0 {
        if b.len() > 0 {
            assert(b.contains(b[0]));
        }
        assert(a =~= b);
    } else if b.len() == 0 {
        assert(a.contains(a[0]));
    } else {
        assert(a.contains(a[0]));
        let j = choose|j: int| 0 <= j < b.len() && b[j] == a[0];
        assert(b.contains(b[0]));
        let i = choose|i: int| 0 <= i < a.len() && a[i] == b[0];
        if j > 0 {
            assert(lex_lt(b[0], b[j]));
            if i > 0 {
                assert(lex_lt(a[0], a[i]));
                lemma_lex_transitive(a[0], a[i], a[0]);
            }
            lemma_lex_irreflexive(a[0]);
        }
        let a1 = a.drop_first();
        let b1 = b.drop_first();
        assert forall|x: Seq<char>| a1.contains(x) implies b1.contains(x) by {
            let k = choose|k: int| 0 <= k < a1.len() && a1[k] == x;
            assert(a[k + 1] == x);
            assert(a.contains(x));
            let m = choose|m: int| 0 <= m < b.len() && b[m] == x;
            if m == 0 {
                assert(lex_lt(a[0], a[k + 1]));
                lemma_lex_irreflexive(x);
            }
            assert(b1[m - 1] == x);
        }
        assert forall|x: Seq<char>| b1.contains(x) implies a1.contains(x) by {
            let k = choose|k: int| 0 <= k < b1.len() && b1[k] == x;
            assert(b[k + 1] == x);
            assert(b.contains(x));
            let m = choose|m: int| 0 <= m < a.len() && a[m] == x;
            if m == 0 {
                assert(lex_lt(b[0], b[k + 1]));
                lemma_lex_irreflexive(x);
            }
            assert(a1[m - 1] == x);
        }
        assert(strictly_sorted(a1)) by {
            assert forall|p: int, q: int| 0 <= p < q < a1.len() implies lex_lt(#[trigger] a1[p], #[trigger] a1[q]) by {
                assert(a1[p] == a[p + 1] && a1[q] == a[q + 1]);
            }
        }
        assert(strictly_sorted(b1)) by {
            assert forall|p: int, q: int| 0 <= p < q < b1.len() implies lex_lt(#[trigger] b1[p], #[trigger] b1[q]) by {
                assert(b1[p] == b[p + 1] && b1[q] == b[q + 1]);
            }
        }
        lemma_sorted_unique(a1, b1);
        assert(a =~= seq![a[0]] + a1);
        assert(b =~= seq![b[0]] + b1);
    }
}

/// The views of a list of strings.
pub open spec fn str_views(v: Seq<String>) -> Seq<Seq<char>> {
    v.map_values(|s: String| s@)
}

/// The strings of `items`, sorted, each once (as `sort` then `dedup` leaves them).
pub fn sort_dedup(items: &Vec<String>) -> (r: Vec<String>)
    ensures
        str_views(r@) == sorted_unique_of(str_views(items@)),
{
    let ghost iv = str_views(items@);
    let mut r: Vec<String> = Vec::new();
    let mut j: usize = 0;
    while j < items.len()
        invariant
            j <= items.len(),
            iv == str_views(items@),
            strictly_sorted(str_views(r@)),
            same_elements(str_views(r@), iv.subrange(0, j as int)),
        decreases items.len() - j,
    {
        let ghost rv = str_views(r@);
        let p = items[j].as_str();
        let mut k: usize = 0;
        while k < r.len() && str_less(r[k].as_str(), p)
            invariant
                k <= r.len(),
                j < items.len(),
                p@ == iv[j as int],
                rv == str_views(r@),
                iv == str_views(items@),
                forall|t: int| 0 <= t < k ==> lex_lt(#[trigger] rv[t], p@),
            decreases r.len() - k,
        {
            k = k + 1;
        }
        let dup = k < r.len() && str_eq(r[k].as_str(), p);
        if !dup {
            let ghost pv = p@;
            proof {
                if k < r.len() {
                    assert(rv[k as int] != pv);
                    lemma_lex_total(rv[k as int], pv);
                }
                let nv = rv.insert(k as int, pv);
                assert forall|a: int, b: int| 0 <= a < b < nv.len() implies lex_lt(#[trigger] nv[a], #[trigger] nv[b]) by {
                    if b < k {
                        assert(nv[a] == rv[a] && nv[b] == rv[b]);
                    } else if b == k {
                        assert(nv[a] == rv[a]);
                    } else if a == k {
                        assert(nv[b] == rv[b - 1]);
                        if b - 1 > k {
                            lemma_lex_transitive(pv, rv[k as int], rv[b - 1]);
                        }
                    } else if a < k {
                        assert(nv[a] == rv[a] && nv[b] == rv[b - 1]);
                    } else {
                        assert(nv[a] == rv[a - 1] && nv[b] == rv[b - 1]);
                    }
                }
            }
            r.insert(k, items[j].clone());
            proof {
                assert(str_views(r@) =~= rv.insert(k as int, pv));
            }
        }
        proof {
            let nv = str_views(r@);
            let sub = iv.subrange(0, j as int);
            let sub2 = iv.subrange(0, j + 1);
            assert forall|x: Seq<char>| nv.contains(x) <==> sub2.contains(x) by {
                if nv.contains(x) {
                    let m = choose|m: int| 0 <= m < nv.len() && nv[m] == x;
                    if x != p@ {
                        if dup {
                            assert(rv[m] == x);
                            assert(rv.contains(x));
                        } else {
                            if m < k {
                                assert(rv[m] == x);
                            } else {
                                assert(m != k);
                                assert(rv[m - 1] == x);
                            }
                            assert(rv.contains(x));
                        }
                        let q = choose|q: int| 0 <= q < sub.len() && sub[q] == x;
                        assert(sub2[q] == x);
                    } else {
                        assert(sub2[j as int] == x);
                    }
                }
                if sub2.contains(x) {
                    let q = choose|q: int| 0 <= q < sub2.len() && sub2[q] == x;
                    if q < j {
                        assert(sub[q] == x);
                        assert(sub.contains(x));
                        let m = choose|m: int| 0 <= m < rv.len() && rv[m] == x;
                        if dup {
                            assert(nv[m] == x);
                        } else if m < k {
                            assert(nv[m] == x);
                        } else {
                            assert(nv[m + 1] == x);
                        }
                    } else {
                        if dup {
                            assert(nv[k as int] == x);
                        } else {
                            assert(nv[k as int] == x);
                        }
                    }
                }
            }
        }
        j = j + 1;
    }
    proof {
        assert(iv.subrange(0, items.len() as int) =~= iv);
        let rv = str_views(r@);
        assert(strictly_sorted(rv) && same_elements(rv, iv));
        let c = sorted_unique_of(iv);
        assert(strictly_sorted(c) && same_elements(c, iv));
        assert(same_elements(rv, c));
        lemma_sorted_unique(rv, c);
    }
    r
}

/// Each element is at most every later one.
pub open spec fn sorted_le(r: Seq<Seq<char>>) -> bool {
    forall|i: int, j: int| 0 <= i < j < r.len() ==> !lex_lt(#[trigger] r[j], #[trigger] r[i])
}

/// The elements of `s` in the order `p` lists their positions.
pub open spec fn permute<A>(s: Seq<A>, p: Seq<usize>) -> Seq<A> {
    p.map_values(|i: usize| s[i as int])
}

/// `r` holds the strings of `s`, each as often as there, in sorted order.
pub open spec fn is_sorted_permutation(s: Seq<Seq<char>>, r: Seq<Seq<char>>) -> bool {
    &&& sorted_le(r)
    &&& exists|p: Seq<usize>| is_permutation(p, s.len()) && r == permute(s, p)
}

/// The strings of `items` in sorted order, repeats kept (as `sort` leaves them).
pub fn sort_strings(items: &Vec<String>) -> (r: Vec<String>)
    ensures
        is_sorted_permutation(str_views(items@), str_views(r@)),
{
    let ghost iv = str_views(items@);
    let mut p: Vec<usize> = Vec::new();
    let mut j: usize = 0;
    while j < items.len()
        invariant
            j <= items.len(),
            iv == str_views(items@),
            is_permutation(p@, j as nat),
            sorted_le(permute(iv, p@)),
        decreases items.len() - j,
    {
        let ghost rv = permute(iv, p@);
        let x = items[j].as_str();
        let mut pos: usize = p.len();
        while pos > 0 && str_less(x, items[p[pos - 1]].as_str())
            invariant
                pos <= p.len(),
                j < items.len(),
                x@ == iv[j as int],
                iv == str_views(items@),
                is_permutation(p@, j as nat),
                rv == permute(iv, p@),
                forall|t: int| pos <= t < p.len() ==> lex_lt(x@, #[trigger] rv[t]),
            decreases pos,
        {
            assert(p@[pos - 1] < j);
            assert(rv[pos - 1] == iv[p@[pos - 1] as int]);
            pos = pos - 1;
        }
        let ghost p0 = p@;
        proof {
            lemma_insert_perm(p0, pos as int, j);
            let nv = permute(iv, p0.insert(pos as int, j));
            assert(nv =~= rv.insert(pos as int, x@));
            if pos > 0 {
                assert(rv[pos - 1] == iv[p0[pos - 1] as int]);
                assert(!lex_lt(x@, rv[pos - 1]));
            }
            assert forall|a: int, b: int| 0 <= a < b < nv.len() implies !lex_lt(#[trigger] nv[b], #[trigger] nv[a]) by {
                if b < pos {
                    assert(nv[a] == rv[a] && nv[b] == rv[b]);
                } else if b == pos {
                    assert(nv[a] == rv[a]);
                    // rv[a] <= rv[pos - 1] <= x
                    if a < pos - 1 {
                        assert(!lex_lt(rv[pos - 1], rv[a]));
                    }
                    if lex_lt(x@, rv[a]) {
                        if a < pos - 1 {
                            if rv[pos - 1] == rv[a] {
                            } else {
                                lemma_lex_total(rv[pos - 1], rv[a]);
                                lemma_lex_transitive(x@, rv[a], rv[pos - 1]);
                            }
                        }
                    }
                } else if a == pos {
                    assert(nv[b] == rv[b - 1]);
                    assert(lex_lt(x@, rv[b - 1]));
                    if lex_lt(rv[b - 1], x@) {
                        lemma_lex_transitive(x@, rv[b - 1], x@);
                        lemma_lex_irreflexive(x@);
                    }
                } else if a < pos {
                    assert(nv[a] == rv[a] && nv[b] == rv[b - 1]);
                } else {
                    assert(nv[a] == rv[a - 1] && nv[b] == rv[b - 1]);
                }
            }
        }
        p.insert(pos, j);
        j = j + 1;
    }
    let mut r: Vec<String> = Vec::new();
    let mut k: usize = 0;
    while k < p.len()
        invariant
            k <= p.len(),
            p.len() == items.len(),
            iv == str_views(items@),
            forall|t: int| 0 <= t < p.len() ==> #[trigger] p@[t] < items.len(),
            str_views(r@) == permute(iv, p@.take(k as int)),
        decreases p.len() - k,
    {
        let ghost r0 = r@;
        let x = items[p[k]].clone();
        r.push(x);
        proof {
            assert(r@ == r0.push(items@[p@[k as int] as int]));
            assert(str_views(r@) =~= str_views(r0).push(items@[p@[k as int] as int]@));
        }
        k = k + 1;
        assert(str_views(r@) =~= permute(iv, p@.take(k as int)));
    }
    assert(p@.take(p.len() as int) =~= p@);
    r
}

} // verus!
