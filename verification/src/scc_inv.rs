//! What Tarjan's search keeps true at every step, and why each step keeps
//! it. The facts are stated over the component stack `s`, the open path
//! `w` of the depth-first search (each entry a vertex and how many of its
//! edges have been looked at), the DFS numbers `index` and the `lowlink`
//! values, with `lw[x]` a vertex on the stack that `x` reaches and whose
//! number is `lowlink[x]`.

use vstd::prelude::*;
use crate::scc::{occ, flat, well_formed_adj, edge, edge_at, is_path, reaches, mutually_reachable, is_vertex_partition, visited_set, lemma_reaches_refl, lemma_reaches_edge,
    lemma_reaches_trans, lemma_occ_concat, lemma_flat_push};

verus! {

/// `x` is on the open path of the search.
pub open spec fn on_path(w: Seq<(usize, usize)>, x: int) -> bool {
    exists|k: int| 0 <= k < w.len() && #[trigger] w[k].0 as int == x
}

/// Edge `e` of `x` has been looked at: every edge once the search of `x`
/// has closed, the first ones while it is open.
pub open spec fn explored(adj: Seq<Vec<usize>>, w: Seq<(usize, usize)>, x: int, e: int) -> bool {
    &&& 0 <= x < adj.len()
    &&& 0 <= e < adj[x]@.len()
    &&& forall|k: int| 0 <= k < w.len() && #[trigger] w[k].0 as int == x ==> e < w[k].1
}

/// `x` reaches the stacked vertex `lw[x]`, numbered `lowlink[x]`.
pub open spec fn wit_ok(adj: Seq<Vec<usize>>, index: Seq<i64>, lowlink: Seq<i64>, s: Seq<usize>, lw: Seq<int>, x: int)
    -> bool
{
    &&& 0 <= lw[x] < adj.len()
    &&& occ(s, lw[x]) > 0
    &&& index[lw[x]] == lowlink[x]
    &&& reaches(adj, x, lw[x])
}

/// An edge from `x` to `z` that has been looked at: `z` is numbered, and
/// when `z` is stacked, `lowlink[x]` is at most its number.
pub open spec fn edge_ok(index: Seq<i64>, lowlink: Seq<i64>, s: Seq<usize>, x: int, z: int) -> bool {
    &&& index[z] != -1
    &&& occ(s, z) > 0 ==> lowlink[x] <= index[z]
}

/// The stack holds vertices in increasing DFS number.
pub open spec fn sorted_by_index(index: Seq<i64>, s: Seq<usize>) -> bool {
    forall|i: int, j: int| 0 <= i < j < s.len() ==> index[#[trigger] s[i] as int] < index[#[trigger] s[j] as int]
}

/// The facts the search keeps.
pub closed spec fn search_inv(adj: Seq<Vec<usize>>, index: Seq<i64>, lowlink: Seq<i64>, s: Seq<usize>,
    w: Seq<(usize, usize)>, lw: Seq<int>) -> bool
{
    &&& lw.len() == adj.len()
    &&& sorted_by_index(index, s)
    &&& forall|i: int| 0 <= i < s.len() ==> 0 <= #[trigger] s[i] < adj.len() && index[s[i] as int] != -1
    &&& forall|k: int| 0 < k < w.len() ==> edge(adj, w[k - 1].0 as int, #[trigger] w[k].0 as int)
            && index[w[k - 1].0 as int] < index[w[k].0 as int]
    &&& forall|k: int| 0 <= k < w.len() ==> occ(s, #[trigger] w[k].0 as int) > 0
    &&& forall|k: int, i: int| 0 <= k < w.len() && 0 <= i < s.len()
            && index[#[trigger] w[k].0 as int] <= index[#[trigger] s[i] as int]
            ==> reaches(adj, w[k].0 as int, s[i] as int)
    &&& forall|i: int| 0 <= i < s.len() ==> wit_ok(adj, index, lowlink, s, lw, #[trigger] s[i] as int)
    &&& forall|i: int| 0 <= i < s.len() && !on_path(w, #[trigger] s[i] as int)
            ==> lowlink[s[i] as int] < index[s[i] as int]
    &&& forall|k: int, i: int| 0 <= k < w.len() && 0 <= i < s.len() && !on_path(w, s[i] as int)
            && index[#[trigger] w[k].0 as int] < index[#[trigger] s[i] as int]
            && (k + 1 == w.len() || index[s[i] as int] < index[w[k + 1].0 as int])
            ==> lowlink[w[k].0 as int] <= lowlink[s[i] as int]
    &&& forall|i: int, e: int| 0 <= i < s.len() && #[trigger] explored(adj, w, s[i] as int, e)
            ==> edge_ok(index, lowlink, s, s[i] as int, adj[s[i] as int]@[e] as int)
}


/// The state right after the search numbers its first vertex.
pub proof fn lemma_inv_start(adj: Seq<Vec<usize>>, index: Seq<i64>, lowlink: Seq<i64>, start: usize, lw: Seq<int>)
    requires
        start < adj.len(),
        index.len() == adj.len(),
        lowlink.len() == adj.len(),
        lw.len() == adj.len(),
        index[start as int] != -1,
        lowlink[start as int] == index[start as int],
        lw[start as int] == start,
    ensures
        search_inv(adj, index, lowlink, seq![start], seq![(start, 0usize)], lw),
{
    let s = seq![start];
    let w = seq![(start, 0usize)];
    assert(s.drop_last() =~= Seq::<usize>::empty());
    assert(s.last() == start);
    assert(occ(Seq::<usize>::empty(), start as int) == 0);
    assert(occ(s, start as int) == 1);
    lemma_reaches_refl(adj, start as int);
    assert(on_path(w, start as int)) by {
        assert(w[0].0 as int == start as int);
    }
    assert forall|i: int, e: int| 0 <= i < s.len() && #[trigger] explored(adj, w, s[i] as int, e)
        implies edge_ok(index, lowlink, s, s[i] as int, adj[s[i] as int]@[e] as int) by {
        assert(w[0].0 as int == s[i] as int);
    }
}

/// What holds when the edge `i` of the open vertex `v` (the last on the
/// path) leads to the unnumbered vertex `x`, about to be numbered `c`.
pub open spec fn visit_pre(adj: Seq<Vec<usize>>, index: Seq<i64>, lowlink: Seq<i64>, s: Seq<usize>,
    w: Seq<(usize, usize)>, lw: Seq<int>, x: usize, c: i64) -> bool
{
    &&& search_inv(adj, index, lowlink, s, w, lw)
    &&& well_formed_adj(adj)
    &&& index.len() == adj.len()
    &&& lowlink.len() == adj.len()
    &&& w.len() > 0
    &&& 0 <= w.last().0 < adj.len()
    &&& w.last().1 < adj[w.last().0 as int]@.len()
    &&& w.last().1 < usize::MAX
    &&& x == adj[w.last().0 as int]@[w.last().1 as int]
    &&& x < adj.len()
    &&& index[x as int] == -1
    &&& c >= 0
    &&& forall|u: int| 0 <= u < adj.len() && index[u] != -1 ==> index[u] < c && lowlink[u] <= index[u]
}

/// The path after the edge has been counted and `x` opened.
pub open spec fn visit_path(w: Seq<(usize, usize)>, x: usize) -> Seq<(usize, usize)> {
    w.update(w.len() - 1, (w.last().0, (w.last().1 + 1) as usize)).push((x, 0usize))
}

proof fn lemma_visit_facts(adj: Seq<Vec<usize>>, index: Seq<i64>, lowlink: Seq<i64>, s: Seq<usize>,
    w: Seq<(usize, usize)>, lw: Seq<int>, x: usize, c: i64)
    requires
        visit_pre(adj, index, lowlink, s, w, lw, x, c),
    ensures
        forall|z: int| #[trigger] occ(s.push(x), z) == occ(s, z) + if z == x as int { 1nat } else { 0nat },
        forall|j: int| 0 <= j < s.len() ==> #[trigger] s[j] != x,
        forall|k: int| 0 <= k < w.len() ==> #[trigger] w[k].0 != x,
        forall|z: int| #[trigger] occ(s, z) > 0 ==> z != x as int && 0 <= z < adj.len() && index[z] != -1,
        edge(adj, w.last().0 as int, x as int),
        index[w.last().0 as int] != -1,
{
    let v = w.last().0;
    let i = w.last().1;
    assert(s.push(x).drop_last() =~= s);
    assert forall|z: int| #[trigger] occ(s.push(x), z) == occ(s, z) + if z == x as int { 1nat } else { 0nat } by {
        assert(s.push(x).last() == x);
    }
    assert forall|j: int| 0 <= j < s.len() implies #[trigger] s[j] != x by {
        assert(index[s[j] as int] != -1);
    }
    assert forall|z: int| #[trigger] occ(s, z) > 0 implies z != x as int && 0 <= z < adj.len() && index[z] != -1 by {
        let j = lemma_occ_index(s, z);
        assert(index[s[j] as int] != -1);
    }
    assert forall|k: int| 0 <= k < w.len() implies #[trigger] w[k].0 != x by {
        assert(occ(s, w[k].0 as int) > 0);
    }
    assert(occ(s, v as int) > 0);
    assert(edge(adj, v as int, x as int)) by {
        assert(adj[v as int]@[i as int] == x);
    }
}

/// A position where a vertex that occurs stands.
pub proof fn lemma_occ_index(s: Seq<usize>, z: int) -> (j: int)
    requires
        occ(s, z) > 0,
    ensures
        0 <= j < s.len(),
        s[j] as int == z,
    decreases s.len(),
{
    if s.last() as int == z {
        s.len() - 1
    } else {
        let j = lemma_occ_index(s.drop_last(), z);
        assert(s[j] == s.drop_last()[j]);
        j
    }
}

proof fn lemma_visit_stack(adj: Seq<Vec<usize>>, index: Seq<i64>, lowlink: Seq<i64>, s: Seq<usize>,
    w: Seq<(usize, usize)>, lw: Seq<int>, x: usize, c: i64)
    requires
        visit_pre(adj, index, lowlink, s, w, lw, x, c),
    ensures
        ({
            let index2 = index.update(x as int, c);
            let lowlink2 = lowlink.update(x as int, c);
            let s2 = s.push(x);
            let lw2 = lw.update(x as int, x as int);
            &&& lw2.len() == adj.len()
            &&& sorted_by_index(index2, s2)
            &&& forall|j: int| 0 <= j < s2.len() ==> 0 <= #[trigger] s2[j] < adj.len() && index2[s2[j] as int] != -1
            &&& forall|j: int| 0 <= j < s2.len() ==> wit_ok(adj, index2, lowlink2, s2, lw2, #[trigger] s2[j] as int)
        }),
{
    lemma_visit_facts(adj, index, lowlink, s, w, lw, x, c);
    let index2 = index.update(x as int, c);
    let lowlink2 = lowlink.update(x as int, c);
    let s2 = s.push(x);
    let lw2 = lw.update(x as int, x as int);
    assert forall|a: int, b: int| 0 <= a < b < s2.len() implies index2[#[trigger] s2[a] as int] < index2[#[trigger] s2[b] as int] by {
        assert(s2[a] == s[a]);
        assert(s[a] != x);
        if b < s.len() {
            assert(s2[b] == s[b]);
            assert(s[b] != x);
        } else {
            assert(index[s[a] as int] != -1);
        }
    }
    assert forall|j: int| 0 <= j < s2.len() implies 0 <= #[trigger] s2[j] < adj.len() && index2[s2[j] as int] != -1 by {
        if j < s.len() {
            assert(s2[j] == s[j]);
        }
    }
    assert forall|j: int| 0 <= j < s2.len() implies wit_ok(adj, index2, lowlink2, s2, lw2, #[trigger] s2[j] as int) by {
        if j < s.len() {
            let y = s[j] as int;
            assert(s2[j] == s[j]);
            assert(s[j] != x);
            assert(wit_ok(adj, index, lowlink, s, lw, y));
            assert(occ(s, lw[y]) > 0);
        } else {
            lemma_reaches_refl(adj, x as int);
        }
    }
}

proof fn lemma_visit_path(adj: Seq<Vec<usize>>, index: Seq<i64>, lowlink: Seq<i64>, s: Seq<usize>,
    w: Seq<(usize, usize)>, lw: Seq<int>, x: usize, c: i64)
    requires
        visit_pre(adj, index, lowlink, s, w, lw, x, c),
    ensures
        ({
            let index2 = index.update(x as int, c);
            let s2 = s.push(x);
            let w2 = visit_path(w, x);
            &&& forall|k: int| 0 < k < w2.len() ==> edge(adj, w2[k - 1].0 as int, #[trigger] w2[k].0 as int)
                    && index2[w2[k - 1].0 as int] < index2[w2[k].0 as int]
            &&& forall|k: int| 0 <= k < w2.len() ==> occ(s2, #[trigger] w2[k].0 as int) > 0
            &&& forall|k: int, j: int| 0 <= k < w2.len() && 0 <= j < s2.len()
                    && index2[#[trigger] w2[k].0 as int] <= index2[#[trigger] s2[j] as int]
                    ==> reaches(adj, w2[k].0 as int, s2[j] as int)
        }),
{
    lemma_visit_facts(adj, index, lowlink, s, w, lw, x, c);
    let v = w.last().0;
    let i = w.last().1;
    let index2 = index.update(x as int, c);
    let s2 = s.push(x);
    let w1 = w.update(w.len() - 1, (v, (i + 1) as usize));
    let w2 = visit_path(w, x);
    let t = w.len() - 1;
    assert(w2 == w1.push((x, 0usize)));
    assert forall|k: int| 0 < k < w2.len() implies edge(adj, w2[k - 1].0 as int, #[trigger] w2[k].0 as int)
        && index2[w2[k - 1].0 as int] < index2[w2[k].0 as int] by {
        if k < w.len() {
            assert(w2[k].0 == w[k].0 && w2[k - 1].0 == w[k - 1].0);
            assert(w[k].0 != x && w[k - 1].0 != x);
        } else {
            assert(w2[k - 1].0 == v);
            assert(w[t].0 != x);
        }
    }
    assert forall|k: int| 0 <= k < w2.len() implies occ(s2, #[trigger] w2[k].0 as int) > 0 by {
        if k < w.len() {
            assert(w2[k].0 == w[k].0);
        }
    }
    assert forall|k: int, j: int| 0 <= k < w2.len() && 0 <= j < s2.len()
        && index2[#[trigger] w2[k].0 as int] <= index2[#[trigger] s2[j] as int]
        implies reaches(adj, w2[k].0 as int, s2[j] as int) by {
        if k < w.len() {
            assert(w2[k].0 == w[k].0);
            assert(w[k].0 != x);
            if j < s.len() {
                assert(s2[j] == s[j]);
                assert(s[j] != x);
            } else {
                assert(occ(s, v as int) > 0);
                let q = lemma_occ_index(s, v as int);
                if k < t {
                    lemma_path_increasing(adj, index, w, k, t);
                }
                assert(index[w[k].0 as int] <= index[s[q] as int]);
                assert(reaches(adj, w[k].0 as int, s[q] as int));
                lemma_reaches_edge(adj, v as int, x as int);
                lemma_reaches_trans(adj, w[k].0 as int, v as int, x as int);
            }
        } else {
            if j < s.len() {
                assert(s2[j] == s[j]);
                assert(s[j] != x);
                assert(index[s[j] as int] != -1);
            } else {
                lemma_reaches_refl(adj, x as int);
            }
        }
    }
}

proof fn lemma_visit_closed(adj: Seq<Vec<usize>>, index: Seq<i64>, lowlink: Seq<i64>, s: Seq<usize>,
    w: Seq<(usize, usize)>, lw: Seq<int>, x: usize, c: i64)
    requires
        visit_pre(adj, index, lowlink, s, w, lw, x, c),
    ensures
        ({
            let index2 = index.update(x as int, c);
            let lowlink2 = lowlink.update(x as int, c);
            let s2 = s.push(x);
            let w2 = visit_path(w, x);
            &&& forall|j: int| 0 <= j < s2.len() && !on_path(w2, #[trigger] s2[j] as int)
                    ==> lowlink2[s2[j] as int] < index2[s2[j] as int]
            &&& forall|k: int, j: int| 0 <= k < w2.len() && 0 <= j < s2.len() && !on_path(w2, s2[j] as int)
                    && index2[#[trigger] w2[k].0 as int] < index2[#[trigger] s2[j] as int]
                    && (k + 1 == w2.len() || index2[s2[j] as int] < index2[w2[k + 1].0 as int])
                    ==> lowlink2[w2[k].0 as int] <= lowlink2[s2[j] as int]
        }),
{
    lemma_visit_facts(adj, index, lowlink, s, w, lw, x, c);
    let index2 = index.update(x as int, c);
    let lowlink2 = lowlink.update(x as int, c);
    let s2 = s.push(x);
    let w2 = visit_path(w, x);
    assert forall|j: int| 0 <= j < s2.len() && !on_path(w2, #[trigger] s2[j] as int)
        implies lowlink2[s2[j] as int] < index2[s2[j] as int] by {
        if j < s.len() {
            assert(s2[j] == s[j]);
            assert(s[j] != x);
            if on_path(w, s[j] as int) {
                let k = choose|k: int| 0 <= k < w.len() && #[trigger] w[k].0 as int == s[j] as int;
                assert(w2[k].0 == w[k].0);
            }
        } else {
            assert(w2[w.len() as int].0 as int == x as int);
        }
    }
    assert forall|k: int, j: int| 0 <= k < w2.len() && 0 <= j < s2.len() && !on_path(w2, s2[j] as int)
        && index2[#[trigger] w2[k].0 as int] < index2[#[trigger] s2[j] as int]
        && (k + 1 == w2.len() || index2[s2[j] as int] < index2[w2[k + 1].0 as int])
        implies lowlink2[w2[k].0 as int] <= lowlink2[s2[j] as int] by {
        if j == s.len() {
            assert(w2[w.len() as int].0 as int == x as int);
        } else {
            assert(s2[j] == s[j]);
            assert(s[j] != x);
            assert(!on_path(w, s[j] as int)) by {
                if on_path(w, s[j] as int) {
                    let q = choose|q: int| 0 <= q < w.len() && #[trigger] w[q].0 as int == s[j] as int;
                    assert(w2[q].0 == w[q].0);
                }
            }
            if k < w.len() {
                assert(w2[k].0 == w[k].0);
                assert(w[k].0 != x);
                if k + 1 < w.len() {
                    assert(w2[k + 1].0 == w[k + 1].0);
                    assert(w[k + 1].0 != x);
                }
            } else {
                assert(index[s[j] as int] != -1);
            }
        }
    }
}

proof fn lemma_visit_edges(adj: Seq<Vec<usize>>, index: Seq<i64>, lowlink: Seq<i64>, s: Seq<usize>,
    w: Seq<(usize, usize)>, lw: Seq<int>, x: usize, c: i64)
    requires
        visit_pre(adj, index, lowlink, s, w, lw, x, c),
    ensures
        ({
            let index2 = index.update(x as int, c);
            let lowlink2 = lowlink.update(x as int, c);
            let s2 = s.push(x);
            let w2 = visit_path(w, x);
            forall|j: int, e: int| 0 <= j < s2.len() && #[trigger] explored(adj, w2, s2[j] as int, e)
                ==> edge_ok(index2, lowlink2, s2, s2[j] as int, adj[s2[j] as int]@[e] as int)
        }),
{
    lemma_visit_facts(adj, index, lowlink, s, w, lw, x, c);
    let v = w.last().0;
    let i = w.last().1;
    let index2 = index.update(x as int, c);
    let lowlink2 = lowlink.update(x as int, c);
    let s2 = s.push(x);
    let w2 = visit_path(w, x);
    let t = w.len() - 1;
    assert forall|j: int, e: int| 0 <= j < s2.len() && #[trigger] explored(adj, w2, s2[j] as int, e)
        implies edge_ok(index2, lowlink2, s2, s2[j] as int, adj[s2[j] as int]@[e] as int) by {
        if j == s.len() {
            assert(w2[w.len() as int].0 as int == x as int);
        } else {
            let y = s[j];
            assert(s2[j] == y);
            assert(y != x);
            let z = adj[y as int]@[e] as int;
            assert(index[y as int] != -1);
            assert(lowlink[y as int] <= index[y as int] && index[y as int] < c);
            if y == v && e == i as int {
                assert(z == x as int);
                assert(index2[z] == c);
                assert(lowlink2[y as int] == lowlink[y as int]);
                assert(edge_ok(index2, lowlink2, s2, y as int, z));
            } else {
                assert(explored(adj, w, y as int, e)) by {
                    assert forall|k: int| 0 <= k < w.len() && #[trigger] w[k].0 as int == y as int implies e < w[k].1 by {
                        if k == t {
                            assert(w2[k] == (v, (i + 1) as usize));
                            assert(w2[k].0 as int == y as int);
                        } else {
                            assert(w2[k] == w[k]);
                            assert(w2[k].0 as int == y as int);
                        }
                    }
                }
                assert(edge_ok(index, lowlink, s, y as int, z));
                assert(z != x as int);
                assert(z < adj.len()) by {
                    assert(adj[y as int]@[e] < adj.len());
                }
                assert(occ(s2, z) == occ(s, z));
                assert(index2[z] == index[z]);
                assert(lowlink2[y as int] == lowlink[y as int]);
                assert(edge_ok(index2, lowlink2, s2, y as int, z));
            }
        }
    }
}

/// Numbering the vertex `x` that the edge `i` of the open vertex `v` leads
/// to, and opening its search, keeps the facts.
pub proof fn lemma_inv_visit(adj: Seq<Vec<usize>>, index: Seq<i64>, lowlink: Seq<i64>, s: Seq<usize>,
    w: Seq<(usize, usize)>, lw: Seq<int>, x: usize, c: i64)
    requires
        visit_pre(adj, index, lowlink, s, w, lw, x, c),
    ensures
        search_inv(adj, index.update(x as int, c), lowlink.update(x as int, c), s.push(x), visit_path(w, x),
            lw.update(x as int, x as int)),
{
    lemma_visit_stack(adj, index, lowlink, s, w, lw, x, c);
    lemma_visit_path(adj, index, lowlink, s, w, lw, x, c);
    lemma_visit_closed(adj, index, lowlink, s, w, lw, x, c);
    lemma_visit_edges(adj, index, lowlink, s, w, lw, x, c);
}

/// What holds when the edge `i` of the open vertex `v` (the last on the
/// path) leads to the already numbered vertex `x`.
pub open spec fn seen_pre(adj: Seq<Vec<usize>>, index: Seq<i64>, lowlink: Seq<i64>, s: Seq<usize>,
    w: Seq<(usize, usize)>, lw: Seq<int>, x: usize) -> bool
{
    &&& search_inv(adj, index, lowlink, s, w, lw)
    &&& well_formed_adj(adj)
    &&& index.len() == adj.len()
    &&& lowlink.len() == adj.len()
    &&& w.len() > 0
    &&& 0 <= w.last().0 < adj.len()
    &&& w.last().1 < adj[w.last().0 as int]@.len()
    &&& w.last().1 < usize::MAX
    &&& x == adj[w.last().0 as int]@[w.last().1 as int]
    &&& x < adj.len()
    &&& index[x as int] != -1
    &&& forall|u: int| 0 <= u < adj.len() && index[u] != -1 ==> lowlink[u] <= index[u]
}

/// The path after the edge has been counted.
pub open spec fn step_path(w: Seq<(usize, usize)>) -> Seq<(usize, usize)> {
    w.update(w.len() - 1, (w.last().0, (w.last().1 + 1) as usize))
}

/// The lowlink of `v` after its edge to `x`: lowered to the number of `x`
/// when `x` is stacked with a smaller number.
pub open spec fn seen_lowlink(index: Seq<i64>, lowlink: Seq<i64>, s: Seq<usize>, v: int, x: int) -> Seq<i64> {
    if occ(s, x) > 0 && index[x] < lowlink[v] { lowlink.update(v, index[x]) } else { lowlink }
}

pub open spec fn seen_lw(index: Seq<i64>, lowlink: Seq<i64>, s: Seq<usize>, lw: Seq<int>, v: int, x: int) -> Seq<int> {
    if occ(s, x) > 0 && index[x] < lowlink[v] { lw.update(v, x) } else { lw }
}

/// Looking at an edge to a numbered vertex keeps the facts.
pub proof fn lemma_inv_seen(adj: Seq<Vec<usize>>, index: Seq<i64>, lowlink: Seq<i64>, s: Seq<usize>,
    w: Seq<(usize, usize)>, lw: Seq<int>, x: usize)
    requires
        seen_pre(adj, index, lowlink, s, w, lw, x),
    ensures
        search_inv(adj, index, seen_lowlink(index, lowlink, s, w.last().0 as int, x as int), s, step_path(w),
            seen_lw(index, lowlink, s, lw, w.last().0 as int, x as int)),
{
    let v = w.last().0;
    let i = w.last().1;
    let t = w.len() - 1;
    let lowlink2 = seen_lowlink(index, lowlink, s, v as int, x as int);
    let lw2 = seen_lw(index, lowlink, s, lw, v as int, x as int);
    let w1 = step_path(w);
    assert(edge(adj, v as int, x as int)) by {
        assert(adj[v as int]@[i as int] == x);
    }
    assert(occ(s, v as int) > 0) by {
        assert(occ(s, w[t].0 as int) > 0);
    }
    let q = lemma_occ_index(s, v as int);
    assert(index[v as int] != -1);
    assert forall|y: int| #[trigger] on_path(w1, y) == on_path(w, y) by {
        if on_path(w, y) {
            let k = choose|k: int| 0 <= k < w.len() && #[trigger] w[k].0 as int == y;
            assert(w1[k].0 == w[k].0);
        }
        if on_path(w1, y) {
            let k = choose|k: int| 0 <= k < w1.len() && #[trigger] w1[k].0 as int == y;
            assert(w1[k].0 == w[k].0);
        }
    }
    assert forall|k: int| 0 <= k < w1.len() implies #[trigger] w1[k].0 == w[k].0 by {}
    assert forall|u: int| 0 <= u < adj.len() && u != v as int implies #[trigger] lowlink2[u] == lowlink[u] by {}
    assert(lowlink2[v as int] <= lowlink[v as int]);
    assert forall|j: int| 0 <= j < s.len() implies wit_ok(adj, index, lowlink2, s, lw2, #[trigger] s[j] as int) by {
        let y = s[j] as int;
        if y == v as int && occ(s, x as int) > 0 && index[x as int] < lowlink[v as int] {
            lemma_reaches_edge(adj, v as int, x as int);
        } else {
            assert(wit_ok(adj, index, lowlink, s, lw, y));
        }
    }
    assert forall|j: int| 0 <= j < s.len() && !on_path(w1, #[trigger] s[j] as int)
        implies lowlink2[s[j] as int] < index[s[j] as int] by {
        assert(!on_path(w, s[j] as int));
        if s[j] as int == v as int {
            assert(w[t].0 as int == v as int);
        }
    }
    assert forall|k: int, j: int| 0 <= k < w1.len() && 0 <= j < s.len() && !on_path(w1, s[j] as int)
        && index[#[trigger] w1[k].0 as int] < index[#[trigger] s[j] as int]
        && (k + 1 == w1.len() || index[s[j] as int] < index[w1[k + 1].0 as int])
        implies lowlink2[w1[k].0 as int] <= lowlink2[s[j] as int] by {
        assert(!on_path(w, s[j] as int));
        if s[j] as int == v as int {
            assert(w[t].0 as int == v as int);
        }
        assert(w1[k].0 == w[k].0);
        if k + 1 < w1.len() {
            assert(w1[k + 1].0 == w[k + 1].0);
        }
        assert(lowlink[w[k].0 as int] <= lowlink[s[j] as int]);
        assert(w[k].0 < adj.len());
    }
    assert forall|j: int, e: int| 0 <= j < s.len() && #[trigger] explored(adj, w1, s[j] as int, e)
        implies edge_ok(index, lowlink2, s, s[j] as int, adj[s[j] as int]@[e] as int) by {
        let y = s[j];
        let z = adj[y as int]@[e] as int;
        assert(z < adj.len()) by {
            assert(adj[y as int]@[e] < adj.len());
        }
        if y == v && e == i as int {
            assert(z == x as int);
        } else {
            assert(explored(adj, w, y as int, e)) by {
                assert forall|k: int| 0 <= k < w.len() && #[trigger] w[k].0 as int == y as int implies e < w[k].1 by {
                    assert(w1[k].0 as int == y as int);
                    if k == t {
                        assert(w1[k] == (v, (i + 1) as usize));
                    } else {
                        assert(w1[k] == w[k]);
                    }
                }
            }
            assert(edge_ok(index, lowlink, s, y as int, z));
        }
    }
    assert forall|k: int| 0 < k < w1.len() implies edge(adj, w1[k - 1].0 as int, #[trigger] w1[k].0 as int)
        && index[w1[k - 1].0 as int] < index[w1[k].0 as int] by {
        assert(w1[k - 1].0 == w[k - 1].0);
    }
    assert forall|k: int| 0 <= k < w1.len() implies occ(s, #[trigger] w1[k].0 as int) > 0 by {
        assert(w1[k].0 == w[k].0);
    }
    assert forall|k: int, j: int| 0 <= k < w1.len() && 0 <= j < s.len()
        && index[#[trigger] w1[k].0 as int] <= index[#[trigger] s[j] as int]
        implies reaches(adj, w1[k].0 as int, s[j] as int) by {
        assert(w1[k].0 == w[k].0);
    }
}

/// What holds when the open vertex `v` (the last on the path) has looked
/// at all its edges.
pub open spec fn finish_pre(adj: Seq<Vec<usize>>, index: Seq<i64>, lowlink: Seq<i64>, s: Seq<usize>,
    w: Seq<(usize, usize)>, lw: Seq<int>) -> bool
{
    &&& search_inv(adj, index, lowlink, s, w, lw)
    &&& well_formed_adj(adj)
    &&& index.len() == adj.len()
    &&& lowlink.len() == adj.len()
    &&& w.len() > 0
    &&& 0 <= w.last().0 < adj.len()
    &&& w.last().1 == adj[w.last().0 as int]@.len()
    &&& forall|u: int| 0 <= u < adj.len() && index[u] != -1 ==> lowlink[u] <= index[u]
}

/// The lowlink of the parent `p` after its child `v` closes.
pub open spec fn up_lowlink(lowlink: Seq<i64>, p: int, v: int) -> Seq<i64> {
    if lowlink[v] < lowlink[p] { lowlink.update(p, lowlink[v]) } else { lowlink }
}

pub open spec fn up_lw(lowlink: Seq<i64>, lw: Seq<int>, p: int, v: int) -> Seq<int> {
    if lowlink[v] < lowlink[p] { lw.update(p, lw[v]) } else { lw }
}

proof fn lemma_path_distinct(adj: Seq<Vec<usize>>, index: Seq<i64>, w: Seq<(usize, usize)>)
    requires
        forall|k: int| 0 < k < w.len() ==> edge(adj, w[k - 1].0 as int, #[trigger] w[k].0 as int)
            && index[w[k - 1].0 as int] < index[w[k].0 as int],
    ensures
        forall|a: int, b: int| 0 <= a < b < w.len() ==> index[#[trigger] w[a].0 as int] < index[#[trigger] w[b].0 as int],
{
    assert forall|a: int, b: int| 0 <= a < b < w.len() implies index[#[trigger] w[a].0 as int] < index[#[trigger] w[b].0 as int] by {
        lemma_path_increasing(adj, index, w, a, b);
    }
}

/// Closing a vertex that is not the root of its component, and passing
/// its lowlink to its parent, keeps the facts.
pub proof fn lemma_inv_close(adj: Seq<Vec<usize>>, index: Seq<i64>, lowlink: Seq<i64>, s: Seq<usize>,
    w: Seq<(usize, usize)>, lw: Seq<int>)
    requires
        finish_pre(adj, index, lowlink, s, w, lw),
        w.len() >= 2,
        lowlink[w.last().0 as int] < index[w.last().0 as int],
    ensures
        search_inv(adj, index, up_lowlink(lowlink, w[w.len() - 2].0 as int, w.last().0 as int), s, w.drop_last(),
            up_lw(lowlink, lw, w[w.len() - 2].0 as int, w.last().0 as int)),
{
    let t = w.len() - 1;
    let v = w[t].0 as int;
    let p = w[t - 1].0 as int;
    let w1 = w.drop_last();
    let lowlink2 = up_lowlink(lowlink, p, v);
    let lw2 = up_lw(lowlink, lw, p, v);
    lemma_path_distinct(adj, index, w);
    assert(index[p] < index[v]);
    assert(edge(adj, p, v));
    assert(occ(s, v) > 0 && occ(s, p) > 0) by {
        assert(occ(s, w[t].0 as int) > 0);
        assert(occ(s, w[t - 1].0 as int) > 0);
    }
    let qv = lemma_occ_index(s, v);
    let qp = lemma_occ_index(s, p);
    assert(0 <= p < adj.len() && 0 <= v < adj.len() && index[p] != -1 && index[v] != -1) by {
        assert(s[qv] as int == v);
        assert(s[qp] as int == p);
    }
    assert forall|u: int| 0 <= u < adj.len() && u != p implies #[trigger] lowlink2[u] == lowlink[u] by {}
    assert(lowlink2[p] <= lowlink[p] && lowlink2[p] <= lowlink[v]);
    assert forall|y: int| #[trigger] on_path(w1, y) <==> on_path(w, y) && y != v by {
        if on_path(w1, y) {
            let k = choose|k: int| 0 <= k < w1.len() && #[trigger] w1[k].0 as int == y;
            assert(w1[k] == w[k]);
            assert(index[w[k].0 as int] < index[w[t].0 as int]);
        }
        if on_path(w, y) && y != v {
            let k = choose|k: int| 0 <= k < w.len() && #[trigger] w[k].0 as int == y;
            assert(k != t);
            assert(w1[k] == w[k]);
        }
    }
    assert(on_path(w, v)) by {
        assert(w[t].0 as int == v);
    }
    assert(on_path(w1, p)) by {
        assert(w1[t - 1].0 as int == p);
    }
    // Witnesses.
    assert forall|j: int| 0 <= j < s.len() implies wit_ok(adj, index, lowlink2, s, lw2, #[trigger] s[j] as int) by {
        let y = s[j] as int;
        if y == p && lowlink[v] < lowlink[p] {
            assert(wit_ok(adj, index, lowlink, s, lw, s[qv] as int));
            lemma_reaches_edge(adj, p, v);
            lemma_reaches_trans(adj, p, v, lw[v]);
        } else {
            assert(wit_ok(adj, index, lowlink, s, lw, y));
        }
    }
    // Closed vertices.
    assert forall|j: int| 0 <= j < s.len() && !on_path(w1, #[trigger] s[j] as int)
        implies lowlink2[s[j] as int] < index[s[j] as int] by {
        if s[j] as int != v {
            assert(!on_path(w, s[j] as int));
        }
    }
    assert forall|k: int, j: int| 0 <= k < w1.len() && 0 <= j < s.len() && !on_path(w1, s[j] as int)
        && index[#[trigger] w1[k].0 as int] < index[#[trigger] s[j] as int]
        && (k + 1 == w1.len() || index[s[j] as int] < index[w1[k + 1].0 as int])
        implies lowlink2[w1[k].0 as int] <= lowlink2[s[j] as int] by {
        let y = s[j] as int;
        assert(w1[k] == w[k]);
        if k + 1 < w1.len() {
            assert(w1[k + 1] == w[k + 1]);
            assert(index[w[k + 1].0 as int] < index[w[t].0 as int]);
        }
        if y == v {
            assert(k == t - 1);
        } else {
            assert(!on_path(w, y));
            assert(y != p);
            if k == t - 1 {
                if index[y] < index[v] {
                    assert(lowlink[w[k].0 as int] <= lowlink[y]);
                } else {
                    assert(index[y] != index[v]) by {
                        if index[y] == index[v] {
                            assert(s[qv] as int == v);
                            if j < qv {
                                assert(index[s[j] as int] < index[s[qv] as int]);
                            } else if j > qv {
                                assert(index[s[qv] as int] < index[s[j] as int]);
                            }
                        }
                    }
                    assert(index[w[t].0 as int] < index[s[j] as int]);
                    assert(lowlink[w[t].0 as int] <= lowlink[y]);
                }
            } else {
                assert(w[k].0 as int != p) by {
                    assert(index[w[k].0 as int] < index[w[t - 1].0 as int]);
                }
                assert(lowlink[w[k].0 as int] <= lowlink[y]);
            }
        }
    }
    // Edges looked at.
    assert forall|j: int, e: int| 0 <= j < s.len() && #[trigger] explored(adj, w1, s[j] as int, e)
        implies edge_ok(index, lowlink2, s, s[j] as int, adj[s[j] as int]@[e] as int) by {
        let y = s[j] as int;
        assert(explored(adj, w, y, e)) by {
            assert forall|k: int| 0 <= k < w.len() && #[trigger] w[k].0 as int == y implies e < w[k].1 by {
                if k < t {
                    assert(w1[k] == w[k]);
                    assert(w1[k].0 as int == y);
                }
            }
        }
        assert(edge_ok(index, lowlink, s, y, adj[y]@[e] as int));
    }
    // The path.
    assert forall|k: int| 0 < k < w1.len() implies edge(adj, w1[k - 1].0 as int, #[trigger] w1[k].0 as int)
        && index[w1[k - 1].0 as int] < index[w1[k].0 as int] by {
        assert(w1[k] == w[k] && w1[k - 1] == w[k - 1]);
    }
    assert forall|k: int| 0 <= k < w1.len() implies occ(s, #[trigger] w1[k].0 as int) > 0 by {
        assert(w1[k] == w[k]);
    }
    assert forall|k: int, j: int| 0 <= k < w1.len() && 0 <= j < s.len()
        && index[#[trigger] w1[k].0 as int] <= index[#[trigger] s[j] as int]
        implies reaches(adj, w1[k].0 as int, s[j] as int) by {
        assert(w1[k] == w[k]);
    }
}

/// A vertex at a position of `s` occurs in it.
pub proof fn lemma_occ_at(s: Seq<usize>, q: int)
    requires
        0 <= q < s.len(),
    ensures
        occ(s, s[q] as int) > 0,
    decreases s.len(),
{
    if q < s.len() - 1 {
        lemma_occ_at(s.drop_last(), q);
        assert(s.drop_last()[q] == s[q]);
    }
}

/// In a stack sorted by number, a vertex numbered between the vertices at
/// `a` and `b` stands between them.
proof fn lemma_sorted_between(index: Seq<i64>, s: Seq<usize>, a: int, q: int)
    requires
        sorted_by_index(index, s),
        0 <= a < s.len(),
        0 <= q < s.len(),
        index[s[a] as int] <= index[s[q] as int],
    ensures
        a <= q,
{
    if q < a {
        assert(index[s[q] as int] < index[s[a] as int]);
    }
}

/// When the open vertex `v` at the end of the path is the root of its
/// component (its lowlink is its own number), every vertex stacked above it
/// reaches it.
proof fn lemma_root_reached(adj: Seq<Vec<usize>>, index: Seq<i64>, lowlink: Seq<i64>, s: Seq<usize>,
    w: Seq<(usize, usize)>, lw: Seq<int>, pos: int, q: int)
    requires
        finish_pre(adj, index, lowlink, s, w, lw),
        0 <= pos <= q < s.len(),
        s[pos] == w.last().0,
        lowlink[w.last().0 as int] == index[w.last().0 as int],
    ensures
        reaches(adj, s[q] as int, s[pos] as int),
    decreases q,
{
    let t = w.len() - 1;
    let v = w[t].0 as int;
    if q == pos {
        lemma_reaches_refl(adj, s[q] as int);
    } else {
        let y = s[q] as int;
        assert(index[s[pos] as int] < index[s[q] as int]);
        lemma_path_distinct(adj, index, w);
        assert(!on_path(w, y)) by {
            if on_path(w, y) {
                let k = choose|k: int| 0 <= k < w.len() && #[trigger] w[k].0 as int == y;
                if k < t {
                    assert(index[w[k].0 as int] < index[w[t].0 as int]);
                }
            }
        }
        assert(lowlink[y] < index[y]);
        assert(lowlink[w[t].0 as int] <= lowlink[s[q] as int]);
        assert(wit_ok(adj, index, lowlink, s, lw, y));
        let q2 = lemma_occ_index(s, lw[y]);
        lemma_sorted_between(index, s, pos, q2);
        if q2 >= q {
            lemma_sorted_between(index, s, q, q2);
            if q2 > q {
                assert(index[s[q] as int] < index[s[q2] as int]);
            }
        }
        lemma_root_reached(adj, index, lowlink, s, w, lw, pos, q2);
        lemma_reaches_trans(adj, y, lw[y], s[pos] as int);
    }
}

/// Closing the root `v` of a component: the vertices stacked from `v` up
/// reach one another.
pub proof fn lemma_pop_reach(adj: Seq<Vec<usize>>, index: Seq<i64>, lowlink: Seq<i64>, s: Seq<usize>,
    w: Seq<(usize, usize)>, lw: Seq<int>, pos: int)
    requires
        finish_pre(adj, index, lowlink, s, w, lw),
        0 <= pos < s.len(),
        s[pos] == w.last().0,
        lowlink[w.last().0 as int] == index[w.last().0 as int],
    ensures
        forall|a: int, b: int| pos <= a < s.len() && pos <= b < s.len()
            ==> reaches(adj, #[trigger] s[a] as int, #[trigger] s[b] as int),
{
    let t = w.len() - 1;
    let v = w[t].0 as int;
    let s1 = s.take(pos);
    let w1 = w.drop_last();
    let seg = s.subrange(pos, s.len() as int);
    lemma_path_distinct(adj, index, w);
    // They reach one another through `v`.
    assert forall|a: int, b: int| pos <= a < s.len() && pos <= b < s.len()
        implies reaches(adj, #[trigger] s[a] as int, #[trigger] s[b] as int) by {
        lemma_root_reached(adj, index, lowlink, s, w, lw, pos, a);
        assert(index[w[t].0 as int] <= index[s[b] as int]) by {
            if b > pos {
                assert(index[s[pos] as int] < index[s[b] as int]);
            }
        }
        assert(reaches(adj, w[t].0 as int, s[b] as int));
        lemma_reaches_trans(adj, s[a] as int, v, s[b] as int);
    }
}

/// Closing the root `v` of a component: every edge out of the vertices
/// stacked from `v` up leads to a numbered vertex that is among them or off
/// the stack.
pub proof fn lemma_pop_edges(adj: Seq<Vec<usize>>, index: Seq<i64>, lowlink: Seq<i64>, s: Seq<usize>,
    w: Seq<(usize, usize)>, lw: Seq<int>, pos: int)
    requires
        finish_pre(adj, index, lowlink, s, w, lw),
        0 <= pos < s.len(),
        s[pos] == w.last().0,
        lowlink[w.last().0 as int] == index[w.last().0 as int],
    ensures
        forall|q: int, e: int| pos <= q < s.len() && 0 <= e < adj[s[q] as int]@.len()
            ==> index[#[trigger] adj[s[q] as int]@[e] as int] != -1
                && (occ(s, adj[s[q] as int]@[e] as int) > 0
                    ==> occ(s.subrange(pos, s.len() as int), adj[s[q] as int]@[e] as int) > 0),
{
    let t = w.len() - 1;
    let v = w[t].0 as int;
    let s1 = s.take(pos);
    let w1 = w.drop_last();
    let seg = s.subrange(pos, s.len() as int);
    lemma_path_distinct(adj, index, w);
    assert forall|q: int| pos < q < s.len() implies !on_path(w, #[trigger] s[q] as int)
        && lowlink[w[t].0 as int] <= lowlink[s[q] as int] by {
        assert(index[s[pos] as int] < index[s[q] as int]);
        if on_path(w, s[q] as int) {
            let k = choose|k: int| 0 <= k < w.len() && #[trigger] w[k].0 as int == s[q] as int;
            if k < t {
                assert(index[w[k].0 as int] < index[w[t].0 as int]);
            }
        }
    }
    // Their edges.
    assert forall|q: int, e: int| pos <= q < s.len() && 0 <= e < adj[s[q] as int]@.len()
        implies index[#[trigger] adj[s[q] as int]@[e] as int] != -1
            && (occ(s, adj[s[q] as int]@[e] as int) > 0 ==> occ(seg, adj[s[q] as int]@[e] as int) > 0) by {
        let y = s[q] as int;
        let z = adj[y]@[e] as int;
        assert(explored(adj, w, y, e)) by {
            assert forall|k: int| 0 <= k < w.len() && #[trigger] w[k].0 as int == y implies e < w[k].1 by {
                if q > pos {
                    assert(on_path(w, y));
                } else if k < t {
                    assert(index[w[k].0 as int] < index[w[t].0 as int]);
                }
            }
        }
        assert(edge_ok(index, lowlink, s, y, z));
        assert(lowlink[v] <= lowlink[y]);
        if occ(s, z) > 0 {
            let qz = lemma_occ_index(s, z);
            lemma_sorted_between(index, s, pos, qz);
            assert(seg[qz - pos] == s[qz]);
            lemma_occ_at(seg, qz - pos);
        }
    }
}

proof fn lemma_pop_stack_kept(adj: Seq<Vec<usize>>, index: Seq<i64>, lowlink: Seq<i64>, s: Seq<usize>,
    w: Seq<(usize, usize)>, lw: Seq<int>, pos: int)
    requires
        finish_pre(adj, index, lowlink, s, w, lw),
        0 <= pos < s.len(),
        s[pos] == w.last().0,
        lowlink[w.last().0 as int] == index[w.last().0 as int],
    ensures
        forall|k: int| 0 <= k < w.drop_last().len() ==> occ(s.take(pos), #[trigger] w.drop_last()[k].0 as int) > 0,
        forall|j: int| 0 <= j < s.take(pos).len()
            ==> wit_ok(adj, index, lowlink, s.take(pos), lw, #[trigger] s.take(pos)[j] as int),
{
    let t = w.len() - 1;
    let v = w[t].0 as int;
    let s1 = s.take(pos);
    let w1 = w.drop_last();
    lemma_path_distinct(adj, index, w);
    // What stays.
    assert forall|y: int| #[trigger] occ(s1, y) > 0 implies occ(s, y) > 0 by {
        let q = lemma_occ_index(s1, y);
        assert(s1[q] == s[q]);
        lemma_occ_at(s, q);
    }
    assert forall|k: int| 0 <= k < w1.len() implies occ(s1, #[trigger] w1[k].0 as int) > 0 by {
        assert(w1[k] == w[k]);
        assert(index[w[k].0 as int] < index[w[t].0 as int]);
        let q = lemma_occ_index(s, w[k].0 as int);
        if q >= pos {
            lemma_sorted_between(index, s, pos, q);
            if q > pos {
                assert(index[s[pos] as int] < index[s[q] as int]);
            }
        }
        assert(s1[q] == s[q]);
        lemma_occ_at(s1, q);
    }
    assert forall|j: int| 0 <= j < s1.len() implies wit_ok(adj, index, lowlink, s1, lw, #[trigger] s1[j] as int) by {
        let y = s1[j] as int;
        assert(s1[j] == s[j]);
        assert(wit_ok(adj, index, lowlink, s, lw, y));
        let q = lemma_occ_index(s, lw[y]);
        assert(index[lw[y]] <= index[y]);
        lemma_sorted_between(index, s, q, j);
        if q > j {
            assert(index[s[j] as int] < index[s[q] as int]);
        }
        assert(s1[q] == s[q]);
        lemma_occ_at(s1, q);
    }
}

proof fn lemma_pop_stack_edges(adj: Seq<Vec<usize>>, index: Seq<i64>, lowlink: Seq<i64>, s: Seq<usize>,
    w: Seq<(usize, usize)>, lw: Seq<int>, pos: int)
    requires
        finish_pre(adj, index, lowlink, s, w, lw),
        0 <= pos < s.len(),
        s[pos] == w.last().0,
        lowlink[w.last().0 as int] == index[w.last().0 as int],
    ensures
        forall|j: int, e: int| 0 <= j < s.take(pos).len() && #[trigger] explored(adj, w.drop_last(), s.take(pos)[j] as int, e)
            ==> edge_ok(index, lowlink, s.take(pos), s.take(pos)[j] as int, adj[s.take(pos)[j] as int]@[e] as int),
{
    let t = w.len() - 1;
    let v = w[t].0 as int;
    let s1 = s.take(pos);
    let w1 = w.drop_last();
    lemma_path_distinct(adj, index, w);
    assert forall|y: int| #[trigger] occ(s.take(pos), y) > 0 implies occ(s, y) > 0 by {
        let q = lemma_occ_index(s1, y);
        assert(s1[q] == s[q]);
        lemma_occ_at(s, q);
    }
    assert forall|j: int, e: int| 0 <= j < s1.len() && #[trigger] explored(adj, w1, s1[j] as int, e)
        implies edge_ok(index, lowlink, s1, s1[j] as int, adj[s1[j] as int]@[e] as int) by {
        let y = s1[j] as int;
        assert(s1[j] == s[j]);
        assert(explored(adj, w, y, e)) by {
            assert forall|k: int| 0 <= k < w.len() && #[trigger] w[k].0 as int == y implies e < w[k].1 by {
                if k < t {
                    assert(w1[k] == w[k]);
                    assert(w1[k].0 as int == y);
                }
            }
        }
        assert(edge_ok(index, lowlink, s, y, adj[y]@[e] as int));
    }
}

proof fn lemma_pop_stack_rest(adj: Seq<Vec<usize>>, index: Seq<i64>, lowlink: Seq<i64>, s: Seq<usize>,
    w: Seq<(usize, usize)>, lw: Seq<int>, pos: int)
    requires
        finish_pre(adj, index, lowlink, s, w, lw),
        0 <= pos < s.len(),
        s[pos] == w.last().0,
        lowlink[w.last().0 as int] == index[w.last().0 as int],
    ensures
        ({
            let s1 = s.take(pos);
            let w1 = w.drop_last();
            &&& sorted_by_index(index, s1)
            &&& forall|i: int| 0 <= i < s1.len() ==> 0 <= #[trigger] s1[i] < adj.len() && index[s1[i] as int] != -1
            &&& forall|k: int| 0 < k < w1.len() ==> edge(adj, w1[k - 1].0 as int, #[trigger] w1[k].0 as int)
                    && index[w1[k - 1].0 as int] < index[w1[k].0 as int]
            &&& forall|k: int, i: int| 0 <= k < w1.len() && 0 <= i < s1.len()
                    && index[#[trigger] w1[k].0 as int] <= index[#[trigger] s1[i] as int]
                    ==> reaches(adj, w1[k].0 as int, s1[i] as int)
            &&& forall|i: int| 0 <= i < s1.len() && !on_path(w1, #[trigger] s1[i] as int)
                    ==> lowlink[s1[i] as int] < index[s1[i] as int]
            &&& forall|k: int, i: int| 0 <= k < w1.len() && 0 <= i < s1.len() && !on_path(w1, s1[i] as int)
                    && index[#[trigger] w1[k].0 as int] < index[#[trigger] s1[i] as int]
                    && (k + 1 == w1.len() || index[s1[i] as int] < index[w1[k + 1].0 as int])
                    ==> lowlink[w1[k].0 as int] <= lowlink[s1[i] as int]
        }),
{
    let t = w.len() - 1;
    let v = w[t].0 as int;
    let s1 = s.take(pos);
    let w1 = w.drop_last();
    lemma_path_distinct(adj, index, w);
    assert forall|y: int| #[trigger] on_path(w1, y) implies on_path(w, y) by {
        if on_path(w1, y) {
            let k = choose|k: int| 0 <= k < w1.len() && #[trigger] w1[k].0 as int == y;
            assert(w1[k] == w[k]);
        }
    }
    assert forall|j: int| 0 <= j < s1.len() implies #[trigger] s1[j] as int != v by {
        assert(s1[j] == s[j]);
        assert(index[s[j] as int] < index[s[pos] as int]);
    }
    assert forall|j: int| 0 <= j < s1.len() && !on_path(w1, #[trigger] s1[j] as int)
        implies lowlink[s1[j] as int] < index[s1[j] as int] by {
        assert(s1[j] == s[j]);
        assert(!on_path(w, s[j] as int)) by {
            if on_path(w, s[j] as int) {
                let k = choose|k: int| 0 <= k < w.len() && #[trigger] w[k].0 as int == s[j] as int;
                if k < t {
                    assert(w1[k] == w[k]);
                    assert(on_path(w1, s[j] as int));
                }
            }
        }
    }
    assert forall|k: int, j: int| 0 <= k < w1.len() && 0 <= j < s1.len() && !on_path(w1, s1[j] as int)
        && index[#[trigger] w1[k].0 as int] < index[#[trigger] s1[j] as int]
        && (k + 1 == w1.len() || index[s1[j] as int] < index[w1[k + 1].0 as int])
        implies lowlink[w1[k].0 as int] <= lowlink[s1[j] as int] by {
        assert(s1[j] == s[j]);
        assert(w1[k] == w[k]);
        if k + 1 < w1.len() {
            assert(w1[k + 1] == w[k + 1]);
        }
        assert(index[s[j] as int] < index[s[pos] as int]);
        assert(!on_path(w, s[j] as int)) by {
            if on_path(w, s[j] as int) {
                let k2 = choose|k2: int| 0 <= k2 < w.len() && #[trigger] w[k2].0 as int == s[j] as int;
                if k2 < t {
                    assert(w1[k2] == w[k2]);
                    assert(on_path(w1, s[j] as int));
                }
            }
        }
    }
    assert forall|a: int, b: int| 0 <= a < b < s1.len() implies index[#[trigger] s1[a] as int] < index[#[trigger] s1[b] as int] by {
        assert(s1[a] == s[a] && s1[b] == s[b]);
    }
    assert forall|j: int| 0 <= j < s1.len() implies 0 <= #[trigger] s1[j] < adj.len() && index[s1[j] as int] != -1 by {
        assert(s1[j] == s[j]);
    }
    assert forall|k: int| 0 < k < w1.len() implies edge(adj, w1[k - 1].0 as int, #[trigger] w1[k].0 as int)
        && index[w1[k - 1].0 as int] < index[w1[k].0 as int] by {
        assert(w1[k] == w[k] && w1[k - 1] == w[k - 1]);
    }
    assert forall|k: int, j: int| 0 <= k < w1.len() && 0 <= j < s1.len()
        && index[#[trigger] w1[k].0 as int] <= index[#[trigger] s1[j] as int]
        implies reaches(adj, w1[k].0 as int, s1[j] as int) by {
        assert(w1[k] == w[k] && s1[j] == s[j]);
    }
}

/// Closing the root `v` of a component: with the vertices from `v` up
/// popped and `v` off the path, the facts hold.
pub proof fn lemma_pop_stack(adj: Seq<Vec<usize>>, index: Seq<i64>, lowlink: Seq<i64>, s: Seq<usize>,
    w: Seq<(usize, usize)>, lw: Seq<int>, pos: int)
    requires
        finish_pre(adj, index, lowlink, s, w, lw),
        0 <= pos < s.len(),
        s[pos] == w.last().0,
        lowlink[w.last().0 as int] == index[w.last().0 as int],
    ensures
        search_inv(adj, index, lowlink, s.take(pos), w.drop_last(), lw),
{
    lemma_pop_stack_kept(adj, index, lowlink, s, w, lw, pos);
    lemma_pop_stack_rest(adj, index, lowlink, s, w, lw, pos);
    lemma_pop_stack_edges(adj, index, lowlink, s, w, lw, pos);
}

/// Each component holds a vertex, and within each, every vertex reaches
/// every other.
pub closed spec fn comps_connected(adj: Seq<Vec<usize>>, cs: Seq<Seq<usize>>) -> bool {
    &&& forall|i: int| 0 <= i < cs.len() ==> (#[trigger] cs[i]).len() > 0
    &&& forall|i: int, a: int, b: int| 0 <= i < cs.len() && 0 <= a < cs[i].len() && 0 <= b < cs[i].len()
        ==> reaches(adj, #[trigger] cs[i][a] as int, #[trigger] cs[i][b] as int)
}

/// The first `m` components together are closed under edges, for each `m`.
pub closed spec fn prefixes_closed(adj: Seq<Vec<usize>>, cs: Seq<Seq<usize>>) -> bool {
    forall|m: int, x: int, e: int| 0 <= m <= cs.len() && 0 <= x < adj.len() && 0 <= e < adj[x]@.len()
        && #[trigger] occ(flat(cs.take(m)), x) > 0
        ==> occ(flat(cs.take(m)), #[trigger] adj[x]@[e] as int) > 0
}

/// Emitting the component rooted at `v` (the vertices stacked from `v` up,
/// last first) keeps the components connected and their prefixes closed.
pub proof fn lemma_emit(adj: Seq<Vec<usize>>, index: Seq<i64>, lowlink: Seq<i64>, s: Seq<usize>,
    w: Seq<(usize, usize)>, lw: Seq<int>, pos: int, cs: Seq<Seq<usize>>, c: Seq<usize>)
    requires
        finish_pre(adj, index, lowlink, s, w, lw),
        0 <= pos < s.len(),
        s[pos] == w.last().0,
        lowlink[w.last().0 as int] == index[w.last().0 as int],
        c.len() == s.len() - pos,
        forall|j: int| 0 <= j < c.len() ==> #[trigger] c[j] == s[s.len() - 1 - j],
        comps_connected(adj, cs),
        prefixes_closed(adj, cs),
        forall|z: int| #[trigger] occ(flat(cs), z) + occ(s, z) == if visited_set(index).contains(z) { 1nat } else { 0nat },
    ensures
        comps_connected(adj, cs.push(c)),
        prefixes_closed(adj, cs.push(c)),
{
    let len = s.len() as int;
    let seg = s.subrange(pos, len);
    let cs2 = cs.push(c);
    lemma_pop_reach(adj, index, lowlink, s, w, lw, pos);
    lemma_pop_edges(adj, index, lowlink, s, w, lw, pos);
    assert forall|i: int| 0 <= i < cs2.len() implies (#[trigger] cs2[i]).len() > 0 by {
        if i < cs.len() {
            assert(cs2[i] == cs[i]);
        }
    }
    assert forall|i: int, a: int, b: int| 0 <= i < cs2.len() && 0 <= a < cs2[i].len() && 0 <= b < cs2[i].len()
        implies reaches(adj, #[trigger] cs2[i][a] as int, #[trigger] cs2[i][b] as int) by {
        if i < cs.len() {
            assert(cs2[i] == cs[i]);
        } else {
            assert(cs2[i] == c);
            assert(c[a] == s[len - 1 - a] && c[b] == s[len - 1 - b]);
        }
    }
    lemma_flat_push(cs, c);
    assert(cs2.take(cs2.len() as int) =~= cs2);
    assert(cs.take(cs.len() as int) =~= cs);
    assert forall|m: int, x: int, e: int| 0 <= m <= cs2.len() && 0 <= x < adj.len() && 0 <= e < adj[x]@.len()
        && #[trigger] occ(flat(cs2.take(m)), x) > 0
        implies occ(flat(cs2.take(m)), #[trigger] adj[x]@[e] as int) > 0 by {
        let z = adj[x]@[e] as int;
        if m <= cs.len() {
            assert(cs2.take(m) =~= cs.take(m));
        } else {
            lemma_occ_concat(flat(cs), c, x);
            lemma_occ_concat(flat(cs), c, z);
            if occ(flat(cs), x) > 0 {
                assert(occ(flat(cs.take(cs.len() as int)), x) > 0);
            } else {
                let j = lemma_occ_index(c, x);
                let q = len - 1 - j;
                assert(s[q] as int == x);
                assert(index[adj[s[q] as int]@[e] as int] != -1);
                assert(z < adj.len());
                if occ(s, z) > 0 {
                    assert(occ(seg, adj[s[q] as int]@[e] as int) > 0);
                    let k = lemma_occ_index(seg, z);
                    assert(seg[k] == s[pos + k]);
                    let j2 = len - 1 - pos - k;
                    assert(c[j2] == s[pos + k]);
                    lemma_occ_at(c, j2);
                } else {
                    assert(visited_set(index).contains(z));
                }
            }
        }
    }
}

/// Every two vertices of one component reach each other.
pub open spec fn comps_strongly_connected(adj: Seq<Vec<usize>>, cs: Seq<Seq<usize>>) -> bool {
    forall|i: int, a: int, b: int| 0 <= i < cs.len() && 0 <= a < cs[i].len() && 0 <= b < cs[i].len()
        ==> mutually_reachable(adj, #[trigger] cs[i][a] as int, #[trigger] cs[i][b] as int)
}

/// Vertices that reach each other lie in one component.
pub open spec fn comps_maximal(adj: Seq<Vec<usize>>, cs: Seq<Seq<usize>>) -> bool {
    forall|i: int, j: int, a: int, b: int| 0 <= i < cs.len() && 0 <= j < cs.len() && 0 <= a < cs[i].len()
        && 0 <= b < cs[j].len() && mutually_reachable(adj, #[trigger] cs[i][a] as int, #[trigger] cs[j][b] as int)
        ==> i == j
}

/// The components come out in reverse topological order: an edge from a
/// vertex of component `i` leads into component `i` or one emitted before
/// it.
pub open spec fn comps_reverse_topological(adj: Seq<Vec<usize>>, cs: Seq<Seq<usize>>) -> bool {
    forall|i: int, j: int, a: int, b: int| 0 <= i < cs.len() && 0 <= j < cs.len() && 0 <= a < cs[i].len()
        && 0 <= b < cs[j].len() && edge(adj, #[trigger] cs[i][a] as int, #[trigger] cs[j][b] as int)
        ==> j <= i
}

proof fn lemma_flat_take_mono(cs: Seq<Seq<usize>>, m: int, y: int)
    requires
        0 <= m <= cs.len(),
    ensures
        occ(flat(cs.take(m)), y) <= occ(flat(cs), y),
    decreases cs.len(),
{
    if m == cs.len() {
        assert(cs.take(m) =~= cs);
    } else {
        let d = cs.drop_last();
        assert(cs.take(m) =~= d.take(m));
        lemma_flat_take_mono(d, m, y);
        lemma_flat_push(d, cs.last());
        assert(d.push(cs.last()) =~= cs);
        lemma_occ_concat(flat(d), cs.last(), y);
    }
}

proof fn lemma_flat_later(cs: Seq<Seq<usize>>, m: int, j: int, y: int)
    requires
        0 <= m <= j < cs.len(),
        occ(cs[j], y) > 0,
    ensures
        occ(flat(cs.take(m)), y) + 1 <= occ(flat(cs), y),
    decreases cs.len(),
{
    let d = cs.drop_last();
    assert(cs.take(m) =~= d.take(m));
    lemma_flat_push(d, cs.last());
    assert(d.push(cs.last()) =~= cs);
    lemma_occ_concat(flat(d), cs.last(), y);
    if j == cs.len() - 1 {
        lemma_flat_take_mono(d, m, y);
    } else {
        assert(d[j] == cs[j]);
        lemma_flat_later(d, m, j, y);
    }
}

proof fn lemma_flat_at(cs: Seq<Seq<usize>>, i: int, x: int)
    requires
        0 <= i < cs.len(),
        occ(cs[i], x) > 0,
    ensures
        occ(flat(cs.take(i + 1)), x) > 0,
{
    assert(cs.take(i + 1) =~= cs.take(i).push(cs[i]));
    lemma_flat_push(cs.take(i), cs[i]);
    lemma_occ_concat(flat(cs.take(i)), cs[i], x);
}

/// Along a walk that starts in a set closed under edges, every vertex lies
/// in the set.
proof fn lemma_closed_walk(adj: Seq<Vec<usize>>, pset: Seq<usize>, p: Seq<int>, k: int)
    requires
        adj.len() <= usize::MAX,
        is_path(adj, p),
        0 <= k < p.len(),
        0 <= p.last() < adj.len(),
        occ(pset, p[0]) > 0,
        forall|x: int, e: int| 0 <= x < adj.len() && 0 <= e < adj[x]@.len() && #[trigger] occ(pset, x) > 0
            ==> occ(pset, #[trigger] adj[x]@[e] as int) > 0,
    ensures
        occ(pset, p[k]) > 0,
    decreases k,
{
    if k > 0 {
        lemma_closed_walk(adj, pset, p, k - 1);
        assert(edge_at(adj, p, k - 1));
        let a = p[k - 1];
        let b = p[k];
        assert(0 <= b < adj.len()) by {
            if k < p.len() - 1 {
                assert(edge_at(adj, p, k));
            }
        }
        assert(adj[a]@.contains(b as usize));
        let e = choose|e: int| 0 <= e < adj[a]@.len() && adj[a]@[e] == b as usize;
        assert(occ(pset, adj[a]@[e] as int) > 0);
    }
}

/// The components, when each is non-empty and connected, each prefix of
/// them is closed under edges and every vertex lies in exactly one, are the
/// strongly connected components.
pub proof fn lemma_comps_are_sccs(adj: Seq<Vec<usize>>, cs: Seq<Seq<usize>>)
    requires
        adj.len() <= usize::MAX,
        comps_connected(adj, cs),
        prefixes_closed(adj, cs),
        is_vertex_partition(cs, adj.len() as int),
    ensures
        forall|i: int| 0 <= i < cs.len() ==> (#[trigger] cs[i]).len() > 0,
        comps_strongly_connected(adj, cs),
        comps_maximal(adj, cs),
        comps_reverse_topological(adj, cs),
{
    assert forall|i: int, a: int, b: int| 0 <= i < cs.len() && 0 <= a < cs[i].len() && 0 <= b < cs[i].len()
        implies mutually_reachable(adj, #[trigger] cs[i][a] as int, #[trigger] cs[i][b] as int) by {
        assert(reaches(adj, cs[i][a] as int, cs[i][b] as int));
        assert(reaches(adj, cs[i][b] as int, cs[i][a] as int));
    }
    assert forall|i: int, j: int, a: int, b: int| 0 <= i < cs.len() && 0 <= j < cs.len() && 0 <= a < cs[i].len()
        && 0 <= b < cs[j].len() && mutually_reachable(adj, #[trigger] cs[i][a] as int, #[trigger] cs[j][b] as int)
        implies i == j by {
        if i != j {
            let (i1, a1, j1, b1) = if i < j { (i, a, j, b) } else { (j, b, i, a) };
            let x = cs[i1][a1] as int;
            let y = cs[j1][b1] as int;
            assert(reaches(adj, x, y));
            lemma_occ_at(cs[i1], a1);
            lemma_occ_at(cs[j1], b1);
            lemma_flat_at(cs, i1, x);
            lemma_flat_later(cs, 0, j1, y);
            assert(0 <= y < adj.len()) by {
                assert(occ(flat(cs), y) == if 0 <= y < adj.len() { 1nat } else { 0nat });
            }
            let pset = flat(cs.take(i1 + 1));
            assert forall|u: int, e: int| 0 <= u < adj.len() && 0 <= e < adj[u]@.len() && #[trigger] occ(pset, u) > 0
                implies occ(pset, #[trigger] adj[u]@[e] as int) > 0 by {
                assert(occ(flat(cs.take(i1 + 1)), u) > 0);
            }
            let p = choose|p: Seq<int>| #[trigger] is_path(adj, p) && p[0] == x && p.last() == y;
            lemma_closed_walk(adj, pset, p, p.len() - 1);
            lemma_flat_later(cs, i1 + 1, j1, y);
        }
    }
    assert forall|i: int, j: int, a: int, b: int| 0 <= i < cs.len() && 0 <= j < cs.len() && 0 <= a < cs[i].len()
        && 0 <= b < cs[j].len() && edge(adj, #[trigger] cs[i][a] as int, #[trigger] cs[j][b] as int)
        implies j <= i by {
        if j > i {
            let x = cs[i][a] as int;
            let y = cs[j][b] as int;
            lemma_occ_at(cs[i], a);
            lemma_occ_at(cs[j], b);
            lemma_flat_at(cs, i, x);
            let e = choose|e: int| 0 <= e < adj[x]@.len() && adj[x]@[e] == cs[j][b];
            assert(adj[x]@[e] as int == y);
            assert(occ(flat(cs.take(i + 1)), x) > 0);
            assert(occ(flat(cs.take(i + 1)), adj[x]@[e] as int) > 0);
            lemma_flat_later(cs, i + 1, j, y);
            lemma_flat_later(cs, 0, j, y);
            assert(occ(flat(cs), y) == if 0 <= y < adj.len() { 1nat } else { 0nat });
        }
    }
}

/// What the search needs to know of the open path: its last vertex is
/// stacked and numbered after its parent.
pub proof fn lemma_inv_path(adj: Seq<Vec<usize>>, index: Seq<i64>, lowlink: Seq<i64>, s: Seq<usize>,
    w: Seq<(usize, usize)>, lw: Seq<int>)
    requires
        search_inv(adj, index, lowlink, s, w, lw),
        w.len() > 0,
    ensures
        occ(s, w.last().0 as int) > 0,
        w.len() >= 2 ==> index[w[w.len() - 2].0 as int] < index[w.last().0 as int],
{
    assert(occ(s, w[w.len() - 1].0 as int) > 0);
    if w.len() >= 2 {
        assert(index[w[w.len() - 2].0 as int] < index[w[w.len() - 1].0 as int]);
    }
}

/// No components yet: nothing to connect, nothing to close.
pub proof fn lemma_no_comps(adj: Seq<Vec<usize>>)
    ensures
        comps_connected(adj, Seq::<Seq<usize>>::empty()),
        prefixes_closed(adj, Seq::<Seq<usize>>::empty()),
{
    let cs = Seq::<Seq<usize>>::empty();
    assert forall|m: int, x: int, e: int| 0 <= m <= cs.len() && 0 <= x < adj.len() && 0 <= e < adj[x]@.len()
        && #[trigger] occ(flat(cs.take(m)), x) > 0
        implies occ(flat(cs.take(m)), #[trigger] adj[x]@[e] as int) > 0 by {
        assert(cs.take(m) =~= cs);
    }
}

/// Along the open path, DFS numbers increase.
pub proof fn lemma_path_increasing(adj: Seq<Vec<usize>>, index: Seq<i64>, w: Seq<(usize, usize)>, a: int, b: int)
    requires
        0 <= a < b < w.len(),
        forall|k: int| 0 < k < w.len() ==> edge(adj, w[k - 1].0 as int, #[trigger] w[k].0 as int)
            && index[w[k - 1].0 as int] < index[w[k].0 as int],
    ensures
        index[w[a].0 as int] < index[w[b].0 as int],
    decreases b - a,
{
    assert(index[w[b - 1].0 as int] < index[w[b].0 as int]);
    if a < b - 1 {
        lemma_path_increasing(adj, index, w, a, b - 1);
    }
}

} // verus!
