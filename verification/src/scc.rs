//! Strongly connected components of a directed graph given as adjacency
//! lists, by Tarjan's algorithm in its iterative form (an explicit work
//! stack in place of recursion, so deep graphs cannot exhaust the call
//! stack).

use vstd::prelude::*;
use vstd::set_lib::{lemma_len_subset, set_int_range, lemma_int_range};
use crate::scc_inv::{search_inv, comps_connected, prefixes_closed, step_path, visit_path, seen_lowlink, seen_lw,
    up_lowlink, up_lw, comps_strongly_connected, comps_maximal, comps_reverse_topological, lemma_inv_start, lemma_inv_visit, lemma_inv_seen,
    lemma_inv_close, lemma_pop_stack, lemma_emit, lemma_comps_are_sccs, lemma_inv_path, lemma_no_comps};

verus! {

/// How often `v` occurs in `s`.
pub open spec fn occ(s: Seq<usize>, v: int) -> nat
    decreases s.len(),
{
    if s.len() == 0 {
        0
    } else {
        occ(s.drop_last(), v) + if s.last() == v { 1nat } else { 0nat }
    }
}

/// All components laid end to end.
pub open spec fn flat(cs: Seq<Seq<usize>>) -> Seq<usize>
    decreases cs.len(),
{
    if cs.len() == 0 {
        Seq::empty()
    } else {
        flat(cs.drop_last()) + cs.last()
    }
}

/// The components held in `r`, as sequences.
pub open spec fn comps(r: Seq<Vec<usize>>) -> Seq<Seq<usize>> {
    r.map_values(|c: Vec<usize>| c@)
}

/// Every vertex `0 <= v < n` lies in exactly one component, exactly once,
/// and nothing else lies in any component.
pub open spec fn is_vertex_partition(cs: Seq<Seq<usize>>, n: int) -> bool {
    forall|v: int| #[trigger] occ(flat(cs), v) == if 0 <= v < n { 1nat } else { 0nat }
}

/// Every adjacency entry names a vertex of the graph.
pub open spec fn well_formed_adj(adj: Seq<Vec<usize>>) -> bool {
    forall|v: int, k: int| 0 <= v < adj.len() && 0 <= k < adj[v]@.len() ==> (#[trigger] adj[v]@[k]) < adj.len()
}

/// `b` is a successor of `a`.
pub open spec fn edge(adj: Seq<Vec<usize>>, a: int, b: int) -> bool {
    0 <= a < adj.len() && 0 <= b && adj[a]@.contains(b as usize)
}

/// The `k`-th step of `p` follows an edge.
pub open spec fn edge_at(adj: Seq<Vec<usize>>, p: Seq<int>, k: int) -> bool {
    edge(adj, p[k], p[k + 1])
}

/// `p` is a walk along the edges of `adj`.
pub open spec fn is_path(adj: Seq<Vec<usize>>, p: Seq<int>) -> bool {
    p.len() >= 1 && forall|k: int| 0 <= k < p.len() - 1 ==> #[trigger] edge_at(adj, p, k)
}

/// `v` can be reached from `u` along edges (in zero or more steps).
pub open spec fn reaches(adj: Seq<Vec<usize>>, u: int, v: int) -> bool {
    exists|p: Seq<int>| #[trigger] is_path(adj, p) && p[0] == u && p.last() == v
}

pub proof fn lemma_reaches_refl(adj: Seq<Vec<usize>>, u: int)
    ensures
        reaches(adj, u, u),
{
    let p = seq![u];
    assert(is_path(adj, p));
}

pub proof fn lemma_reaches_edge(adj: Seq<Vec<usize>>, u: int, v: int)
    requires
        edge(adj, u, v),
    ensures
        reaches(adj, u, v),
{
    let p = seq![u, v];
    assert(edge_at(adj, p, 0));
    assert(is_path(adj, p));
}

pub proof fn lemma_reaches_trans(adj: Seq<Vec<usize>>, u: int, v: int, w: int)
    requires
        reaches(adj, u, v),
        reaches(adj, v, w),
    ensures
        reaches(adj, u, w),
{
    let p1 = choose|p: Seq<int>| #[trigger] is_path(adj, p) && p[0] == u && p.last() == v;
    let p2 = choose|p: Seq<int>| #[trigger] is_path(adj, p) && p[0] == v && p.last() == w;
    let p = p1 + p2.drop_first();
    let l1 = p1.len() as int;
    assert forall|k: int| 0 <= k < p.len() - 1 implies #[trigger] edge_at(adj, p, k) by {
        if k < l1 - 1 {
            assert(edge_at(adj, p1, k));
            assert(p[k] == p1[k] && p[k + 1] == p1[k + 1]);
        } else if k == l1 - 1 {
            assert(edge_at(adj, p2, 0));
            assert(p[k] == p1.last() && p[k + 1] == p2[1]);
        } else {
            let j = k - l1 + 1;
            assert(edge_at(adj, p2, j));
            assert(p[k] == p2[j] && p[k + 1] == p2[j + 1]);
        }
    }
    assert(is_path(adj, p));
    if p2.len() == 1 {
        assert(p.last() == w);
    } else {
        assert(p.last() == p2.last());
    }
}

/// `u` and `v` reach each other.
pub open spec fn mutually_reachable(adj: Seq<Vec<usize>>, u: int, v: int) -> bool {
    reaches(adj, u, v) && reaches(adj, v, u)
}

/// The vertices that have been given a DFS number.
pub open spec fn visited_set(index: Seq<i64>) -> Set<int> {
    Set::new(|v: int| 0 <= v < index.len() && index[v] != -1)
}

pub proof fn lemma_occ_concat(a: Seq<usize>, b: Seq<usize>, v: int)
    ensures
        occ(a + b, v) == occ(a, v) + occ(b, v),
    decreases b.len(),
{
    if b.len() > 0 {
        assert((a + b).drop_last() =~= a + b.drop_last());
        lemma_occ_concat(a, b.drop_last(), v);
    } else {
        assert(a + b =~= a);
    }
}

pub proof fn lemma_occ_contains(s: Seq<usize>, v: usize)
    ensures
        occ(s, v as int) > 0 <==> s.contains(v),
    decreases s.len(),
{
    if s.len() > 0 {
        lemma_occ_contains(s.drop_last(), v);
        if s.drop_last().contains(v) {
            let k = choose|k: int| 0 <= k < s.drop_last().len() && s.drop_last()[k] == v;
            assert(s[k] == v);
        }
        if s.contains(v) && s.last() != v {
            let k = choose|k: int| 0 <= k < s.len() && s[k] == v;
            assert(k != s.len() - 1);
            assert(s.drop_last()[k] == v);
        }
        if s.last() == v {
            assert(s[s.len() - 1] == v);
        }
    }
}

proof fn lemma_occ_take(s: Seq<usize>, k: int, v: int)
    requires
        0 <= k <= s.len(),
    ensures
        occ(s.take(k), v) <= occ(s, v),
    decreases s.len(),
{
    if k < s.len() {
        assert(s.drop_last().take(k) =~= s.take(k));
        lemma_occ_take(s.drop_last(), k, v);
    } else {
        assert(s.take(k) =~= s);
    }
}

pub proof fn lemma_flat_push(cs: Seq<Seq<usize>>, c: Seq<usize>)
    ensures
        flat(cs.push(c)) == flat(cs) + c,
{
    assert(cs.push(c).drop_last() =~= cs);
}

/// The shared state of the search, with the facts every step keeps.
pub open spec fn state_inv(
    n: int,
    index: Seq<i64>,
    lowlink: Seq<i64>,
    on_stack: Seq<bool>,
    stack: Seq<usize>,
    result: Seq<Vec<usize>>,
    counter: int,
) -> bool {
    &&& index.len() == n && lowlink.len() == n && on_stack.len() == n
    &&& visited_set(index).len() == counter
    &&& forall|v: int| 0 <= v < n && #[trigger] index[v] != -1 ==> 0 <= lowlink[v] <= index[v] < counter
    &&& forall|v: int| 0 <= v < n ==> (#[trigger] on_stack[v] <==> occ(stack, v) > 0)
    &&& forall|v: int| #[trigger] occ(flat(comps(result)), v) + occ(stack, v)
        == if visited_set(index).contains(v) { 1nat } else { 0nat }
}

proof fn lemma_counter_bound(n: int, index: Seq<i64>, counter: int, v: int)
    requires
        index.len() == n,
        visited_set(index).len() == counter,
        0 <= v < n,
        index[v] == -1,
    ensures
        counter < n,
        visited_set(index).finite(),
{
    let vs = visited_set(index);
    lemma_int_range(0, n);
    assert(vs.insert(v).subset_of(set_int_range(0, n)));
    lemma_len_subset(vs.insert(v), set_int_range(0, n));
    assert(vs.subset_of(set_int_range(0, n)));
    lemma_len_subset(vs, set_int_range(0, n));
    assert(!vs.contains(v));
}

/// Numbers `v` and puts it on the component stack.
fn visit(
    v: usize,
    Ghost(result): Ghost<Seq<Vec<usize>>>,
    index: &mut Vec<i64>,
    lowlink: &mut Vec<i64>,
    on_stack: &mut Vec<bool>,
    stack: &mut Vec<usize>,
    counter: &mut i64,
)
    requires
        v < old(index)@.len(),
        old(index)@[v as int] == -1,
        *old(counter) >= 0,
        old(index)@.len() <= i64::MAX,
        old(lowlink)@.len() == old(index)@.len(),
        old(on_stack)@.len() == old(index)@.len(),
        visited_set(old(index)@).len() == *old(counter),
        state_inv(old(index)@.len() as int, old(index)@, old(lowlink)@, old(on_stack)@, old(stack)@, result, *old(counter) as int),
    ensures
        state_inv(final(index)@.len() as int, final(index)@, final(lowlink)@, final(on_stack)@, final(stack)@, result, *final(counter) as int),
        final(index)@ == old(index)@.update(v as int, *old(counter)),
        final(lowlink)@ == old(lowlink)@.update(v as int, *old(counter)),
        final(on_stack)@ == old(on_stack)@.update(v as int, true),
        final(stack)@ == old(stack)@.push(v),
        *final(counter) == *old(counter) + 1,
        visited_set(final(index)@) == visited_set(old(index)@).insert(v as int),
        visited_set(final(index)@).len() == *final(counter),
{
    proof {
        lemma_counter_bound(index@.len() as int, index@, *counter as int, v as int);
    }
    let c = *counter;
    index.set(v, c);
    lowlink.set(v, c);
    *counter = c + 1;
    stack.push(v);
    on_stack.set(v, true);
    proof {
        let old_vs = visited_set(old(index)@);
        assert(visited_set(index@) =~= old_vs.insert(v as int));
        assert(!old_vs.contains(v as int));
        let n = index@.len() as int;
        assert forall|u: int| 0 <= u < n implies (#[trigger] on_stack@[u] <==> occ(stack@, u) > 0) by {
            assert(stack@.drop_last() =~= old(stack)@);
        }
        assert forall|u: int| #[trigger] occ(flat(comps(result)), u) + occ(stack@, u)
            == if visited_set(index@).contains(u) { 1nat } else { 0nat } by {
            assert(stack@.drop_last() =~= old(stack)@);
            assert(occ(flat(comps(result)), u) + occ(old(stack)@, u)
                == if old_vs.contains(u) { 1nat } else { 0nat });
        }
        assert forall|u: int| 0 <= u < n && #[trigger] index@[u] != -1 implies 0 <= lowlink@[u] <= index@[u] < *counter by {
            if u != v {
                assert(old(index)@[u] != -1);
            }
        }
    }
}

/// Pops the component whose root is `v`: every vertex above `v` on the
/// stack, and `v` itself, leave the stack and form one new component.
fn pop_scc(v: usize, on_stack: &mut Vec<bool>, stack: &mut Vec<usize>, result: &mut Vec<Vec<usize>>)
    requires
        forall|u: int| 0 <= u < old(on_stack)@.len() ==> (#[trigger] old(on_stack)@[u] <==> occ(old(stack)@, u) > 0),
        forall|u: int| #[trigger] occ(old(stack)@, u) <= 1,
        forall|k: int| 0 <= k < old(stack)@.len() ==> #[trigger] old(stack)@[k] < old(on_stack)@.len(),
    ensures
        final(on_stack)@.len() == old(on_stack)@.len(),
        forall|u: int| 0 <= u < final(on_stack)@.len() ==> (#[trigger] final(on_stack)@[u] <==> occ(final(stack)@, u) > 0),
        final(stack)@ == old(stack)@.take(final(stack)@.len() as int),
        final(stack)@.len() <= old(stack)@.len(),
        final(result)@.len() == old(result)@.len() + 1,
        forall|k: int| 0 <= k < old(result)@.len() ==> #[trigger] final(result)@[k] == old(result)@[k],
        forall|u: int| #[trigger] occ(flat(comps(final(result)@)), u) + occ(final(stack)@, u)
            == occ(flat(comps(old(result)@)), u) + occ(old(stack)@, u),
        (forall|k: int| 0 < k < old(stack)@.len() ==> old(stack)@[k] != v) ==> final(stack)@.len() == 0,
        final(result)@.last()@.len() == old(stack)@.len() - final(stack)@.len(),
        forall|j: int| 0 <= j < final(result)@.last()@.len()
            ==> #[trigger] final(result)@.last()@[j] == old(stack)@[old(stack)@.len() - 1 - j],
        old(stack)@.contains(v) ==> final(stack)@.len() < old(stack)@.len()
            && old(stack)@[final(stack)@.len() as int] == v,
{
    let ghost stack0 = stack@;
    let mut component: Vec<usize> = Vec::new();
    loop
        invariant_except_break
            forall|j: int| 0 <= j < component@.len() ==> #[trigger] component@[j] != v,
        invariant
            stack@ == stack0.take(stack@.len() as int),
            stack@.len() <= stack0.len(),
            forall|u: int| #[trigger] occ(stack@, u) + occ(component@, u) == occ(stack0, u),
            on_stack@.len() == old(on_stack)@.len(),
            forall|u: int| 0 <= u < on_stack@.len() ==> (#[trigger] on_stack@[u] <==> occ(stack@, u) > 0),
            forall|u: int| #[trigger] occ(stack0, u) <= 1,
            forall|k: int| 0 <= k < stack0.len() ==> #[trigger] stack0[k] < on_stack@.len(),
            component@.len() == stack0.len() - stack@.len(),
            forall|j: int| 0 <= j < component@.len() ==> #[trigger] component@[j] == stack0[stack0.len() - 1 - j],
        ensures
            stack@ == stack0.take(stack@.len() as int),
            forall|u: int| #[trigger] occ(stack@, u) + occ(component@, u) == occ(stack0, u),
            on_stack@.len() == old(on_stack)@.len(),
            forall|u: int| 0 <= u < on_stack@.len() ==> (#[trigger] on_stack@[u] <==> occ(stack@, u) > 0),
            (forall|k: int| 0 < k < stack0.len() ==> stack0[k] != v) ==> stack@.len() == 0,
            component@.len() == stack0.len() - stack@.len(),
            forall|j: int| 0 <= j < component@.len() ==> #[trigger] component@[j] == stack0[stack0.len() - 1 - j],
            stack0.contains(v) ==> stack@.len() < stack0.len() && stack0[stack@.len() as int] == v,
        decreases stack@.len(),
    {
        let ghost before = stack@;
        match stack.pop() {
            Some(w) => {
                proof {
                    assert(before.drop_last() =~= stack@);
                    assert(before[before.len() - 1] == w);
                    assert(stack0[before.len() - 1] == w);
                    assert(stack@ =~= stack0.take(stack@.len() as int));
                    assert forall|u: int| #[trigger] occ(stack@, u) + occ(component@.push(w), u) == occ(stack0, u) by {
                        assert(component@.push(w).drop_last() =~= component@);
                        assert(occ(before, u) == occ(stack@, u) + if w as int == u { 1nat } else { 0nat });
                        assert(occ(component@.push(w), u) == occ(component@, u) + if w as int == u { 1nat } else { 0nat });
                    }
                    lemma_occ_contains(stack@, w);
                    assert(occ(before, w as int) <= occ(stack0, w as int)) by {
                        assert(occ(component@, w as int) >= 0);
                    }
                }
                on_stack.set(w, false);
                let ghost comp0 = component@;
                component.push(w);
                proof {
                    assert forall|j: int| 0 <= j < component@.len() implies #[trigger] component@[j] == stack0[stack0.len() - 1 - j] by {
                        if j < comp0.len() {
                            assert(component@[j] == comp0[j]);
                        }
                    }
                }
                if w == v {
                    proof {
                        if forall|k: int| 0 < k < stack0.len() ==> stack0[k] != v {
                            assert(stack0[before.len() - 1] == v);
                        }
                    }
                    break;
                }
            },
            None => {
                proof {
                    if stack0.contains(v) {
                        let k = choose|k: int| 0 <= k < stack0.len() && stack0[k] == v;
                        assert(component@[stack0.len() - 1 - k] == stack0[k]);
                    }
                }
                break;
            },
        }
    }
    let ghost old_result = result@;
    result.push(component);
    proof {
        assert(comps(result@) =~= comps(old_result).push(component@));
        lemma_flat_push(comps(old_result), component@);
        assert forall|u: int| #[trigger] occ(flat(comps(result@)), u) + occ(stack@, u)
            == occ(flat(comps(old_result)), u) + occ(stack0, u) by {
            lemma_occ_concat(flat(comps(old_result)), component@, u);
        }
    }
}

proof fn lemma_visited_bound(index: Seq<i64>)
    ensures
        visited_set(index).finite(),
        visited_set(index).len() <= index.len(),
{
    lemma_int_range(0, index.len() as int);
    assert(visited_set(index).subset_of(set_int_range(0, index.len() as int)));
    lemma_len_subset(visited_set(index), set_int_range(0, index.len() as int));
}

/// Edges still to look at on the work stack, plus one per entry.
pub open spec fn work_measure(work: Seq<(usize, usize)>, adj: Seq<Vec<usize>>) -> nat
    decreases work.len(),
{
    if work.len() == 0 {
        0
    } else {
        work_measure(work.drop_last(), adj) + ((adj[work.last().0 as int]@.len() - work.last().1) as nat) + 1
    }
}

/// One depth-first search of Tarjan's algorithm from the unvisited vertex
/// `start`, emitting every component whose root it reaches.
fn dfs_iterative(
    start: usize,
    adj: &[Vec<usize>],
    index: &mut Vec<i64>,
    lowlink: &mut Vec<i64>,
    on_stack: &mut Vec<bool>,
    stack: &mut Vec<usize>,
    result: &mut Vec<Vec<usize>>,
    counter: &mut i64,
)
    requires
        well_formed_adj(adj@),
        adj@.len() <= i64::MAX,
        old(index)@.len() == adj@.len(),
        state_inv(adj@.len() as int, old(index)@, old(lowlink)@, old(on_stack)@, old(stack)@, old(result)@, *old(counter) as int),
        start < adj@.len(),
        old(index)@[start as int] == -1,
        old(stack)@.len() == 0,
        comps_connected(adj@, comps(old(result)@)),
        prefixes_closed(adj@, comps(old(result)@)),
    ensures
        state_inv(adj@.len() as int, final(index)@, final(lowlink)@, final(on_stack)@, final(stack)@, final(result)@, *final(counter) as int),
        final(stack)@.len() == 0,
        final(index)@[start as int] != -1,
        forall|u: int| #[trigger] visited_set(old(index)@).contains(u) ==> visited_set(final(index)@).contains(u),
        comps_connected(adj@, comps(final(result)@)),
        prefixes_closed(adj@, comps(final(result)@)),
{
    let ghost n = adj@.len() as int;
    proof {
        lemma_visited_bound(index@);
    }
    let base: i64 = *counter;
    let ghost old_vis = visited_set(index@);
    let mut work: Vec<(usize, usize)> = Vec::new();
    visit(start, Ghost(result@), index, lowlink, on_stack, stack, counter);
    work.push((start, 0));
    let ghost mut lw: Seq<int> = Seq::new(n as nat, |u: int| u);
    proof {
        assert(work@.drop_last() =~= Seq::<(usize, usize)>::empty());
        assert(stack@.drop_last() =~= Seq::<usize>::empty());
        assert forall|u: int| #[trigger] occ(stack@, u) > 0 implies 0 <= u < n && index@[u] >= base by {
            assert(occ(stack@.drop_last(), u) == 0);
        }
        assert(stack@ =~= seq![start]);
        assert(work@ =~= seq![(start, 0usize)]);
        lemma_inv_start(adj@, index@, lowlink@, start, lw);
    }
    while work.len() > 0
        invariant
            n == adj@.len(),
            well_formed_adj(adj@),
            n <= i64::MAX,
            index@.len() == n,
            state_inv(n, index@, lowlink@, on_stack@, stack@, result@, *counter as int),
            0 <= base <= *counter,
            index@[start as int] == base,
            forall|u: int| 0 <= u < n && #[trigger] index@[u] != -1 && index@[u] >= base ==> lowlink@[u] >= base,
            forall|u: int| #[trigger] occ(stack@, u) > 0 ==> 0 <= u < n && index@[u] >= base,
            forall|k: int| 0 < k < stack@.len() ==> #[trigger] stack@[k] != start,
            forall|k: int| 0 <= k < work@.len() ==> (#[trigger] work@[k]).0 < n && index@[work@[k].0 as int] >= base
                && work@[k].1 <= adj@[work@[k].0 as int]@.len(),
            work@.len() > 0 ==> work@[0].0 == start,
            work@.len() == 0 ==> stack@.len() == 0,
            forall|u: int| #[trigger] old_vis.contains(u) ==> visited_set(index@).contains(u),
            search_inv(adj@, index@, lowlink@, stack@, work@, lw),
            comps_connected(adj@, comps(result@)),
            prefixes_closed(adj@, comps(result@)),
        decreases n - *counter, work_measure(work@, adj@),
    {
        proof {
            lemma_visited_bound(index@);
        }
        let top = work.len() - 1;
        let (v, i) = work[top];
        if i < adj[v].len() {
            let w = adj[v][i];
            proof {
                assert(adj@[v as int]@[i as int] < n);
            }
            let ghost wk = work@;
            work.set(top, (v, i + 1));
            proof {
                assert(work@.drop_last() =~= wk.drop_last());
                assert(work@.last() == (v, (i + 1) as usize));
                assert(wk.last() == (v, i));
                assert(work_measure(work@, adj@) < work_measure(wk, adj@));
                assert(work@ == step_path(wk));
            }
            if index[w] == -1 {
                let ghost pre_index = index@;
                let ghost pre_lowlink = lowlink@;
                let ghost pre_stack = stack@;
                let ghost c = *counter;
                visit(w, Ghost(result@), index, lowlink, on_stack, stack, counter);
                work.push((w, 0));
                proof {
                    lemma_visited_bound(index@);
                    assert(w != start);
                    assert forall|u: int| #[trigger] old_vis.contains(u) implies visited_set(index@).contains(u) by {
                        assert(visited_set(pre_index).contains(u));
                    }
                    assert forall|u: int| #[trigger] occ(stack@, u) > 0 implies 0 <= u < n && index@[u] >= base by {
                        assert(stack@.drop_last() =~= pre_stack);
                        if u != w as int {
                            assert(occ(stack@, u) == occ(pre_stack, u));
                        }
                    }
                    assert forall|k: int| 0 < k < stack@.len() implies #[trigger] stack@[k] != start by {
                        if k < stack@.len() - 1 {
                            assert(stack@[k] == pre_stack[k]);
                        }
                    }
                    assert(work@ =~= visit_path(wk, w));
                    lemma_inv_visit(adj@, pre_index, pre_lowlink, pre_stack, wk, lw, w, c);
                    lw = lw.update(w as int, w as int);
                }
            } else {
                let ghost pre_lowlink = lowlink@;
                if on_stack[w] {
                    if index[w] < lowlink[v] {
                        lowlink.set(v, index[w]);
                    }
                }
                proof {
                    assert(lowlink@ == seen_lowlink(index@, pre_lowlink, stack@, v as int, w as int));
                    lemma_inv_seen(adj@, index@, pre_lowlink, stack@, wk, lw, w);
                    lw = seen_lw(index@, pre_lowlink, stack@, lw, v as int, w as int);
                }
            }
        } else {
            let ghost wk = work@;
            let ghost pre_lowlink = lowlink@;
            let ghost pre_stack = stack@;
            let ghost lw0 = lw;
            proof {
                assert(wk.last() == (v, i));
                lemma_inv_path(adj@, index@, lowlink@, stack@, wk, lw);
                assert(index@[v as int] != -1);
                if top > 0 {
                    assert(index@[wk[top - 1].0 as int] != -1);
                } else {
                    assert(v == start);
                }
            }
            work.pop();
            proof {
                assert(work@ =~= wk.drop_last());
                assert(work_measure(work@, adj@) < work_measure(wk, adj@));
            }
            if lowlink[v] == index[v] {
                proof {
                    assert forall|u: int| #[trigger] occ(stack@, u) <= 1 by {
                        assert(occ(flat(comps(result@)), u) + occ(stack@, u)
                            == if visited_set(index@).contains(u) { 1nat } else { 0nat });
                    }
                    assert forall|k: int| 0 <= k < stack@.len() implies #[trigger] stack@[k] < on_stack@.len() by {
                        lemma_occ_contains(stack@, stack@[k]);
                        assert(stack@.contains(stack@[k]));
                    }
                    lemma_occ_contains(stack@, v);
                }
                let ghost pre_result = result@;
                pop_scc(v, on_stack, stack, result);
                proof {
                    assert forall|u: int| #[trigger] occ(stack@, u) > 0 implies 0 <= u < n && index@[u] >= base by {
                        lemma_occ_take(pre_stack, stack@.len() as int, u);
                    }
                    assert forall|k: int| 0 < k < stack@.len() implies #[trigger] stack@[k] != start by {
                        assert(stack@[k] == pre_stack[k]);
                    }
                    let pos = stack@.len() as int;
                    lemma_pop_stack(adj@, index@, lowlink@, pre_stack, wk, lw, pos);
                    lemma_emit(adj@, index@, lowlink@, pre_stack, wk, lw, pos, comps(pre_result), result@.last()@);
                    assert(comps(result@) =~= comps(pre_result).push(result@.last()@));
                }
            }
            if work.len() > 0 {
                let parent = work[work.len() - 1].0;
                if lowlink[v] < lowlink[parent] {
                    proof {
                        assert(pre_lowlink[v as int] < index@[v as int]);
                    }
                    let lv = lowlink[v];
                    lowlink.set(parent, lv);
                }
            }
            proof {
                if pre_lowlink[v as int] < index@[v as int] {
                    assert(wk.len() >= 2);
                    assert(stack@ == pre_stack);
                    lemma_inv_close(adj@, index@, pre_lowlink, pre_stack, wk, lw0);
                    assert(lowlink@ == up_lowlink(pre_lowlink, wk[wk.len() - 2].0 as int, v as int));
                    lw = up_lw(pre_lowlink, lw0, wk[wk.len() - 2].0 as int, v as int);
                }
            }
        }
    }
}

/// The strongly connected components of the graph `adj` (vertex `v`'s
/// successors are `adj[v]`), each as a list of vertices. Every vertex lies
/// in exactly one component, none is empty, and two vertices lie in the
/// same component exactly when each reaches the other. Components come
/// out in reverse topological order: an edge leaves a component only
/// towards one that came out before it.
pub fn tarjan_scc(adj: &[Vec<usize>]) -> (r: Vec<Vec<usize>>)
    requires
        well_formed_adj(adj@),
        adj@.len() <= i64::MAX,
    ensures
        is_vertex_partition(comps(r@), adj@.len() as int),
        forall|i: int| 0 <= i < comps(r@).len() ==> (#[trigger] comps(r@)[i]).len() > 0,
        comps_strongly_connected(adj@, comps(r@)),
        comps_maximal(adj@, comps(r@)),
        comps_reverse_topological(adj@, comps(r@)),
{
    let n = adj.len();
    let mut index: Vec<i64> = Vec::new();
    let mut lowlink: Vec<i64> = Vec::new();
    let mut on_stack: Vec<bool> = Vec::new();
    let mut k: usize = 0;
    while k < n
        invariant
            k <= n,
            n == adj@.len(),
            index@.len() == k && lowlink@.len() == k && on_stack@.len() == k,
            forall|u: int| 0 <= u < k ==> #[trigger] index@[u] == -1,
            forall|u: int| 0 <= u < k ==> !(#[trigger] on_stack@[u]),
        decreases n - k,
    {
        index.push(-1);
        lowlink.push(-1);
        on_stack.push(false);
        k += 1;
    }
    let mut stack: Vec<usize> = Vec::new();
    let mut result: Vec<Vec<usize>> = Vec::new();
    let mut counter: i64 = 0;
    proof {
        assert(visited_set(index@) =~= Set::<int>::empty());
        assert forall|u: int| #[trigger] occ(flat(comps(result@)), u) + occ(stack@, u)
            == if visited_set(index@).contains(u) { 1nat } else { 0nat } by {
            assert(comps(result@) =~= Seq::<Seq<usize>>::empty());
        }
        assert forall|u: int| 0 <= u < n implies (#[trigger] on_stack@[u] <==> occ(stack@, u) > 0) by {
            assert(!on_stack@[u]);
        }
        assert forall|u: int| 0 <= u < n && #[trigger] index@[u] != -1 implies 0 <= lowlink@[u] <= index@[u] < counter by {
            assert(index@[u] == -1);
        }
        assert(comps(result@) =~= Seq::<Seq<usize>>::empty());
        lemma_no_comps(adj@);
    }
    let mut v: usize = 0;
    while v < n
        invariant
            v <= n,
            n == adj@.len(),
            n <= i64::MAX,
            well_formed_adj(adj@),
            index@.len() == n,
            state_inv(n as int, index@, lowlink@, on_stack@, stack@, result@, counter as int),
            counter >= 0,
            stack@.len() == 0,
            forall|u: int| 0 <= u < v ==> #[trigger] visited_set(index@).contains(u),
            comps_connected(adj@, comps(result@)),
            prefixes_closed(adj@, comps(result@)),
        decreases n - v,
    {
        if index[v] != -1 {
            v += 1;
            continue;
        }
        let ghost pre = visited_set(index@);
        dfs_iterative(v, adj, &mut index, &mut lowlink, &mut on_stack, &mut stack, &mut result, &mut counter);
        proof {
            assert forall|u: int| 0 <= u < v + 1 implies #[trigger] visited_set(index@).contains(u) by {
                if u < v {
                    assert(pre.contains(u));
                }
            }
            lemma_visited_bound(index@);
        }
        v += 1;
    }
    proof {
        assert forall|u: int| #[trigger] occ(flat(comps(result@)), u) == if 0 <= u < n { 1nat } else { 0nat } by {
            assert(occ(flat(comps(result@)), u) + occ(stack@, u)
                == if visited_set(index@).contains(u) { 1nat } else { 0nat });
            assert(stack@ =~= Seq::<usize>::empty());
            if 0 <= u < n {
                assert(visited_set(index@).contains(u));
            }
        }
        lemma_comps_are_sccs(adj@, comps(result@));
    }
    result
}

} // verus!
