//! Compares a graph taken after a change with the graph taken before it and
//! flags regressions: symbols and edges added or removed, edges whose
//! target vanished, unresolved imports gained, and new dependency cycles.
//! Both graphs are only read.
//!
//! The regression score is a heuristic weighting of those signals. It is
//! kept in tenths, so that it stays an exact integer: a dangling reference
//! weighs 10, a new cycle 5, each newly unresolved import 1 (at most 50 in
//! all), and the total is capped at 100.

use vstd::prelude::*;
use crate::graph::{CodeGraph, GraphNode, GraphEdge};
use crate::text::{chars_of, str_eq, str_is_empty, find, slice_to_vec, string_from_chars, spec_find, occurs_at,
    is_first_occurrence};
use crate::parser::naming::{strings_contain, join_strings, seq_join, views};
use crate::sorting::{sort_strings, lex_leq};
use crate::scc::{tarjan_scc, comps, flat, occ, is_vertex_partition, well_formed_adj, lemma_occ_contains};
use crate::scc_inv::{comps_strongly_connected, comps_maximal};

verus! {

/// Weight of one dangling reference, in tenths.
pub const WEIGHT_DANGLING_TENTHS: u64 = 10;
/// Weight of one new cycle, in tenths.
pub const WEIGHT_NEW_CYCLE_TENTHS: u64 = 5;
/// Weight of one newly unresolved import, in tenths.
pub const WEIGHT_UNRESOLVED_DELTA_TENTHS: u64 = 1;
/// Cap on the unresolved-import part of the score, in tenths.
pub const UNRESOLVED_PART_CAP_TENTHS: u64 = 50;
/// Cap on the whole score, in tenths.
pub const REGRESSION_SCORE_CAP_TENTHS: u64 = 100;
/// Scores below this (in tenths) are clean.
pub const VERDICT_CLEAN_MAX_TENTHS: u64 = 10;
/// Scores below this (in tenths), and not clean, are concerning.
pub const VERDICT_CONCERNING_MAX_TENTHS: u64 = 50;
/// How many entries of each details list a report keeps.
pub const DETAILS_TRUNCATION: usize = 100;

/// The labels whose qualified name identifies "the same symbol" across two
/// indexing runs.
pub open spec fn spec_is_diffable(label: Seq<char>) -> bool {
    label == "Function"@ || label == "Method"@ || label == "Struct"@ || label == "Enum"@
        || label == "Trait"@ || label == "Module"@ || label == "Constant"@ || label == "TypeAlias"@
}

pub fn is_diffable_label(label: &str) -> (r: bool)
    ensures
        r == spec_is_diffable(label@),
{
    str_eq(label, "Function") || str_eq(label, "Method") || str_eq(label, "Struct") || str_eq(label, "Enum")
        || str_eq(label, "Trait") || str_eq(label, "Module") || str_eq(label, "Constant")
        || str_eq(label, "TypeAlias")
}

/// The two graph locations to compare.
pub struct SemanticDiffArgs {
    pub before_graph_path: String,
    pub after_graph_path: String,
}

/// The counts a diff reports.
#[derive(Clone, Copy, Default)]
pub struct DiffSummary {
    pub nodes_added: u64,
    pub nodes_removed: u64,
    pub edges_added: u64,
    pub edges_removed: u64,
    pub dangling_references: u64,
    pub new_unresolved_delta: i64,
    pub new_cycles: u64,
}

/// A symbol: its label and qualified name.
pub struct LabeledName {
    pub label: String,
    pub qualified_name: String,
}

/// An edge keyed by `(from qualified name, kind, to qualified name)`.
pub struct EdgeTriple {
    pub from: String,
    pub kind: String,
    pub to: String,
}

pub open spec fn ln_view(x: LabeledName) -> (Seq<char>, Seq<char>) {
    (x.label@, x.qualified_name@)
}

pub open spec fn ln_views(s: Seq<LabeledName>) -> Seq<(Seq<char>, Seq<char>)> {
    s.map_values(|x: LabeledName| ln_view(x))
}

pub open spec fn tr_view(x: EdgeTriple) -> (Seq<char>, Seq<char>, Seq<char>) {
    (x.from@, x.kind@, x.to@)
}

pub open spec fn tr_views(s: Seq<EdgeTriple>) -> Seq<(Seq<char>, Seq<char>, Seq<char>)> {
    s.map_values(|x: EdgeTriple| tr_view(x))
}

pub open spec fn str_views(s: Seq<String>) -> Seq<Seq<char>> {
    s.map_values(|x: String| x@)
}

/// The elements of `a`, in order, that `b` does not contain.
pub open spec fn minus<T>(a: Seq<T>, b: Seq<T>) -> Seq<T>
    decreases a.len(),
{
    if a.len() == 0 {
        Seq::empty()
    } else {
        let p = minus(a.drop_last(), b);
        if b.contains(a.last()) {
            p
        } else {
            p.push(a.last())
        }
    }
}

/// `s` with `x` appended unless it already holds it.
pub open spec fn push_new<T>(s: Seq<T>, x: T) -> Seq<T> {
    if s.contains(x) {
        s
    } else {
        s.push(x)
    }
}

/// The semantic kind of a relationship table: its name up to the first `_`.
pub open spec fn spec_rel_kind(rel: Seq<char>) -> Seq<char> {
    match spec_find(rel, seq!['_']) {
        Some(i) => rel.take(i),
        None => rel,
    }
}

pub fn rel_kind(rel: &str) -> (r: String)
    ensures
        r@ == spec_rel_kind(rel@),
{
    let cs = chars_of(rel);
    let us: Vec<char> = vec!['_'];
    proof {
        assert(us@ =~= seq!['_']);
    }
    match find(&cs, &us) {
        Some(i) => {
            let k = slice_to_vec(&cs, 0, i);
            proof {
                assert(k@ =~= rel@.take(i as int));
            }
            string_from_chars(&k)
        },
        None => string_from_chars(&cs),
    }
}

/// The first node with id `id`.
pub open spec fn node_by_id(nodes: Seq<GraphNode>, id: Seq<char>) -> Option<GraphNode>
    decreases nodes.len(),
{
    if nodes.len() == 0 {
        None
    } else if nodes[0].id@ == id {
        Some(nodes[0])
    } else {
        node_by_id(nodes.drop_first(), id)
    }
}

pub fn find_node(nodes: &Vec<GraphNode>, id: &str) -> (r: Option<usize>)
    ensures
        match r {
            Some(k) => k < nodes@.len() && node_by_id(nodes@, id@) == Some(nodes@[k as int]),
            None => node_by_id(nodes@, id@) is None,
        },
{
    let mut i: usize = 0;
    assert(nodes@.skip(0) =~= nodes@);
    while i < nodes.len()
        invariant
            i <= nodes@.len(),
            node_by_id(nodes@, id@) == node_by_id(nodes@.skip(i as int), id@),
        decreases nodes@.len() - i,
    {
        proof {
            assert(nodes@.skip(i as int)[0] == nodes@[i as int]);
            assert(nodes@.skip(i as int).drop_first() =~= nodes@.skip(i + 1));
        }
        if str_eq(nodes[i].id.as_str(), id) {
            return Some(i);
        }
        i += 1;
    }
    None
}

/// A node counted as a symbol of the diff.
pub open spec fn is_symbol_node(n: GraphNode) -> bool {
    spec_is_diffable(n.label@) && n.qualified_name@.len() > 0
}

/// The symbols of a graph, each once, in order of first appearance.
pub open spec fn node_set_of(nodes: Seq<GraphNode>) -> Seq<(Seq<char>, Seq<char>)>
    decreases nodes.len(),
{
    if nodes.len() == 0 {
        Seq::empty()
    } else {
        let p = node_set_of(nodes.drop_last());
        let n = nodes.last();
        if is_symbol_node(n) {
            push_new(p, (n.label@, n.qualified_name@))
        } else {
            p
        }
    }
}

/// The key of an edge, when both ends are nodes with a qualified name.
pub open spec fn edge_key(nodes: Seq<GraphNode>, e: GraphEdge) -> Option<(Seq<char>, Seq<char>, Seq<char>)> {
    match (node_by_id(nodes, e.from_id@), node_by_id(nodes, e.to_id@)) {
        (Some(a), Some(b)) => if a.qualified_name@.len() > 0 && b.qualified_name@.len() > 0 {
            Some((a.qualified_name@, spec_rel_kind(e.rel@), b.qualified_name@))
        } else {
            None
        },
        _ => None,
    }
}

/// The edge keys of a graph, each once, in order of first appearance.
pub open spec fn edge_set_of(nodes: Seq<GraphNode>, edges: Seq<GraphEdge>) -> Seq<(Seq<char>, Seq<char>, Seq<char>)>
    decreases edges.len(),
{
    if edges.len() == 0 {
        Seq::empty()
    } else {
        let p = edge_set_of(nodes, edges.drop_last());
        match edge_key(nodes, edges.last()) {
            Some(k) => push_new(p, k),
            None => p,
        }
    }
}

/// How many nodes carry the label `Import`: imports that resolution could
/// not turn into edges.
pub open spec fn import_count(nodes: Seq<GraphNode>) -> nat
    decreases nodes.len(),
{
    if nodes.len() == 0 {
        0
    } else {
        import_count(nodes.drop_last()) + if nodes.last().label@ == "Import"@ { 1nat } else { 0nat }
    }
}

pub fn contains_name(v: &Vec<LabeledName>, label: &str, qn: &str) -> (r: bool)
    ensures
        r == ln_views(v@).contains((label@, qn@)),
{
    let mut i: usize = 0;
    while i < v.len()
        invariant
            i <= v@.len(),
            forall|k: int| 0 <= k < i ==> ln_view(#[trigger] v@[k]) != (label@, qn@),
        decreases v@.len() - i,
    {
        if str_eq(v[i].label.as_str(), label) && str_eq(v[i].qualified_name.as_str(), qn) {
            proof {
                assert(ln_views(v@)[i as int] == (label@, qn@));
            }
            return true;
        }
        i += 1;
    }
    proof {
        if ln_views(v@).contains((label@, qn@)) {
            let k = choose|k: int| 0 <= k < ln_views(v@).len() && ln_views(v@)[k] == (label@, qn@);
            assert(ln_view(v@[k]) == (label@, qn@));
        }
    }
    false
}

pub fn contains_triple(v: &Vec<EdgeTriple>, from: &str, kind: &str, to: &str) -> (r: bool)
    ensures
        r == tr_views(v@).contains((from@, kind@, to@)),
{
    let mut i: usize = 0;
    while i < v.len()
        invariant
            i <= v@.len(),
            forall|k: int| 0 <= k < i ==> tr_view(#[trigger] v@[k]) != (from@, kind@, to@),
        decreases v@.len() - i,
    {
        if str_eq(v[i].from.as_str(), from) && str_eq(v[i].kind.as_str(), kind) && str_eq(v[i].to.as_str(), to) {
            proof {
                assert(tr_views(v@)[i as int] == (from@, kind@, to@));
            }
            return true;
        }
        i += 1;
    }
    proof {
        if tr_views(v@).contains((from@, kind@, to@)) {
            let k = choose|k: int| 0 <= k < tr_views(v@).len() && tr_views(v@)[k] == (from@, kind@, to@);
            assert(tr_view(v@[k]) == (from@, kind@, to@));
        }
    }
    false
}

fn copy_string(s: &String) -> (r: String)
    ensures
        r@ == s@,
{
    crate::text::to_owned_string(s.as_str())
}

/// The diffable symbols of a graph, each once.
pub fn collect_nodes(graph: &CodeGraph) -> (r: Vec<LabeledName>)
    ensures
        ln_views(r@) == node_set_of(graph.nodes@),
{
    let nodes = &graph.nodes;
    let mut out: Vec<LabeledName> = Vec::new();
    let mut i: usize = 0;
    while i < nodes.len()
        invariant
            i <= nodes@.len(),
            nodes@ == graph.nodes@,
            ln_views(out@) == node_set_of(nodes@.take(i as int)),
        decreases nodes@.len() - i,
    {
        proof {
            assert(nodes@.take(i + 1).drop_last() =~= nodes@.take(i as int));
            assert(nodes@.take(i + 1).last() == nodes@[i as int]);
        }
        let n = &nodes[i];
        if is_diffable_label(n.label.as_str()) && !str_is_empty(n.qualified_name.as_str()) {
            if !contains_name(&out, n.label.as_str(), n.qualified_name.as_str()) {
                let ghost before = out@;
                out.push(LabeledName { label: copy_string(&n.label), qualified_name: copy_string(&n.qualified_name) });
                proof {
                    assert(ln_views(out@) =~= ln_views(before).push((n.label@, n.qualified_name@)));
                }
            }
        }
        i += 1;
    }
    proof {
        assert(nodes@.take(nodes@.len() as int) =~= nodes@);
    }
    out
}

/// The edges of a graph keyed by the qualified names of their ends and the
/// kind of their table, each once.
pub fn collect_edges(graph: &CodeGraph) -> (r: Vec<EdgeTriple>)
    ensures
        tr_views(r@) == edge_set_of(graph.nodes@, graph.edges@),
{
    let nodes = &graph.nodes;
    let edges = &graph.edges;
    let mut out: Vec<EdgeTriple> = Vec::new();
    let mut i: usize = 0;
    while i < edges.len()
        invariant
            i <= edges@.len(),
            nodes@ == graph.nodes@,
            edges@ == graph.edges@,
            tr_views(out@) == edge_set_of(nodes@, edges@.take(i as int)),
        decreases edges@.len() - i,
    {
        proof {
            assert(edges@.take(i + 1).drop_last() =~= edges@.take(i as int));
            assert(edges@.take(i + 1).last() == edges@[i as int]);
        }
        let e = &edges[i];
        match (find_node(nodes, e.from_id.as_str()), find_node(nodes, e.to_id.as_str())) {
            (Some(a), Some(b)) => {
                if !str_is_empty(nodes[a].qualified_name.as_str()) && !str_is_empty(nodes[b].qualified_name.as_str()) {
                    let kind = rel_kind(e.rel.as_str());
                    if !contains_triple(&out, nodes[a].qualified_name.as_str(), kind.as_str(), nodes[b].qualified_name.as_str()) {
                        let ghost before = out@;
                        out.push(EdgeTriple {
                            from: copy_string(&nodes[a].qualified_name),
                            kind,
                            to: copy_string(&nodes[b].qualified_name),
                        });
                        proof {
                            assert(tr_views(out@) =~= tr_views(before).push(
                                (nodes@[a as int].qualified_name@, spec_rel_kind(e.rel@), nodes@[b as int].qualified_name@),
                            ));
                        }
                    }
                }
            },
            _ => {},
        }
        i += 1;
    }
    proof {
        assert(edges@.take(edges@.len() as int) =~= edges@);
    }
    out
}

/// Counts the nodes labelled `Import`.
pub fn count_unresolved(graph: &CodeGraph) -> (r: u64)
    ensures
        r == import_count(graph.nodes@),
{
    let nodes = &graph.nodes;
    let mut count: u64 = 0;
    let mut i: usize = 0;
    while i < nodes.len()
        invariant
            i <= nodes@.len(),
            nodes@ == graph.nodes@,
            count == import_count(nodes@.take(i as int)),
            count <= i,
        decreases nodes@.len() - i,
    {
        proof {
            assert(nodes@.take(i + 1).drop_last() =~= nodes@.take(i as int));
            assert(nodes@.take(i + 1).last() == nodes@[i as int]);
        }
        if str_eq(nodes[i].label.as_str(), "Import") {
            count += 1;
        }
        i += 1;
    }
    proof {
        assert(nodes@.take(nodes@.len() as int) =~= nodes@);
    }
    count
}

/// What one graph contributes to a diff, read once.
pub struct Snapshot {
    pub nodes: Vec<LabeledName>,
    pub edges: Vec<EdgeTriple>,
    pub unresolved: u64,
}

impl Snapshot {
    /// Reads the symbols, edges and unresolved-import count of a graph.
    pub fn collect(graph: &CodeGraph) -> (r: Snapshot)
        ensures
            ln_views(r.nodes@) == node_set_of(graph.nodes@),
            tr_views(r.edges@) == edge_set_of(graph.nodes@, graph.edges@),
            r.unresolved == import_count(graph.nodes@),
    {
        Snapshot {
            nodes: collect_nodes(graph),
            edges: collect_edges(graph),
            unresolved: count_unresolved(graph),
        }
    }
}

/// Symbols present after and not before, and the other way round.
pub struct NodeDiff {
    pub added: Vec<LabeledName>,
    pub removed: Vec<LabeledName>,
}

/// Edges present after and not before, and the other way round.
pub struct EdgeDiff {
    pub added: Vec<EdgeTriple>,
    pub removed: Vec<EdgeTriple>,
}

/// The symbols of `a`, in order, that `b` lacks.
pub fn names_minus(a: &Vec<LabeledName>, b: &Vec<LabeledName>) -> (r: Vec<LabeledName>)
    ensures
        ln_views(r@) == minus(ln_views(a@), ln_views(b@)),
{
    let mut out: Vec<LabeledName> = Vec::new();
    let mut i: usize = 0;
    while i < a.len()
        invariant
            i <= a@.len(),
            ln_views(out@) == minus(ln_views(a@.take(i as int)), ln_views(b@)),
        decreases a@.len() - i,
    {
        proof {
            assert(ln_views(a@.take(i + 1)).drop_last() =~= ln_views(a@.take(i as int)));
            assert(ln_views(a@.take(i + 1)).last() == ln_view(a@[i as int]));
        }
        if !contains_name(b, a[i].label.as_str(), a[i].qualified_name.as_str()) {
            let ghost before = out@;
            out.push(LabeledName { label: copy_string(&a[i].label), qualified_name: copy_string(&a[i].qualified_name) });
            proof {
                assert(ln_views(out@) =~= ln_views(before).push(ln_view(a@[i as int])));
            }
        }
        i += 1;
    }
    proof {
        assert(a@.take(a@.len() as int) =~= a@);
    }
    out
}

/// The edges of `a`, in order, that `b` lacks.
pub fn triples_minus(a: &Vec<EdgeTriple>, b: &Vec<EdgeTriple>) -> (r: Vec<EdgeTriple>)
    ensures
        tr_views(r@) == minus(tr_views(a@), tr_views(b@)),
{
    let mut out: Vec<EdgeTriple> = Vec::new();
    let mut i: usize = 0;
    while i < a.len()
        invariant
            i <= a@.len(),
            tr_views(out@) == minus(tr_views(a@.take(i as int)), tr_views(b@)),
        decreases a@.len() - i,
    {
        proof {
            assert(tr_views(a@.take(i + 1)).drop_last() =~= tr_views(a@.take(i as int)));
            assert(tr_views(a@.take(i + 1)).last() == tr_view(a@[i as int]));
        }
        if !contains_triple(b, a[i].from.as_str(), a[i].kind.as_str(), a[i].to.as_str()) {
            let ghost before = out@;
            out.push(copy_triple(&a[i]));
            proof {
                assert(tr_views(out@) =~= tr_views(before).push(tr_view(a@[i as int])));
            }
        }
        i += 1;
    }
    proof {
        assert(a@.take(a@.len() as int) =~= a@);
    }
    out
}

fn copy_triple(t: &EdgeTriple) -> (r: EdgeTriple)
    ensures
        tr_view(r) == tr_view(*t),
{
    EdgeTriple { from: copy_string(&t.from), kind: copy_string(&t.kind), to: copy_string(&t.to) }
}

/// Symbols added and removed between two snapshots.
pub fn diff_nodes(before: &Vec<LabeledName>, after: &Vec<LabeledName>) -> (r: NodeDiff)
    ensures
        ln_views(r.added@) == minus(ln_views(after@), ln_views(before@)),
        ln_views(r.removed@) == minus(ln_views(before@), ln_views(after@)),
{
    NodeDiff { added: names_minus(after, before), removed: names_minus(before, after) }
}

/// Edges added and removed between two snapshots.
pub fn diff_edges(before: &Vec<EdgeTriple>, after: &Vec<EdgeTriple>) -> (r: EdgeDiff)
    ensures
        tr_views(r.added@) == minus(tr_views(after@), tr_views(before@)),
        tr_views(r.removed@) == minus(tr_views(before@), tr_views(after@)),
{
    EdgeDiff { added: triples_minus(after, before), removed: triples_minus(before, after) }
}

/// Some symbol of `nodes` has qualified name `qn`.
pub open spec fn has_qn(nodes: Seq<(Seq<char>, Seq<char>)>, qn: Seq<char>) -> bool {
    exists|i: int| 0 <= i < nodes.len() && (#[trigger] nodes[i]).1 == qn
}

/// The edges, in order, whose target is no symbol of `nodes`.
pub open spec fn dangling_of(nodes: Seq<(Seq<char>, Seq<char>)>, edges: Seq<(Seq<char>, Seq<char>, Seq<char>)>)
    -> Seq<(Seq<char>, Seq<char>, Seq<char>)>
    decreases edges.len(),
{
    if edges.len() == 0 {
        Seq::empty()
    } else {
        let p = dangling_of(nodes, edges.drop_last());
        if has_qn(nodes, edges.last().2) {
            p
        } else {
            p.push(edges.last())
        }
    }
}

fn has_qualified_name(nodes: &Vec<LabeledName>, qn: &str) -> (r: bool)
    ensures
        r == has_qn(ln_views(nodes@), qn@),
{
    let mut i: usize = 0;
    while i < nodes.len()
        invariant
            i <= nodes@.len(),
            forall|k: int| 0 <= k < i ==> (#[trigger] nodes@[k]).qualified_name@ != qn@,
        decreases nodes@.len() - i,
    {
        if str_eq(nodes[i].qualified_name.as_str(), qn) {
            proof {
                assert(ln_views(nodes@)[i as int].1 == qn@);
            }
            return true;
        }
        i += 1;
    }
    proof {
        if has_qn(ln_views(nodes@), qn@) {
            let k = choose|k: int| 0 <= k < ln_views(nodes@).len() && (#[trigger] ln_views(nodes@)[k]).1 == qn@;
            assert(nodes@[k].qualified_name@ == qn@);
        }
    }
    false
}

/// The edges of `after` whose target is no symbol of `after`.
pub fn compute_dangling(after_nodes: &Vec<LabeledName>, after_edges: &Vec<EdgeTriple>) -> (r: Vec<EdgeTriple>)
    ensures
        tr_views(r@) == dangling_of(ln_views(after_nodes@), tr_views(after_edges@)),
{
    let mut out: Vec<EdgeTriple> = Vec::new();
    let mut i: usize = 0;
    while i < after_edges.len()
        invariant
            i <= after_edges@.len(),
            tr_views(out@) == dangling_of(ln_views(after_nodes@), tr_views(after_edges@.take(i as int))),
        decreases after_edges@.len() - i,
    {
        proof {
            assert(tr_views(after_edges@.take(i + 1)).drop_last() =~= tr_views(after_edges@.take(i as int)));
            assert(tr_views(after_edges@.take(i + 1)).last() == tr_view(after_edges@[i as int]));
        }
        if !has_qualified_name(after_nodes, after_edges[i].to.as_str()) {
            let ghost before = out@;
            out.push(copy_triple(&after_edges[i]));
            proof {
                assert(tr_views(out@) =~= tr_views(before).push(tr_view(after_edges@[i as int])));
            }
        }
        i += 1;
    }
    proof {
        assert(after_edges@.take(after_edges@.len() as int) =~= after_edges@);
    }
    out
}

/// Nothing is missing from a sequence compared with itself.
pub proof fn lemma_minus_self<T>(s: Seq<T>)
    ensures
        minus(s, s) == Seq::<T>::empty(),
{
    lemma_minus_covered(s, s);
}

proof fn lemma_minus_covered<T>(a: Seq<T>, b: Seq<T>)
    requires
        forall|i: int| 0 <= i < a.len() ==> b.contains(#[trigger] a[i]),
    ensures
        minus(a, b) == Seq::<T>::empty(),
    decreases a.len(),
{
    if a.len() > 0 {
        assert forall|i: int| 0 <= i < a.drop_last().len() implies b.contains(#[trigger] a.drop_last()[i]) by {
            assert(a.drop_last()[i] == a[i]);
        }
        lemma_minus_covered(a.drop_last(), b);
        assert(b.contains(a[a.len() - 1]));
    }
}

// ---------------------------------------------------------------------------
// Cycles
// ---------------------------------------------------------------------------

/// The qualified names of the symbols, each once, in order.
pub open spec fn qn_list(nodes: Seq<(Seq<char>, Seq<char>)>) -> Seq<Seq<char>>
    decreases nodes.len(),
{
    if nodes.len() == 0 {
        Seq::empty()
    } else {
        push_new(qn_list(nodes.drop_last()), nodes.last().1)
    }
}

/// `i` is the first position of `q` in `list`.
pub open spec fn is_first_at(list: Seq<Seq<char>>, q: Seq<char>, i: int) -> bool {
    0 <= i < list.len() && list[i] == q && forall|j: int| 0 <= j < i ==> list[j] != q
}

/// The first position of `q` in `list`.
pub open spec fn first_index(list: Seq<Seq<char>>, q: Seq<char>) -> Option<int> {
    if exists|i: int| is_first_at(list, q, i) {
        Some(choose|i: int| is_first_at(list, q, i))
    } else {
        None
    }
}

/// The adjacency lists over `list`: for each edge between two distinct
/// listed names, the target's position appended to the source's list.
pub open spec fn adj_of(list: Seq<Seq<char>>, edges: Seq<(Seq<char>, Seq<char>, Seq<char>)>) -> Seq<Seq<usize>>
    decreases edges.len(),
{
    if edges.len() == 0 {
        Seq::new(list.len(), |i: int| Seq::<usize>::empty())
    } else {
        let p = adj_of(list, edges.drop_last());
        let e = edges.last();
        match (first_index(list, e.0), first_index(list, e.2)) {
            (Some(f), Some(t)) => if f != t {
                p.update(f, p[f].push(t as usize))
            } else {
                p
            },
            _ => p,
        }
    }
}

/// The positions of the names with an edge to themselves, each once.
pub open spec fn loops_of(list: Seq<Seq<char>>, edges: Seq<(Seq<char>, Seq<char>, Seq<char>)>) -> Seq<usize>
    decreases edges.len(),
{
    if edges.len() == 0 {
        Seq::empty()
    } else {
        let p = loops_of(list, edges.drop_last());
        let e = edges.last();
        match (first_index(list, e.0), first_index(list, e.2)) {
            (Some(f), Some(t)) => if f == t {
                push_new(p, f as usize)
            } else {
                p
            },
            _ => p,
        }
    }
}

fn index_of(list: &Vec<String>, q: &str) -> (r: Option<usize>)
    ensures
        match r {
            Some(i) => i < list@.len() && first_index(str_views(list@), q@) == Some(i as int),
            None => first_index(str_views(list@), q@) is None,
        },
{
    let ghost l = str_views(list@);
    let mut i: usize = 0;
    while i < list.len()
        invariant
            i <= list@.len(),
            l == str_views(list@),
            forall|j: int| 0 <= j < i ==> l[j] != q@,
        decreases list@.len() - i,
    {
        if str_eq(list[i].as_str(), q) {
            proof {
                assert(is_first_at(l, q@, i as int));
                let k = choose|k: int| is_first_at(l, q@, k);
                if k < i {
                    assert(l[k] != q@);
                }
                if k > i {
                    assert(l[i as int] != q@);
                }
            }
            return Some(i);
        }
        i += 1;
    }
    proof {
        assert forall|k: int| !is_first_at(l, q@, k) by {
            if 0 <= k < l.len() {
                assert(l[k] != q@);
            }
        }
    }
    None
}

/// The node list, adjacency lists and self-loops of a snapshot's graph.
pub fn build_adjacency(nodes: &Vec<LabeledName>, edges: &Vec<EdgeTriple>) -> (r: (Vec<String>, Vec<Vec<usize>>, Vec<usize>))
    ensures
        str_views(r.0@) == qn_list(ln_views(nodes@)),
        comps(r.1@) == adj_of(qn_list(ln_views(nodes@)), tr_views(edges@)),
        r.2@ == loops_of(qn_list(ln_views(nodes@)), tr_views(edges@)),
        r.1@.len() == r.0@.len(),
        well_formed_adj(r.1@),
{
    let mut node_list: Vec<String> = Vec::new();
    let mut i: usize = 0;
    while i < nodes.len()
        invariant
            i <= nodes@.len(),
            str_views(node_list@) == qn_list(ln_views(nodes@.take(i as int))),
        decreases nodes@.len() - i,
    {
        proof {
            assert(ln_views(nodes@.take(i + 1)).drop_last() =~= ln_views(nodes@.take(i as int)));
            assert(ln_views(nodes@.take(i + 1)).last() == ln_view(nodes@[i as int]));
        }
        let qn = nodes[i].qualified_name.as_str();
        let ghost before = str_views(node_list@);
        if !strings_contain(&node_list, qn) {
            node_list.push(copy_string(&nodes[i].qualified_name));
            proof {
                assert(str_views(node_list@) =~= before.push(qn@));
                assert(!before.contains(qn@)) by {
                    if before.contains(qn@) {
                        let k = choose|k: int| 0 <= k < before.len() && before[k] == qn@;
                        assert(node_list@[k]@ == qn@);
                    }
                }
            }
        } else {
            proof {
                let k = choose|k: int| 0 <= k < node_list@.len() && (#[trigger] node_list@[k])@ == qn@;
                assert(before[k] == qn@);
            }
        }
        i += 1;
    }
    proof {
        assert(nodes@.take(nodes@.len() as int) =~= nodes@);
    }
    let ghost list = str_views(node_list@);
    let n = node_list.len();
    let mut adj: Vec<Vec<usize>> = Vec::new();
    let mut k: usize = 0;
    while k < n
        invariant
            k <= n,
            forall|j: int| 0 <= j < k ==> (#[trigger] adj@[j])@ == Seq::<usize>::empty(),
            adj@.len() == k,
        decreases n - k,
    {
        adj.push(Vec::new());
        k += 1;
    }
    proof {
        assert(comps(adj@) =~= adj_of(list, tr_views(edges@.take(0))));
    }
    let mut self_loops: Vec<usize> = Vec::new();
    let mut e: usize = 0;
    while e < edges.len()
        invariant
            e <= edges@.len(),
            n == node_list@.len(),
            list == str_views(node_list@),
            adj@.len() == n,
            comps(adj@) == adj_of(list, tr_views(edges@.take(e as int))),
            self_loops@ == loops_of(list, tr_views(edges@.take(e as int))),
            forall|v: int, j: int| 0 <= v < adj@.len() && 0 <= j < adj@[v]@.len() ==> (#[trigger] adj@[v]@[j]) < n,
        decreases edges@.len() - e,
    {
        proof {
            assert(tr_views(edges@.take(e + 1)).drop_last() =~= tr_views(edges@.take(e as int)));
            assert(tr_views(edges@.take(e + 1)).last() == tr_view(edges@[e as int]));
        }
        let fi = index_of(&node_list, edges[e].from.as_str());
        let ti = index_of(&node_list, edges[e].to.as_str());
        match (fi, ti) {
            (Some(f), Some(t)) => {
                if f == t {
                    let mut present = false;
                    let mut q: usize = 0;
                    while q < self_loops.len()
                        invariant
                            q <= self_loops@.len(),
                            present == exists|z: int| 0 <= z < q && self_loops@[z] == f,
                        decreases self_loops@.len() - q,
                    {
                        if self_loops[q] == f {
                            present = true;
                        }
                        q += 1;
                    }
                    if !present {
                        self_loops.push(f);
                    }
                    proof {
                        if present {
                            let z = choose|z: int| 0 <= z < self_loops@.len() && self_loops@[z] == f;
                            assert(self_loops@.contains(f));
                        } else {
                            assert(!self_loops@.drop_last().contains(f)) by {
                                if self_loops@.drop_last().contains(f) {
                                    let z = choose|z: int| 0 <= z < self_loops@.drop_last().len() && self_loops@.drop_last()[z] == f;
                                    assert(self_loops@[z] == f);
                                }
                            }
                        }
                    }
                } else {
                    let ghost pre = comps(adj@);
                    adj[f].push(t);
                    proof {
                        assert(comps(adj@) =~= pre.update(f as int, pre[f as int].push(t)));
                    }
                }
            },
            _ => {},
        }
        e += 1;
    }
    proof {
        assert(edges@.take(edges@.len() as int) =~= edges@);
    }
    (node_list, adj, self_loops)
}

/// The names of a component's vertices.
pub open spec fn names_of(list: Seq<Seq<char>>, c: Seq<usize>) -> Seq<Seq<char>> {
    c.map_values(|i: usize| list[i as int])
}

/// A cycle's canonical key: its names sorted and joined by `,`.
pub open spec fn component_key(list: Seq<Seq<char>>, c: Seq<usize>) -> Seq<char> {
    seq_join(names_of(list, c).sort_by(lex_leq()), seq![','])
}

/// The keys of the components with two or more vertices, each once.
pub open spec fn component_keys(list: Seq<Seq<char>>, cs: Seq<Seq<usize>>) -> Seq<Seq<char>>
    decreases cs.len(),
{
    if cs.len() == 0 {
        Seq::empty()
    } else {
        let p = component_keys(list, cs.drop_last());
        if cs.last().len() < 2 {
            p
        } else {
            push_new(p, component_key(list, cs.last()))
        }
    }
}

/// `acc` extended by the name of each self-loop vertex not yet in it.
pub open spec fn loop_keys(list: Seq<Seq<char>>, loops: Seq<usize>, acc: Seq<Seq<char>>) -> Seq<Seq<char>>
    decreases loops.len(),
{
    if loops.len() == 0 {
        acc
    } else {
        push_new(loop_keys(list, loops.drop_last(), acc), list[loops.last() as int])
    }
}

/// The cycles of a graph given its components and self-loops: one key per
/// component of two or more vertices, one per vertex with an edge to
/// itself, each once.
pub open spec fn cycle_keys(list: Seq<Seq<char>>, cs: Seq<Seq<usize>>, loops: Seq<usize>) -> Seq<Seq<char>> {
    loop_keys(list, loops, component_keys(list, cs))
}

proof fn lemma_flat_contains(cs: Seq<Seq<usize>>, j: int, k: int)
    requires
        0 <= j < cs.len(),
        0 <= k < cs[j].len(),
    ensures
        flat(cs).contains(cs[j][k]),
    decreases cs.len(),
{
    let f = flat(cs);
    if j == cs.len() - 1 {
        assert(f[flat(cs.drop_last()).len() + k] == cs[j][k]);
    } else {
        lemma_flat_contains(cs.drop_last(), j, k);
        let p = flat(cs.drop_last());
        let z = choose|z: int| 0 <= z < p.len() && p[z] == cs[j][k];
        assert(f[z] == p[z]);
    }
}

fn push_new_string(out: &mut Vec<String>, s: String)
    ensures
        str_views(final(out)@) == push_new(str_views(old(out)@), s@),
{
    let ghost before = str_views(out@);
    if !strings_contain(out, s.as_str()) {
        out.push(s);
        proof {
            assert(str_views(out@) =~= before.push(s@));
            assert(!before.contains(s@)) by {
                if before.contains(s@) {
                    let k = choose|k: int| 0 <= k < before.len() && before[k] == s@;
                    assert(old(out)@[k]@ == s@);
                }
            }
        }
    } else {
        proof {
            let k = choose|k: int| 0 <= k < out@.len() && (#[trigger] out@[k])@ == s@;
            assert(before[k] == s@);
        }
    }
}

/// The keys of the cycles of a component list (see `cycle_keys`).
pub fn cycle_key_list(node_list: &Vec<String>, sccs: &Vec<Vec<usize>>, self_loops: &Vec<usize>) -> (r: Vec<String>)
    requires
        forall|j: int, k: int| 0 <= j < sccs@.len() && 0 <= k < sccs@[j]@.len() ==> (#[trigger] sccs@[j]@[k]) < node_list@.len(),
        forall|k: int| 0 <= k < self_loops@.len() ==> (#[trigger] self_loops@[k]) < node_list@.len(),
    ensures
        str_views(r@) == cycle_keys(str_views(node_list@), comps(sccs@), self_loops@),
{
    let ghost list = str_views(node_list@);
    let mut out: Vec<String> = Vec::new();
    let mut j: usize = 0;
    while j < sccs.len()
        invariant
            j <= sccs@.len(),
            list == str_views(node_list@),
            forall|a: int, k: int| 0 <= a < sccs@.len() && 0 <= k < sccs@[a]@.len() ==> (#[trigger] sccs@[a]@[k]) < node_list@.len(),
            str_views(out@) == component_keys(list, comps(sccs@).take(j as int)),
        decreases sccs@.len() - j,
    {
        proof {
            assert(comps(sccs@).take(j + 1).drop_last() =~= comps(sccs@).take(j as int));
            assert(comps(sccs@).take(j + 1).last() == sccs@[j as int]@);
        }
        let comp = &sccs[j];
        if comp.len() >= 2 {
            let mut names: Vec<String> = Vec::new();
            let mut k: usize = 0;
            while k < comp.len()
                invariant
                    k <= comp@.len(),
                    comp@ == sccs@[j as int]@,
                    list == str_views(node_list@),
                    forall|z: int| 0 <= z < comp@.len() ==> (#[trigger] comp@[z]) < node_list@.len(),
                    str_views(names@) == names_of(list, comp@.take(k as int)),
                decreases comp@.len() - k,
            {
                let idx = comp[k];
                let ghost pre = str_views(names@);
                names.push(copy_string(&node_list[idx]));
                proof {
                    assert(comp@.take(k + 1) =~= comp@.take(k as int).push(idx));
                    assert(names_of(list, comp@.take(k + 1)) =~= pre.push(list[idx as int]));
                    assert(str_views(names@) =~= pre.push(list[idx as int]));
                }
                k += 1;
            }
            proof {
                assert(comp@.take(comp@.len() as int) =~= comp@);
            }
            let sorted = sort_strings(names);
            let key = string_from_chars(&join_strings(&sorted, ','));
            proof {
                assert(views(sorted@) == str_views(sorted@));
                assert(views(names@) == str_views(names@));
            }
            push_new_string(&mut out, key);
        }
        j += 1;
    }
    proof {
        assert(comps(sccs@).take(sccs@.len() as int) =~= comps(sccs@));
    }
    let ghost acc = str_views(out@);
    let mut q: usize = 0;
    while q < self_loops.len()
        invariant
            q <= self_loops@.len(),
            list == str_views(node_list@),
            forall|k: int| 0 <= k < self_loops@.len() ==> (#[trigger] self_loops@[k]) < node_list@.len(),
            str_views(out@) == loop_keys(list, self_loops@.take(q as int), acc),
        decreases self_loops@.len() - q,
    {
        proof {
            assert(self_loops@.take(q + 1).drop_last() =~= self_loops@.take(q as int));
        }
        let name = copy_string(&node_list[self_loops[q]]);
        push_new_string(&mut out, name);
        q += 1;
    }
    proof {
        assert(self_loops@.take(self_loops@.len() as int) =~= self_loops@);
    }
    out
}

/// The cycles of a snapshot's graph: a key for each strongly connected
/// component of two or more symbols (their names sorted and joined by `,`)
/// and the name of each symbol with an edge to itself.
pub fn strongly_connected_cycles(nodes: &Vec<LabeledName>, edges: &Vec<EdgeTriple>) -> (r: Vec<String>)
    requires
        nodes@.len() <= i64::MAX,
    ensures
        is_cycle_set_of(str_views(r@), nodes@, edges@),
{
    let (node_list, adj, self_loops) = build_adjacency(nodes, edges);
    proof {
        lemma_qn_list_len(ln_views(nodes@));
    }
    let sccs = tarjan_scc(&adj);
    let ghost n = node_list@.len() as int;
    proof {
        assert forall|j: int, k: int| 0 <= j < sccs@.len() && 0 <= k < sccs@[j]@.len() implies (#[trigger] sccs@[j]@[k]) < node_list@.len() by {
            let cs = comps(sccs@);
            assert(cs[j] == sccs@[j]@);
            lemma_flat_contains(cs, j, k);
            lemma_occ_contains(flat(cs), cs[j][k]);
            assert(occ(flat(cs), cs[j][k] as int) == if 0 <= cs[j][k] < n { 1nat } else { 0nat });
        }
        assert forall|k: int| 0 <= k < self_loops@.len() implies (#[trigger] self_loops@[k]) < node_list@.len() by {
            lemma_loops_in_range(str_views(node_list@), tr_views(edges@), k);
        }
    }
    let r = cycle_key_list(&node_list, &sccs, &self_loops);
    proof {
        assert(is_vertex_partition(comps(sccs@), n));
        assert(comps_strongly_connected(adj@, comps(sccs@)) && comps_maximal(adj@, comps(sccs@)));
        assert(is_cycle_set_of(str_views(r@), nodes@, edges@));
    }
    r
}

proof fn lemma_qn_list_len(nodes: Seq<(Seq<char>, Seq<char>)>)
    ensures
        qn_list(nodes).len() <= nodes.len(),
    decreases nodes.len(),
{
    if nodes.len() > 0 {
        lemma_qn_list_len(nodes.drop_last());
    }
}

proof fn lemma_loops_in_range(list: Seq<Seq<char>>, edges: Seq<(Seq<char>, Seq<char>, Seq<char>)>, k: int)
    requires
        0 <= k < loops_of(list, edges).len(),
    ensures
        loops_of(list, edges)[k] < list.len(),
    decreases edges.len(),
{
    let p = loops_of(list, edges.drop_last());
    if k < p.len() {
        lemma_loops_in_range(list, edges.drop_last(), k);
    } else {
        let e = edges.last();
        let f = choose|i: int| is_first_at(list, e.0, i);
        assert(is_first_at(list, e.0, f));
    }
}

/// The cycles present after and not before.
pub fn diff_cycle_sets(before: &Vec<String>, after: &Vec<String>) -> (r: Vec<String>)
    ensures
        str_views(r@) == minus(str_views(after@), str_views(before@)),
{
    let mut out: Vec<String> = Vec::new();
    let mut i: usize = 0;
    while i < after.len()
        invariant
            i <= after@.len(),
            str_views(out@) == minus(str_views(after@.take(i as int)), str_views(before@)),
        decreases after@.len() - i,
    {
        proof {
            assert(str_views(after@.take(i + 1)).drop_last() =~= str_views(after@.take(i as int)));
            assert(str_views(after@.take(i + 1)).last() == after@[i as int]@);
        }
        let ghost pre = str_views(out@);
        if !strings_contain(before, after[i].as_str()) {
            out.push(copy_string(&after[i]));
            proof {
                assert(str_views(out@) =~= pre.push(after@[i as int]@));
                assert(!str_views(before@).contains(after@[i as int]@)) by {
                    if str_views(before@).contains(after@[i as int]@) {
                        let k = choose|k: int| 0 <= k < str_views(before@).len() && str_views(before@)[k] == after@[i as int]@;
                        assert(before@[k]@ == after@[i as int]@);
                    }
                }
            }
        } else {
            proof {
                let k = choose|k: int| 0 <= k < before@.len() && (#[trigger] before@[k])@ == after@[i as int]@;
                assert(str_views(before@)[k] == after@[i as int]@);
            }
        }
        i += 1;
    }
    proof {
        assert(after@.take(after@.len() as int) =~= after@);
    }
    out
}

// ---------------------------------------------------------------------------
// Score and verdict
// ---------------------------------------------------------------------------

/// The heuristic regression score, in tenths: 10 per dangling reference,
/// 5 per new cycle, 1 per newly unresolved import (at most 50), capped at
/// 100.
pub open spec fn spec_regression_score_tenths(s: DiffSummary) -> int {
    let unresolved: int = if s.new_unresolved_delta <= 0 {
        0
    } else if s.new_unresolved_delta > 50 {
        50
    } else {
        s.new_unresolved_delta as int
    };
    let total = 10 * s.dangling_references + 5 * s.new_cycles + unresolved;
    if total > 100 {
        100
    } else {
        total
    }
}

pub fn regression_score_tenths(s: &DiffSummary) -> (r: u64)
    ensures
        r == spec_regression_score_tenths(*s),
        r <= REGRESSION_SCORE_CAP_TENTHS,
{
    let dangling: u64 = if s.dangling_references >= 10 {
        100
    } else {
        WEIGHT_DANGLING_TENTHS * s.dangling_references
    };
    let cycles: u64 = if s.new_cycles >= 20 {
        100
    } else {
        WEIGHT_NEW_CYCLE_TENTHS * s.new_cycles
    };
    let unresolved: u64 = if s.new_unresolved_delta <= 0 {
        0
    } else if s.new_unresolved_delta > 50 {
        UNRESOLVED_PART_CAP_TENTHS
    } else {
        WEIGHT_UNRESOLVED_DELTA_TENTHS * (s.new_unresolved_delta as u64)
    };
    let total = dangling + cycles + unresolved;
    if total > REGRESSION_SCORE_CAP_TENTHS {
        REGRESSION_SCORE_CAP_TENTHS
    } else {
        total
    }
}

/// The verdict on a score in tenths.
pub open spec fn spec_verdict(score_tenths: int) -> Seq<char> {
    if score_tenths < 10 {
        "clean"@
    } else if score_tenths < 50 {
        "concerning"@
    } else {
        "regression"@
    }
}

pub fn classify_verdict(score_tenths: u64) -> (r: &'static str)
    ensures
        r@ == spec_verdict(score_tenths as int),
{
    if score_tenths < VERDICT_CLEAN_MAX_TENTHS {
        "clean"
    } else if score_tenths < VERDICT_CONCERNING_MAX_TENTHS {
        "concerning"
    } else {
        "regression"
    }
}

/// How many entries of a details list of `len` entries a report keeps.
pub fn details_len(len: usize) -> (r: usize)
    ensures
        r == if len < DETAILS_TRUNCATION { len } else { DETAILS_TRUNCATION },
{
    if len < DETAILS_TRUNCATION {
        len
    } else {
        DETAILS_TRUNCATION
    }
}

// ---------------------------------------------------------------------------
// The diff
// ---------------------------------------------------------------------------

/// Everything a diff finds.
pub struct DiffOutcome {
    pub summary: DiffSummary,
    pub regression_score_tenths: u64,
    pub verdict: &'static str,
    pub nodes_added: Vec<LabeledName>,
    pub nodes_removed: Vec<LabeledName>,
    pub edges_added: Vec<EdgeTriple>,
    pub edges_removed: Vec<EdgeTriple>,
    pub dangling: Vec<EdgeTriple>,
    pub new_cycles: Vec<String>,
}

/// The cycle keys of a snapshot: those of its strongly connected
/// components, in the graph whose successor lists are `adj_of` its symbols
/// and edges (every symbol in exactly one component, and two symbols in one
/// exactly when each reaches the other).
pub open spec fn is_cycle_set_of(keys: Seq<Seq<char>>, nodes: Seq<LabeledName>, edges: Seq<EdgeTriple>) -> bool {
    is_cycle_set_over(keys, ln_views(nodes), tr_views(edges))
}

/// `is_cycle_set_of`, over the symbols and edges as plain values.
pub open spec fn is_cycle_set_over(keys: Seq<Seq<char>>, nodes: Seq<(Seq<char>, Seq<char>)>,
    edges: Seq<(Seq<char>, Seq<char>, Seq<char>)>) -> bool
{
    let list = qn_list(nodes);
    exists|g: Seq<Vec<usize>>, cs: Seq<Seq<usize>>|
        comps(g) == adj_of(list, edges)
        && is_vertex_partition(cs, list.len() as int)
        && comps_strongly_connected(g, cs)
        && comps_maximal(g, cs)
        && keys == cycle_keys(list, cs, loops_of(list, edges))
}

/// Compares two snapshots.
pub fn diff_snapshots(before: &Snapshot, after: &Snapshot) -> (r: DiffOutcome)
    requires
        before.nodes@.len() <= i64::MAX,
        after.nodes@.len() <= i64::MAX,
        before.unresolved <= i64::MAX,
        after.unresolved <= i64::MAX,
    ensures
        ln_views(r.nodes_added@) == minus(ln_views(after.nodes@), ln_views(before.nodes@)),
        ln_views(r.nodes_removed@) == minus(ln_views(before.nodes@), ln_views(after.nodes@)),
        tr_views(r.edges_added@) == minus(tr_views(after.edges@), tr_views(before.edges@)),
        tr_views(r.edges_removed@) == minus(tr_views(before.edges@), tr_views(after.edges@)),
        tr_views(r.dangling@) == dangling_of(ln_views(after.nodes@), tr_views(after.edges@)),
        exists|cb: Seq<Seq<char>>, ca: Seq<Seq<char>>|
            is_cycle_set_of(cb, before.nodes@, before.edges@) && is_cycle_set_of(ca, after.nodes@, after.edges@)
            && str_views(r.new_cycles@) == minus(ca, cb),
        r.summary.nodes_added == r.nodes_added@.len(),
        r.summary.nodes_removed == r.nodes_removed@.len(),
        r.summary.edges_added == r.edges_added@.len(),
        r.summary.edges_removed == r.edges_removed@.len(),
        r.summary.dangling_references == r.dangling@.len(),
        r.summary.nodes_added == minus(ln_views(after.nodes@), ln_views(before.nodes@)).len(),
        r.summary.nodes_removed == minus(ln_views(before.nodes@), ln_views(after.nodes@)).len(),
        r.summary.edges_added == minus(tr_views(after.edges@), tr_views(before.edges@)).len(),
        r.summary.edges_removed == minus(tr_views(before.edges@), tr_views(after.edges@)).len(),
        r.summary.new_unresolved_delta == after.unresolved - before.unresolved,
        r.summary.new_cycles == r.new_cycles@.len(),
        r.regression_score_tenths == spec_regression_score_tenths(r.summary),
        r.verdict@ == spec_verdict(r.regression_score_tenths as int),
{
    let node_diff = diff_nodes(&before.nodes, &after.nodes);
    let edge_diff = diff_edges(&before.edges, &after.edges);
    let dangling = compute_dangling(&after.nodes, &after.edges);
    let unresolved_delta: i64 = (after.unresolved as i64) - (before.unresolved as i64);
    let cycles_before = strongly_connected_cycles(&before.nodes, &before.edges);
    let cycles_after = strongly_connected_cycles(&after.nodes, &after.edges);
    let new_cycles = diff_cycle_sets(&cycles_before, &cycles_after);
    proof {
        assert(is_cycle_set_of(str_views(cycles_before@), before.nodes@, before.edges@));
        assert(is_cycle_set_of(str_views(cycles_after@), after.nodes@, after.edges@));
    }
    let summary = DiffSummary {
        nodes_added: node_diff.added.len() as u64,
        nodes_removed: node_diff.removed.len() as u64,
        edges_added: edge_diff.added.len() as u64,
        edges_removed: edge_diff.removed.len() as u64,
        dangling_references: dangling.len() as u64,
        new_unresolved_delta: unresolved_delta,
        new_cycles: new_cycles.len() as u64,
    };
    let score = regression_score_tenths(&summary);
    let verdict = classify_verdict(score);
    DiffOutcome {
        summary,
        regression_score_tenths: score,
        verdict,
        nodes_added: node_diff.added,
        nodes_removed: node_diff.removed,
        edges_added: edge_diff.added,
        edges_removed: edge_diff.removed,
        dangling,
        new_cycles,
    }
}

proof fn lemma_node_set_len(nodes: Seq<GraphNode>)
    ensures
        node_set_of(nodes).len() <= nodes.len(),
        import_count(nodes) <= nodes.len(),
    decreases nodes.len(),
{
    if nodes.len() > 0 {
        lemma_node_set_len(nodes.drop_last());
    }
}

/// Compares the graph taken after a change with the one taken before it.
pub fn diff_graphs(before: &CodeGraph, after: &CodeGraph) -> (r: DiffOutcome)
    requires
        before.nodes@.len() <= i64::MAX,
        after.nodes@.len() <= i64::MAX,
    ensures
        ln_views(r.nodes_added@) == minus(node_set_of(after.nodes@), node_set_of(before.nodes@)),
        ln_views(r.nodes_removed@) == minus(node_set_of(before.nodes@), node_set_of(after.nodes@)),
        tr_views(r.edges_added@) == minus(edge_set_of(after.nodes@, after.edges@), edge_set_of(before.nodes@, before.edges@)),
        tr_views(r.edges_removed@) == minus(edge_set_of(before.nodes@, before.edges@), edge_set_of(after.nodes@, after.edges@)),
        tr_views(r.dangling@) == dangling_of(node_set_of(after.nodes@), edge_set_of(after.nodes@, after.edges@)),
        r.summary.nodes_added == r.nodes_added@.len(),
        r.summary.nodes_removed == r.nodes_removed@.len(),
        r.summary.edges_added == r.edges_added@.len(),
        r.summary.edges_removed == r.edges_removed@.len(),
        r.summary.dangling_references == r.dangling@.len(),
        r.summary.nodes_added == minus(node_set_of(after.nodes@), node_set_of(before.nodes@)).len(),
        r.summary.nodes_removed == minus(node_set_of(before.nodes@), node_set_of(after.nodes@)).len(),
        r.summary.edges_added == minus(edge_set_of(after.nodes@, after.edges@), edge_set_of(before.nodes@, before.edges@)).len(),
        r.summary.edges_removed == minus(edge_set_of(before.nodes@, before.edges@), edge_set_of(after.nodes@, after.edges@)).len(),
        r.summary.new_unresolved_delta == import_count(after.nodes@) - import_count(before.nodes@),
        exists|cb: Seq<Seq<char>>, ca: Seq<Seq<char>>|
            is_cycle_set_over(cb, node_set_of(before.nodes@), edge_set_of(before.nodes@, before.edges@))
            && is_cycle_set_over(ca, node_set_of(after.nodes@), edge_set_of(after.nodes@, after.edges@))
            && str_views(r.new_cycles@) == minus(ca, cb),
        r.summary.new_cycles == r.new_cycles@.len(),
        r.regression_score_tenths == spec_regression_score_tenths(r.summary),
        r.verdict@ == spec_verdict(r.regression_score_tenths as int),
{
    let b = Snapshot::collect(before);
    let a = Snapshot::collect(after);
    proof {
        lemma_node_set_len(before.nodes@);
        lemma_node_set_len(after.nodes@);
        assert(b.nodes@.len() == ln_views(b.nodes@).len());
        assert(a.nodes@.len() == ln_views(a.nodes@).len());
    }
    diff_snapshots(&b, &a)
}

// ---------------------------------------------------------------------------
// Laws
// ---------------------------------------------------------------------------

/// What a diff lists as added (or removed) is exactly what one side holds
/// and the other lacks.
pub proof fn lemma_minus_members<T>(a: Seq<T>, b: Seq<T>, x: T)
    ensures
        minus(a, b).contains(x) <==> a.contains(x) && !b.contains(x),
    decreases a.len(),
{
    broadcast use vstd::seq_lib::group_seq_properties;

    if a.len() > 0 {
        lemma_minus_members(a.drop_last(), b, x);
        assert(a =~= a.drop_last().push(a.last()));
    }
}

/// The symbols a graph is compared by: a pair (label, name) is one exactly
/// when some node carries that label and that qualified name, the name is
/// not empty, and the label is one of Function, Method, Struct, Enum,
/// Trait, Module, Constant and TypeAlias.
pub proof fn lemma_node_set_members(nodes: Seq<GraphNode>, label: Seq<char>, qn: Seq<char>)
    ensures
        node_set_of(nodes).contains((label, qn)) <==> {
            &&& qn.len() > 0
            &&& (label == "Function"@ || label == "Method"@ || label == "Struct"@ || label == "Enum"@
                || label == "Trait"@ || label == "Module"@ || label == "Constant"@ || label == "TypeAlias"@)
            &&& exists|i: int| 0 <= i < nodes.len() && (#[trigger] nodes[i]).label@ == label
                && nodes[i].qualified_name@ == qn
        },
    decreases nodes.len(),
{
    broadcast use vstd::seq_lib::group_seq_properties;

    if nodes.len() > 0 {
        let d = nodes.drop_last();
        let n = nodes.last();
        lemma_node_set_members(d, label, qn);
        if exists|i: int| 0 <= i < d.len() && (#[trigger] d[i]).label@ == label && d[i].qualified_name@ == qn {
            let i = choose|i: int| 0 <= i < d.len() && (#[trigger] d[i]).label@ == label && d[i].qualified_name@ == qn;
            assert(nodes[i] == d[i]);
        }
        if exists|i: int| 0 <= i < nodes.len() && (#[trigger] nodes[i]).label@ == label && nodes[i].qualified_name@ == qn {
            let i = choose|i: int| 0 <= i < nodes.len() && (#[trigger] nodes[i]).label@ == label
                && nodes[i].qualified_name@ == qn;
            if i < nodes.len() - 1 {
                assert(d[i] == nodes[i]);
            }
        }
    }
}

/// A symbol is listed as added by a diff exactly when the graph after the
/// change has it and the graph before does not: a node with a non-empty
/// qualified name and one of the labels Function, Method, Struct, Enum,
/// Trait, Module, Constant and TypeAlias (and the same for removed, with
/// the graphs swapped).
pub proof fn lemma_added_symbols(before: Seq<GraphNode>, after: Seq<GraphNode>, label: Seq<char>, qn: Seq<char>)
    ensures
        minus(node_set_of(after), node_set_of(before)).contains((label, qn)) <==> {
            &&& qn.len() > 0
            &&& (label == "Function"@ || label == "Method"@ || label == "Struct"@ || label == "Enum"@
                || label == "Trait"@ || label == "Module"@ || label == "Constant"@ || label == "TypeAlias"@)
            &&& exists|i: int| 0 <= i < after.len() && (#[trigger] after[i]).label@ == label
                && after[i].qualified_name@ == qn
            &&& !exists|j: int| 0 <= j < before.len() && (#[trigger] before[j]).label@ == label
                && before[j].qualified_name@ == qn
        },
{
    lemma_minus_members(node_set_of(after), node_set_of(before), (label, qn));
    lemma_node_set_members(after, label, qn);
    lemma_node_set_members(before, label, qn);
}

/// An edge is compared by the table's kind: the table's name up to its
/// first `_`, or the whole name when it holds none.
pub proof fn lemma_rel_kind_law(rel: Seq<char>)
    ensures
        ({
            let r = spec_rel_kind(rel);
            &&& r.len() <= rel.len()
            &&& rel.take(r.len() as int) == r
            &&& !r.contains('_')
            &&& (r.len() < rel.len() ==> rel[r.len() as int] == '_')
            &&& (!rel.contains('_') ==> r == rel)
        }),
{
    let us = seq!['_'];
    let r = spec_rel_kind(rel);
    assert forall|j: int| 0 <= j < rel.len() implies (occurs_at(rel, us, j) <==> rel[j] == '_') by {
        if rel[j] == '_' {
            assert(rel.subrange(j, j + 1) =~= us);
        }
        if occurs_at(rel, us, j) {
            assert(rel.subrange(j, j + 1)[0] == rel[j]);
        }
    }
    if exists|i: int| is_first_occurrence(rel, us, i) {
        let i = choose|i: int| is_first_occurrence(rel, us, i);
        assert(r == rel.take(i));
        assert(rel.subrange(i, i + 1)[0] == rel[i]);
        if r.contains('_') {
            let j = choose|j: int| 0 <= j < r.len() && r[j] == '_';
            assert(rel[j] == '_');
        }
        assert(rel.contains('_')) by {
            assert(rel[i] == '_');
        }
    } else {
        assert(r == rel);
        assert(rel.take(rel.len() as int) =~= rel);
        if rel.contains('_') {
            let j = choose|j: int| 0 <= j < rel.len() && rel[j] == '_';
            assert(occurs_at(rel, us, j));
            crate::text::lemma_first_occurrence_exists(rel, us, j);
        }
    }
}

/// An edge key is among the keys of a graph exactly when some edge of it
/// has that key.
pub proof fn lemma_edge_set_members(nodes: Seq<GraphNode>, edges: Seq<GraphEdge>, k: (Seq<char>, Seq<char>, Seq<char>))
    ensures
        edge_set_of(nodes, edges).contains(k) <==> exists|i: int| 0 <= i < edges.len()
            && edge_key(nodes, #[trigger] edges[i]) == Some(k),
    decreases edges.len(),
{
    broadcast use vstd::seq_lib::group_seq_properties;

    if edges.len() > 0 {
        let d = edges.drop_last();
        lemma_edge_set_members(nodes, d, k);
        if exists|i: int| 0 <= i < d.len() && edge_key(nodes, #[trigger] d[i]) == Some(k) {
            let i = choose|i: int| 0 <= i < d.len() && edge_key(nodes, #[trigger] d[i]) == Some(k);
            assert(edges[i] == d[i]);
        }
        if exists|i: int| 0 <= i < edges.len() && edge_key(nodes, #[trigger] edges[i]) == Some(k) {
            let i = choose|i: int| 0 <= i < edges.len() && edge_key(nodes, #[trigger] edges[i]) == Some(k);
            if i < edges.len() - 1 {
                assert(d[i] == edges[i]);
            }
        }
    }
}

/// Comparing a graph with itself finds nothing added, removed or new.
pub proof fn lemma_diff_self_is_empty(nodes: Seq<LabeledName>, edges: Seq<EdgeTriple>, cycles: Seq<Seq<char>>)
    ensures
        minus(ln_views(nodes), ln_views(nodes)) == Seq::<(Seq<char>, Seq<char>)>::empty(),
        minus(tr_views(edges), tr_views(edges)) == Seq::<(Seq<char>, Seq<char>, Seq<char>)>::empty(),
        minus(cycles, cycles) == Seq::<Seq<char>>::empty(),
{
    lemma_minus_self(ln_views(nodes));
    lemma_minus_self(tr_views(edges));
    lemma_minus_self(cycles);
}

/// A dangling reference is exactly an edge whose target is no symbol.
pub proof fn lemma_dangling_members(
    nodes: Seq<(Seq<char>, Seq<char>)>,
    edges: Seq<(Seq<char>, Seq<char>, Seq<char>)>,
    e: (Seq<char>, Seq<char>, Seq<char>),
)
    ensures
        dangling_of(nodes, edges).contains(e) <==> edges.contains(e) && !has_qn(nodes, e.2),
    decreases edges.len(),
{
    broadcast use vstd::seq_lib::group_seq_properties;

    if edges.len() > 0 {
        lemma_dangling_members(nodes, edges.drop_last(), e);
        assert(edges =~= edges.drop_last().push(edges.last()));
    }
}

/// A diff that finds nothing scores zero and is clean; every score lies
/// between zero and the cap.
pub proof fn lemma_score_bounds(s: DiffSummary)
    ensures
        0 <= spec_regression_score_tenths(s) <= 100,
        (s.dangling_references == 0 && s.new_cycles == 0 && s.new_unresolved_delta <= 0) ==>
            spec_regression_score_tenths(s) == 0 && spec_verdict(spec_regression_score_tenths(s)) == "clean"@,
{
}

} // verus!
