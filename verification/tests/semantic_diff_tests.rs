use automatised_pipeline::graph::{CodeGraph, GraphEdge, GraphNode};
use automatised_pipeline::scc::tarjan_scc;
use automatised_pipeline::semantic_diff::{
    classify_verdict, compute_dangling, diff_cycle_sets, diff_graphs, regression_score_tenths,
    strongly_connected_cycles, DiffSummary, EdgeTriple, LabeledName, REGRESSION_SCORE_CAP_TENTHS,
};

fn regression_score(s: &DiffSummary) -> f64 {
    regression_score_tenths(s) as f64 / 10.0
}

fn verdict(score: f64) -> &'static str {
    classify_verdict((score * 10.0).floor() as u64)
}

#[test]
fn test_regression_score_clean() {
    let s = DiffSummary::default();
    assert_eq!(regression_score(&s), 0.0);
    assert_eq!(verdict(0.0), "clean");
}

#[test]
fn test_regression_score_dangling_dominates() {
    let s = DiffSummary { dangling_references: 3, ..Default::default() };
    let score = regression_score(&s);
    assert!((score - 3.0).abs() < 1e-9, "got {score}");
    assert_eq!(verdict(score), "concerning");
}

#[test]
fn test_regression_score_cap() {
    let s = DiffSummary { dangling_references: 100, new_cycles: 100, ..Default::default() };
    let score = regression_score(&s);
    let cap = REGRESSION_SCORE_CAP_TENTHS as f64 / 10.0;
    assert!((score - cap).abs() < 1e-9, "cap not enforced: got {score}");
    assert_eq!(verdict(score), "regression");
}

#[test]
fn test_verdict_thresholds() {
    assert_eq!(verdict(0.0), "clean");
    assert_eq!(verdict(0.999), "clean");
    assert_eq!(verdict(1.0), "concerning");
    assert_eq!(verdict(4.999), "concerning");
    assert_eq!(verdict(5.0), "regression");
    assert_eq!(verdict(10.0), "regression");
}

#[test]
fn regression_score_weights() {
    let s = DiffSummary { new_cycles: 1, new_unresolved_delta: 3, ..Default::default() };
    assert_eq!(regression_score_tenths(&s), 8);
    let s = DiffSummary { new_unresolved_delta: 500, ..Default::default() };
    assert_eq!(regression_score_tenths(&s), 50);
    let s = DiffSummary { new_unresolved_delta: -7, ..Default::default() };
    assert_eq!(regression_score_tenths(&s), 0);
}

#[test]
fn test_tarjan_detects_self_loop() {
    let adj = vec![vec![0]];
    let sccs = tarjan_scc(&adj);
    assert_eq!(sccs.len(), 1);
    assert_eq!(sccs[0], vec![0]);
}

#[test]
fn test_tarjan_detects_two_node_cycle() {
    let adj = vec![vec![1], vec![0]];
    let sccs = tarjan_scc(&adj);
    let big: Vec<_> = sccs.iter().filter(|s| s.len() == 2).collect();
    assert_eq!(big.len(), 1);
}

#[test]
fn tarjan_partitions_a_chain_into_singletons() {
    let adj = vec![vec![1], vec![2], vec![]];
    let sccs = tarjan_scc(&adj);
    assert_eq!(sccs.len(), 3);
    let mut all: Vec<usize> = sccs.concat();
    all.sort();
    assert_eq!(all, vec![0, 1, 2]);
}

#[test]
fn tarjan_groups_exactly_the_mutually_reachable_vertices() {
    // 0 -> 1 -> 2 -> 0 is a cycle, 2 -> 3, 3 <-> 4, and 5 stands alone.
    let adj = vec![vec![1], vec![2], vec![0, 3], vec![4], vec![3], vec![]];
    let sccs = tarjan_scc(&adj);
    let mut sorted: Vec<Vec<usize>> = sccs
        .iter()
        .map(|c| {
            let mut c = c.clone();
            c.sort();
            c
        })
        .collect();
    sorted.sort();
    assert_eq!(sorted, vec![vec![0, 1, 2], vec![3, 4], vec![5]]);
}

#[test]
fn tarjan_emits_components_in_reverse_topological_order() {
    let adj = vec![vec![1], vec![2], vec![0, 3], vec![4], vec![3], vec![0]];
    let sccs = tarjan_scc(&adj);
    let pos = |v: usize| sccs.iter().position(|c| c.contains(&v)).unwrap();
    for (u, succ) in adj.iter().enumerate() {
        for &w in succ {
            assert!(pos(w) <= pos(u), "edge {u} -> {w}");
        }
    }
    assert!(pos(3) < pos(0));
    assert!(pos(0) < pos(5));
}

fn name(label: &str, qn: &str) -> LabeledName {
    LabeledName { label: label.into(), qualified_name: qn.into() }
}

fn triple(from: &str, kind: &str, to: &str) -> EdgeTriple {
    EdgeTriple { from: from.into(), kind: kind.into(), to: to.into() }
}

#[test]
fn test_strongly_connected_cycles_finds_pair() {
    let nodes = vec![name("Function", "a"), name("Function", "b")];
    let edges = vec![triple("a", "Calls", "b"), triple("b", "Calls", "a")];
    let cycles = strongly_connected_cycles(&nodes, &edges);
    assert_eq!(cycles.len(), 1);
    assert!(cycles.iter().any(|c| c.contains("a,b") || c.contains("b,a")));
}

#[test]
fn test_diff_cycle_sets_detects_new() {
    let before = vec!["a,b".to_string()];
    let after = vec!["a,b".to_string(), "c,d".to_string()];
    let new = diff_cycle_sets(&before, &after);
    assert_eq!(new, vec!["c,d".to_string()]);
}

#[test]
fn test_compute_dangling_flags_missing_target() {
    let nodes = vec![name("Function", "a")];
    let edges = vec![triple("a", "Calls", "ghost")];
    let dangling = compute_dangling(&nodes, &edges);
    assert_eq!(dangling.len(), 1);
}

fn gnode(id: &str) -> GraphNode {
    GraphNode {
        label: "Function".into(),
        id: id.into(),
        name: id.into(),
        qualified_name: id.into(),
        start_line: None,
        end_line: None,
        visibility: String::new(),
        props: Vec::new(),
    }
}

#[test]
fn diff_of_a_graph_with_itself_is_clean() {
    let g = CodeGraph {
        nodes: vec![gnode("a"), gnode("b")],
        edges: vec![GraphEdge { rel: "Calls_Function_Function".into(), from_id: "a".into(), to_id: "b".into() }],
    };
    let d = diff_graphs(&g, &g);
    assert_eq!(d.summary.nodes_added, 0);
    assert_eq!(d.summary.edges_removed, 0);
    assert_eq!(d.summary.dangling_references, 0);
    assert_eq!(d.regression_score_tenths, 0);
    assert_eq!(d.verdict, "clean");
}

#[test]
fn diff_reports_a_new_cycle_and_added_edge() {
    let before = CodeGraph {
        nodes: vec![gnode("a"), gnode("b")],
        edges: vec![GraphEdge { rel: "Calls_Function_Function".into(), from_id: "a".into(), to_id: "b".into() }],
    };
    let mut after = CodeGraph { nodes: vec![gnode("a"), gnode("b")], edges: before.edges.iter().map(|e| GraphEdge { rel: e.rel.clone(), from_id: e.from_id.clone(), to_id: e.to_id.clone() }).collect() };
    after.edges.push(GraphEdge { rel: "Calls_Function_Function".into(), from_id: "b".into(), to_id: "a".into() });
    let d = diff_graphs(&before, &after);
    assert_eq!(d.summary.edges_added, 1);
    assert_eq!(d.summary.new_cycles, 1);
    assert_eq!(d.regression_score_tenths, 5);
    assert_eq!(d.verdict, "clean");
}
