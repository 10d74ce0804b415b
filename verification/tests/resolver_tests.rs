use automatised_pipeline::graph::{CodeGraph, GraphEdge, GraphNode};
use automatised_pipeline::resolver::{
    extract_caller_from_callsite_id, extract_file_from_import_id, extract_type_identifiers,
    is_external_crate, normalize_import_path, resolve_graph,
};
use automatised_pipeline::resolver_layers::{ensure_stdlib_symbol, run_macro_expansion, MacroExpansion};
use automatised_pipeline::stdlib_index::tables::RustStdlib;
use automatised_pipeline::stdlib_index::StdlibTable;

#[test]
fn test_extract_type_identifiers() {
    let cases: Vec<(&str, Vec<&str>)> = vec![
        ("String", vec![]),
        ("GraphStore", vec!["GraphStore"]),
        ("Vec<GraphStore>", vec!["GraphStore"]),
        ("&'a MyType", vec!["MyType"]),
        ("Option<Result<Foo, Bar>>", vec!["Foo", "Bar"]),
        ("i32", vec![]),
        ("HashMap<String, Value>", vec!["Value"]),
    ];
    for (input, expected) in cases {
        let result = extract_type_identifiers(input);
        assert_eq!(result, expected, "for input: {input}");
    }
}

#[test]
fn test_normalize_import_path() {
    assert_eq!(normalize_import_path("crate::graph_store::GraphStore"), "graph_store::GraphStore");
    assert_eq!(normalize_import_path("std::io"), "std::io");
    assert_eq!(normalize_import_path("self::foo"), "self::foo");
}

#[test]
fn test_is_external_crate() {
    assert!(is_external_crate("std::io"));
    assert!(is_external_crate("serde::Serialize"));
    assert!(!is_external_crate("crate::graph_store"));
    assert!(!is_external_crate("self::foo"));
    assert!(!is_external_crate("super::bar"));
}

#[test]
fn test_extract_file_from_import_id() {
    assert_eq!(extract_file_from_import_id("src/main.rs::graph_store::GraphStore"), "src/main.rs");
}

#[test]
fn test_extract_caller_from_callsite_id() {
    assert_eq!(extract_caller_from_callsite_id("src/main.rs::main::call@5:4"), "src/main.rs::main");
}

fn node(label: &str, id: &str, name: &str, props: Vec<(&str, &str)>) -> GraphNode {
    GraphNode {
        label: label.into(),
        id: id.into(),
        name: name.into(),
        qualified_name: id.into(),
        start_line: Some(1),
        end_line: Some(1),
        visibility: String::new(),
        props: props.into_iter().map(|(k, v)| (k.to_string(), v.to_string())).collect(),
    }
}

fn call_graph() -> CodeGraph {
    CodeGraph {
        nodes: vec![
            node("Function", "src/main.rs::main", "main", vec![]),
            node("Function", "src/main.rs::helper", "helper", vec![]),
            node("CallSite", "src/main.rs::main::call@3:4", "helper", vec![("callee_name", "helper")]),
            node("CallSite", "src/main.rs::main::call@4:4", "println!", vec![("callee_name", "println!")]),
        ],
        edges: Vec::new(),
    }
}

#[test]
fn resolving_twice_adds_nothing_new() {
    let mut graph = call_graph();
    let expansions: Vec<MacroExpansion> = Vec::new();
    let (result, edges, _) = resolve_graph(&graph, &expansions);
    assert!(edges.iter().any(|e| e.rel == "Calls_Function_Function"
        && e.from_id == "src/main.rs::main" && e.to_id == "src/main.rs::helper"));
    assert_eq!(result.total_edges, edges.len() as u64);
    for e in &edges {
        graph.edges.push(GraphEdge { rel: e.rel.clone(), from_id: e.from_id.clone(), to_id: e.to_id.clone() });
    }
    let (_, again, _) = resolve_graph(&graph, &expansions);
    assert!(again.is_empty(), "second pass planned {} edges", again.len());
}

#[test]
fn macro_expansion_adds_one_edge_per_emitted_call() {
    let graph = call_graph();
    let expansions = vec![MacroExpansion {
        name: "println".into(),
        emit_calls: vec!["std::io::_print".into(), "std::io::_print".into()],
    }];
    let table = RustStdlib.symbols();
    let mut buf = Vec::new();
    let out = run_macro_expansion(&graph, &expansions, &table, &mut buf);
    assert_eq!(out.edges_added, 1);
    assert_eq!(buf.len(), 1);
    assert_eq!(buf[0].rel, "Calls_Function_StdlibSymbol");
    assert_eq!(buf[0].from_id, "src/main.rs::main");
    assert_eq!(buf[0].to_id, "std::io::_print");
    assert_eq!(buf[0].confidence_permille, 850);
    assert_eq!(buf[0].method, "macro-expansion");
    assert_eq!(out.new_nodes.len(), 1);
    assert_eq!(out.new_nodes[0].label, "StdlibSymbol");
    assert_eq!(out.new_nodes[0].name, "_print");
}

#[test]
fn ensure_stdlib_symbol_creates_each_path_once() {
    let table = RustStdlib.symbols();
    let mut created = Vec::new();
    let first = ensure_stdlib_symbol(&mut created, "std::vec::Vec::push", "rust", &table);
    let n = first.expect("first creation yields a node");
    assert_eq!(n.id, "std::vec::Vec::push");
    assert_eq!(n.name, "push");
    assert!(n.props.iter().any(|(k, v)| k == "receiver_type" && v == "Vec"));
    assert!(ensure_stdlib_symbol(&mut created, "std::vec::Vec::push", "rust", &table).is_none());
    assert_eq!(created, vec!["std::vec::Vec::push".to_string()]);
}

#[test]
fn resolution_expands_macro_calls() {
    let mut graph = call_graph();
    let expansions = vec![MacroExpansion { name: "println".into(), emit_calls: vec!["std::io::_print".into()] }];
    let (result, edges, stdlib_nodes) = resolve_graph(&graph, &expansions);
    assert_eq!(result.macros_resolved, 1);
    assert!(edges.iter().any(|e| e.rel == "Calls_Function_StdlibSymbol"
        && e.from_id == "src/main.rs::main" && e.to_id == "std::io::_print"));
    assert_eq!(result.total_edges, edges.len() as u64);
    assert_eq!(stdlib_nodes.len(), 1);
    assert_eq!(stdlib_nodes[0].qualified_name, "std::io::_print");
    for e in &edges {
        graph.edges.push(GraphEdge { rel: e.rel.clone(), from_id: e.from_id.clone(), to_id: e.to_id.clone() });
    }
    let (_, again, _) = resolve_graph(&graph, &expansions);
    assert!(again.is_empty());
}
