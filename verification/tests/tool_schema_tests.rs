use automatised_pipeline::tool_schemas::{search_codebase_schema, tool_summary, tools_list, SEARCH_CODEBASE_IX, TOOL_COUNT};

#[test]
fn tools_list_offers_every_tool_once() {
    let tools = tools_list();
    assert_eq!(tools.len(), TOOL_COUNT);
    let mut names: Vec<&str> = tools.iter().map(|t| t.name).collect();
    names.sort();
    names.dedup();
    assert_eq!(names.len(), TOOL_COUNT);
    assert_eq!(tools[0].name, "health_check");
    assert!(tools[0].read_only);
    assert_eq!(tools[SEARCH_CODEBASE_IX].name, "search_codebase");
}

#[test]
fn every_input_schema_is_a_json_object() {
    for t in tools_list() {
        let v: serde_json::Value = serde_json::from_str(t.input_schema).expect("schema parses");
        assert_eq!(v.get("type").and_then(|x| x.as_str()), Some("object"), "{}", t.name);
    }
}

#[test]
fn search_codebase_schema_is_read_only_and_takes_a_query() {
    let t = search_codebase_schema();
    assert_eq!(t.name, "search_codebase");
    assert!(t.read_only);
    let v: serde_json::Value = serde_json::from_str(t.input_schema).unwrap();
    assert!(v["properties"].get("query").is_some());
    assert!(v["properties"].get("detail").is_some());
}

#[test]
fn tool_summary_is_the_first_sentence() {
    assert_eq!(tool_summary("health_check").as_deref(), Some("Stage 0 — Handshake and liveness probe."));
    assert_eq!(
        tool_summary("check_security_gates").as_deref(),
        Some("Stage 8 — Graph-aware security gates.")
    );
    assert_eq!(tool_summary("no_such_tool"), None);
    assert_eq!(tool_summary(""), None);
}

#[test]
fn every_tool_has_a_summary_ending_in_a_full_stop() {
    for t in tools_list() {
        let s = tool_summary(t.name).unwrap();
        assert!(t.description.starts_with(&s[..s.len() - 1]));
        assert!(s.ends_with('.') || s == t.description);
    }
}

#[test]
fn tools_list_offers_the_twenty_three_documented_tools() {
    let mut names: Vec<&str> = tools_list().iter().map(|t| t.name).collect();
    names.sort();
    let mut expected = vec![
        "health_check", "extract_finding", "refine_finding", "start_verification", "append_clarification",
        "finalize_verification", "abort_verification", "index_codebase", "query_graph", "get_symbol",
        "resolve_graph", "lsp_resolve", "cluster_graph", "get_processes", "get_impact", "search_codebase",
        "get_context", "analyze_codebase", "detect_changes", "prepare_prd_input", "validate_prd_against_graph",
        "check_security_gates", "verify_semantic_diff",
    ];
    expected.sort();
    assert_eq!(names, expected);
    assert_eq!(TOOL_COUNT, 23);
}
