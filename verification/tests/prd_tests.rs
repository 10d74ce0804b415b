use automatised_pipeline::prd_input::{
    check_verified, clean_token, prepare, tokenize_description, FindingSummary, PrdInputArgs,
    SearchHit, VerifiedFields, MAX_TOKENS, MIN_TOKEN_LEN,
};
use automatised_pipeline::prd_validator::{
    compute_status, looks_like_file_path, regex_extract_symbols, FindingDetails, ValidationFinding,
    FALLBACK_MIN_TOKEN_LEN,
};
use automatised_pipeline::graph::{CodeGraph, GraphEdge, GraphNode};

#[test]
fn test_tokenize_description_basic() {
    let s = FindingSummary {
        finding_id: "f1".into(),
        title: "Handle tool call should reject unknown tools".into(),
        description: "The handle_tool_call function in main.rs silently returns".into(),
        relevance_category: "bug".into(),
    };
    let t = tokenize_description(&s);
    assert!(t.iter().any(|x| x == "handle"));
    assert!(t.iter().any(|x| x == "tool"));
    assert!(t.iter().any(|x| x == "handle_tool_call"));
    assert!(!t.iter().any(|x| x.len() < MIN_TOKEN_LEN));
}

#[test]
fn test_tokenize_respects_max_tokens() {
    let description = (0..100)
        .map(|i| format!("word{i}"))
        .collect::<Vec<_>>()
        .join(" ");
    let s = FindingSummary {
        finding_id: "f1".into(),
        title: "title".into(),
        description,
        relevance_category: "bug".into(),
    };
    let t = tokenize_description(&s);
    assert!(t.len() <= MAX_TOKENS);
}

#[test]
fn test_clean_token_strips_punctuation() {
    assert_eq!(clean_token("Foo,"), "foo");
    assert_eq!(clean_token("bar.baz"), "barbaz");
    assert_eq!(clean_token("x::y"), "x::y");
    assert_eq!(clean_token("(parens)"), "parens");
}

#[test]
fn test_load_verified_rejects_false_flag() {
    let fields = VerifiedFields {
        verified: Some(false),
        finalized_at: Some("2026-04-11T00:00:00Z".into()),
        stage1_refined_path: Some("findings/f/stage-1.refined.json".into()),
    };
    let err = check_verified(&fields).err().unwrap();
    assert!(err.contains("stage_2_not_verified"), "got: {err}");
}

#[test]
fn check_verified_accepts_true_flag_and_defaults_missing_fields() {
    let fields = VerifiedFields { verified: Some(true), finalized_at: None, stage1_refined_path: Some("p".into()) };
    let r = check_verified(&fields).ok().unwrap();
    assert!(r.verified);
    assert_eq!(r.finalized_at, "");
    assert_eq!(r.stage1_refined_path, "p");
    let missing = VerifiedFields { verified: None, finalized_at: None, stage1_refined_path: None };
    assert!(check_verified(&missing).is_err());
}

#[test]
fn tokenize_description_dedups_and_keeps_order() {
    let s = FindingSummary {
        finding_id: "f".into(),
        title: "Graph graph GRAPH".into(),
        description: "store, Store".into(),
        relevance_category: "x".into(),
    };
    assert_eq!(tokenize_description(&s), vec!["graph".to_string(), "store".to_string()]);
}

#[test]
fn test_regex_extract_backticked() {
    let prd = "modify `handle_tool_call` in `src/main.rs` and the `GraphStore` helper.";
    let syms = regex_extract_symbols(prd);
    let tokens: Vec<String> = syms.iter().map(|s| s.token.clone()).collect();
    assert!(tokens.contains(&"handle_tool_call".to_string()), "got {:?}", tokens);
    assert!(tokens.contains(&"GraphStore".to_string()), "got {:?}", tokens);
    assert!(tokens.iter().any(|t| t == "src/main.rs"), "got {:?}", tokens);
}

#[test]
fn test_regex_min_token_len() {
    let prd = "touch `ab` and `abc` and `foo`.";
    let syms = regex_extract_symbols(prd);
    assert!(syms.iter().all(|s| s.token.len() >= FALLBACK_MIN_TOKEN_LEN));
    assert!(syms.iter().any(|s| s.token == "abc"));
    assert!(!syms.iter().any(|s| s.token == "ab"));
}

fn finding(severity: &str) -> ValidationFinding {
    ValidationFinding {
        axis: "x".into(),
        severity: severity.into(),
        message: "".into(),
        symbol: None,
        details: FindingDetails::Unresolved { did_you_mean: Vec::new() },
    }
}

#[test]
fn test_compute_status_escalation() {
    let mut findings = Vec::new();
    findings.push(finding("info"));
    assert_eq!(compute_status(&findings), "ok");
    findings.push(finding("warning"));
    assert_eq!(compute_status(&findings), "warning");
    findings.push(finding("critical"));
    assert_eq!(compute_status(&findings), "fail");
}

#[test]
fn test_looks_like_file_path() {
    assert!(looks_like_file_path("src/main.rs"));
    assert!(looks_like_file_path("a/b/c.tsx"));
    assert!(!looks_like_file_path("main.rs"));
    assert!(!looks_like_file_path("src/main"));
    assert!(!looks_like_file_path("not/a/file.xyz"));
}

fn node(label: &str, id: &str, qn: &str, props: Vec<(&str, &str)>) -> GraphNode {
    GraphNode {
        label: label.into(),
        id: id.into(),
        name: qn.rsplit("::").next().unwrap().into(),
        qualified_name: qn.into(),
        start_line: Some(1),
        end_line: Some(2),
        visibility: "pub".into(),
        props: props.into_iter().map(|(k, v)| (k.to_string(), v.to_string())).collect(),
    }
}

fn hit(qn: &str, community: Option<&str>, procs: Vec<&str>) -> SearchHit {
    SearchHit {
        qualified_name: qn.into(),
        name: qn.rsplit("::").next().unwrap().into(),
        label: "Function".into(),
        file_path: qn.split("::").next().unwrap().into(),
        community_id: community.map(|c| c.to_string()),
        process_names: procs.into_iter().map(|p| p.to_string()).collect(),
    }
}

#[test]
fn prepare_counts_distinct_symbols_communities_and_processes() {
    let graph = CodeGraph {
        nodes: vec![
            node("Function", "f1", "src/a.rs::alpha", vec![]),
            node("Community", "c1", "c1", vec![("member_count", "4")]),
        ],
        edges: vec![GraphEdge { rel: "MemberOf_Function_Community".into(), from_id: "f1".into(), to_id: "c1".into() }],
    };
    let per_token = vec![
        vec![hit("src/a.rs::alpha", Some("c1"), vec!["p1", "p2"]), hit("src/a.rs::beta", Some("c1"), vec!["p2"])],
        vec![hit("src/a.rs::alpha", Some("c1"), vec!["p1"]), hit("src/b.rs::gamma", None, vec![])],
    ];
    let args = PrdInputArgs {
        run_id: "r1".into(),
        finding_id: "f9".into(),
        output_dir: "/out".into(),
        graph_path: "/out/graph".into(),
    };
    let ok = VerifiedFields { verified: Some(true), finalized_at: None, stage1_refined_path: None };
    let o = prepare(&args, &ok, &graph, &per_token).ok().unwrap();
    assert_eq!(o.artifact_path, "/out/runs/r1/findings/f9/stage-4.prd_input.json");
    assert_eq!(o.matched_symbol_count, 3);
    assert_eq!(o.impacted_community_count, 1);
    assert_eq!(o.impacted_process_count, 2);

    let not_ok = VerifiedFields { verified: Some(false), finalized_at: None, stage1_refined_path: None };
    let e = prepare(&args, &not_ok, &graph, &per_token).err().unwrap();
    assert_eq!(e, "stage_2_not_verified: verified flag is false");
}
