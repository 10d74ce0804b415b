use automatised_pipeline::graph::{CodeGraph, GraphEdge, GraphNode};
use automatised_pipeline::text::trim;
use automatised_pipeline::security_gates::{
    auth_critical_patterns, check_gates, file_scope_from_path, name_has_auth_pattern, tally,
    FlagDetails, SecurityFlag, SecurityReport, SecuritySummary,
};

#[test]
fn test_auth_patterns_lowercase() {
    for p in auth_critical_patterns() {
        assert_eq!(p, p.to_ascii_lowercase(), "patterns must be lowercase");
    }
}

fn flag(severity: &str) -> SecurityFlag {
    SecurityFlag {
        gate: "g".into(),
        severity: severity.into(),
        symbol: "s".into(),
        message: "".into(),
        details: FlagDetails::CoverageGap,
    }
}

#[test]
fn test_tally_counts() {
    let flags = vec![flag("critical"), flag("warning"), flag("info"), flag("info")];
    let s = tally(&flags, 5);
    assert_eq!(s.critical_count, 1);
    assert_eq!(s.warning_count, 1);
    assert_eq!(s.info_count, 2);
    assert_eq!(s.changed_symbols, 5);
}

#[test]
fn test_gates_passed_requires_zero_critical() {
    let mut r = SecurityReport {
        gates_passed: true,
        flags: Vec::new(),
        summary: SecuritySummary { changed_symbols: 1, critical_count: 0, warning_count: 5, info_count: 3 },
    };
    assert!(r.summary.critical_count == 0);
    r.summary.critical_count = 1;
    assert!(r.summary.critical_count > 0);
}

#[test]
fn auth_names_and_paths() {
    assert!(name_has_auth_pattern("VerifyJWT"));
    assert!(!name_has_auth_pattern("render_page"));
    assert_eq!(file_scope_from_path("src/auth/login.rs"), "auth/login.rs");
    assert_eq!(file_scope_from_path("main.rs"), "main.rs");
    assert_eq!(trim("  a b \n"), "a b");
}

fn node(label: &str, id: &str, name: &str, vis: &str) -> GraphNode {
    GraphNode {
        label: label.into(),
        id: id.into(),
        name: name.into(),
        qualified_name: id.into(),
        start_line: Some(1),
        end_line: Some(5),
        visibility: vis.into(),
        props: Vec::new(),
    }
}

fn edge(rel: &str, from: &str, to: &str) -> GraphEdge {
    GraphEdge { rel: rel.into(), from_id: from.into(), to_id: to.into() }
}

#[test]
fn check_gates_flags_an_auth_community_member() {
    let graph = CodeGraph {
        nodes: vec![
            node("File", "src/auth.rs", "auth.rs", ""),
            node("Function", "src/auth.rs::login", "login", "pub"),
            node("Function", "src/auth.rs::verify_token", "verify_token", ""),
            node("Community", "c1", "c1", ""),
        ],
        edges: vec![
            edge("MemberOf_Function_Community", "src/auth.rs::login", "c1"),
            edge("MemberOf_Function_Community", "src/auth.rs::verify_token", "c1"),
            edge("Defines_File_Function", "src/auth.rs", "src/auth.rs::login"),
        ],
    };
    let changed = vec!["src/auth.rs::login".to_string(), "missing::symbol".to_string()];
    let r = check_gates(&graph, &changed);
    let gates: Vec<(&str, &str)> = r.flags.iter().map(|f| (f.gate.as_str(), f.severity.as_str())).collect();
    assert!(gates.contains(&("auth_critical_touch", "critical")), "{gates:?}");
    assert!(gates.contains(&("unsafe_symbol", "info")), "{gates:?}");
    assert!(gates.contains(&("public_api_change", "warning")), "{gates:?}");
    assert!(gates.contains(&("test_coverage_gap", "warning")), "{gates:?}");
    assert_eq!(gates.last(), Some(&("input_unresolved", "info")));
    assert!(!r.gates_passed);
    assert_eq!(r.summary.changed_symbols, 2);
    assert_eq!(r.summary.critical_count, 1);
    assert_eq!(r.summary.warning_count, 2);
    assert_eq!(r.summary.info_count, 2);
}
