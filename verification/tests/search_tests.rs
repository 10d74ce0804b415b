use automatised_pipeline::graph::{CodeGraph, GraphEdge, GraphNode};
use automatised_pipeline::search::bm25::{string_to_lowercase, tokenize_symbol};
use automatised_pipeline::search::context::{escape_single_quotes, get_context, parse_u64};
use automatised_pipeline::search::format::{decode_index, encode_index, DecodeError, VectorDoc, VectorIndex};
use automatised_pipeline::search::rrf::rank_keys;
use automatised_pipeline::search::vector::{term_id_of, tokenize_to_terms};
use automatised_pipeline::search;

#[test]
fn test_tokenize_symbol() {
    assert_eq!(tokenize_symbol("handle_tool_call"), "handle tool call");
    assert_eq!(tokenize_symbol("GraphStore"), "graph store");
    assert_eq!(tokenize_symbol("src/main.rs::handle_tool_call"), "src main rs handle tool call");
}

#[test]
fn bm25_test_extract_file_path() {
    assert_eq!(search::bm25::extract_file_path("src/main.rs::main"), "src/main.rs");
    assert_eq!(search::bm25::extract_file_path("src/lib.rs"), "src/lib.rs");
}

#[test]
fn mod_test_extract_file_path() {
    assert_eq!(search::extract_file_path("src/main.rs::handle_tool_call"), "src/main.rs");
    assert_eq!(search::extract_file_path("src/lib.rs"), "src/lib.rs");
}

#[test]
fn test_tokenize_to_terms() {
    let terms = tokenize_to_terms("handle_tool_call");
    assert_eq!(terms, vec!["handle", "tool", "call"]);
}

#[test]
fn lowercase_wrapper_lowers_non_ascii_too() {
    assert_eq!(string_to_lowercase("ÄBC"), "äbc");
    assert_eq!(tokenize_symbol("ParseHTTPRequest"), "parse h t t p request");
}

#[test]
fn term_ids_are_vocabulary_positions() {
    let vocab: Vec<String> = vec!["alpha".into(), "beta".into(), "gamma".into()];
    assert_eq!(term_id_of(&vocab, "gamma"), Some(2));
    assert_eq!(term_id_of(&vocab, "delta"), None);
}

#[test]
fn rank_keys_numbers_from_one() {
    let r = rank_keys(vec!["x".into(), "y".into()]);
    assert_eq!(r.len(), 2);
    assert_eq!((r[0].key.as_str(), r[0].rank), ("x", 1));
    assert_eq!((r[1].key.as_str(), r[1].rank), ("y", 2));
}

fn sample_index() -> VectorIndex {
    VectorIndex {
        vocabulary: vec!["alpha".into(), "beta".into(), "gamma".into()],
        docs: vec![VectorDoc {
            qualified_name: "a::b".into(),
            name: "b".into(),
            label: "Function".into(),
            file_path: "a".into(),
            terms: vec![(0, 0.5f32.to_bits()), (2, 1.25f32.to_bits())],
        }],
    }
}

#[test]
fn test_sparse_round_trip() {
    let idx = sample_index();
    let bytes = encode_index(&idx);
    let loaded = match decode_index(&bytes) {
        Ok(ix) => ix,
        Err(_) => panic!("decode failed"),
    };
    assert_eq!(loaded.vocabulary, idx.vocabulary);
    assert_eq!(loaded.docs.len(), 1);
    assert_eq!(loaded.docs[0].qualified_name, "a::b");
    let weights: Vec<(u32, f32)> = loaded.docs[0].terms.iter().map(|(t, w)| (*t, f32::from_bits(*w))).collect();
    assert_eq!(weights, vec![(0, 0.5), (2, 1.25)]);
}

#[test]
fn decode_rejects_bad_magic_and_truncation() {
    let mut bytes = encode_index(&sample_index());
    bytes[0] ^= 0xff;
    assert!(matches!(decode_index(&bytes), Err(DecodeError::BadMagic(_))));
    let bytes = encode_index(&sample_index());
    assert!(matches!(decode_index(&bytes[..2].to_vec()), Err(DecodeError::TruncatedU32)));
    let cut = bytes[..bytes.len() - 1].to_vec();
    assert!(decode_index(&cut).is_err());
}

#[test]
fn parse_u64_and_escape() {
    assert_eq!(parse_u64("42"), Some(42));
    assert_eq!(parse_u64("4x"), None);
    assert_eq!(parse_u64(""), None);
    assert_eq!(parse_u64("18446744073709551616"), None);
    assert_eq!(escape_single_quotes("a'b"), "a\\'b");
}

fn node(label: &str, id: &str, qn: &str, name: &str) -> GraphNode {
    GraphNode {
        label: label.into(),
        id: id.into(),
        name: name.into(),
        qualified_name: qn.into(),
        start_line: Some(3),
        end_line: Some(9),
        visibility: "pub".into(),
        props: Vec::new(),
    }
}

#[test]
fn get_context_reads_neighbours() {
    let graph = CodeGraph {
        nodes: vec![
            node("Function", "src/a.rs::main", "src/a.rs::main", "main"),
            node("Function", "src/a.rs::helper", "src/a.rs::helper", "helper"),
        ],
        edges: vec![GraphEdge {
            rel: "Calls_Function_Function".into(),
            from_id: "src/a.rs::main".into(),
            to_id: "src/a.rs::helper".into(),
        }],
    };
    let c = match get_context(&graph, "src/a.rs::main") {
        Ok(c) => c,
        Err(e) => panic!("{e}"),
    };
    assert_eq!(c.label, "Function");
    assert_eq!(c.name, "main");
    assert_eq!(c.file_path, "src/a.rs");
    assert_eq!(c.start_line, Some(3));
    assert_eq!(c.calls.len(), 1);
    assert_eq!(c.calls[0].name, "helper");
    assert!(c.called_by.is_empty());
    let h = match get_context(&graph, "src/a.rs::helper") {
        Ok(c) => c,
        Err(e) => panic!("{e}"),
    };
    assert_eq!(h.called_by.len(), 1);
    assert_eq!(h.called_by[0].qualified_name, "src/a.rs::main");
    match get_context(&graph, "nope") {
        Ok(_) => panic!("found a missing symbol"),
        Err(e) => assert_eq!(e, "symbol not found: nope"),
    }
}

#[test]
fn tokenizing_twice_changes_nothing() {
    for s in ["handle_tool_call", "src/main.rs::GraphStore", "HTTPServer.run", "", "__", "a::B::cD"] {
        let once = tokenize_symbol(s);
        assert_eq!(tokenize_symbol(&once), once, "{s}");
    }
    assert_eq!(tokenize_symbol("src/main.rs::GraphStore"), "src main rs graph store");
}
