use automatised_pipeline::parser::rust::{extract_rust, parse_rust_file};
use automatised_pipeline::parser::syntax::SyntaxNode;

#[test]
fn test_all_construct_types() {
    let src = r#"
pub async fn top_fn() {}
pub struct MyStruct { pub x: i32, y: String }
pub enum MyEnum { A, B }
pub trait MyTrait { fn method(&self); }
impl MyStruct { pub fn new() -> Self { todo!() } }
impl MyTrait for MyStruct { fn method(&self) {} }
const MAX: usize = 42;
type Alias = Vec<String>;
use std::collections::HashMap;
mod inner;
"#;
    let result = parse_rust_file(src, "test.rs").expect("parse");
    let labels: Vec<&str> = result.nodes.iter().map(|n| n.label.as_str()).collect();

    assert!(labels.contains(&"Function"), "missing Function");
    assert!(labels.contains(&"Struct"), "missing Struct");
    assert!(labels.contains(&"Enum"), "missing Enum");
    assert!(labels.contains(&"Variant"), "missing Variant");
    assert!(labels.contains(&"Trait"), "missing Trait");
    assert!(labels.contains(&"Method"), "missing Method");
    assert!(labels.contains(&"Field"), "missing Field");
    assert!(labels.contains(&"Constant"), "missing Constant");
    assert!(labels.contains(&"TypeAlias"), "missing TypeAlias");
    assert!(labels.contains(&"Import"), "missing Import");
    assert!(labels.contains(&"Module"), "missing Module");

    let top_fn = result.nodes.iter().find(|n| n.name == "top_fn").unwrap();
    let is_async_prop = top_fn.properties.iter().find(|(k, _)| k == "is_async").unwrap();
    assert_eq!(is_async_prop.1, "true");

    let x_field = result.nodes.iter().find(|n| n.name == "x").unwrap();
    let type_ann = x_field.properties.iter().find(|(k, _)| k == "type_annotation").unwrap();
    assert_eq!(type_ann.1, "i32");

    assert!(result.refs.iter().any(|r| r.kind == "HasVariant" && r.from_qualified_name.contains("MyEnum")));
    assert!(result.refs.iter().any(|r| r.kind == "HasField" && r.from_qualified_name.contains("MyStruct")));
    assert!(result.refs.iter().any(|r| r.kind == "HasMethod"));
}

#[test]
fn test_visibility_extraction() {
    let src = r#"
pub fn public_fn() {}
pub(crate) fn crate_fn() {}
pub(super) fn super_fn() {}
fn private_fn() {}
"#;
    let result = parse_rust_file(src, "test.rs").expect("parse");
    let find = |name: &str| -> String {
        result.nodes.iter().find(|n| n.name == name).map(|n| n.visibility.clone()).unwrap_or_default()
    };
    assert_eq!(find("public_fn"), "pub");
    assert_eq!(find("crate_fn"), "pub(crate)");
    assert_eq!(find("super_fn"), "pub(super)");
    assert_eq!(find("private_fn"), "");
}

#[test]
fn test_parse_multi_brace_use() {
    let src = r#"
use std::collections::{HashMap, HashSet};
use serde::{Deserialize, Serialize as Ser};
use std::io::{self, BufRead};
use a::b::*;
use a::{b, c::{d, e}};
"#;
    let result = parse_rust_file(src, "test.rs").expect("parse");
    let import_names: Vec<&str> = result.nodes.iter().filter(|n| n.label == "Import").map(|n| n.name.as_str()).collect();

    assert!(import_names.contains(&"std::collections::HashMap"), "missing std::collections::HashMap in {import_names:?}");
    assert!(import_names.contains(&"std::collections::HashSet"), "missing std::collections::HashSet in {import_names:?}");
    assert!(import_names.contains(&"Ser"), "aliased import should use alias as display name, got {import_names:?}");
    assert!(import_names.contains(&"serde::Deserialize"), "missing serde::Deserialize in {import_names:?}");
    assert!(import_names.contains(&"std::io"), "missing std::io (from use std::io::{{self, ..}}) in {import_names:?}");
    assert!(import_names.contains(&"std::io::BufRead"), "missing std::io::BufRead in {import_names:?}");
    assert!(import_names.contains(&"a::b"), "missing a::b in {import_names:?}");
    assert!(import_names.contains(&"a::c::d"), "missing a::c::d in {import_names:?}");
    assert!(import_names.contains(&"a::c::e"), "missing a::c::e in {import_names:?}");
    assert!(import_names.contains(&"a::b::*"), "missing glob a::b::* in {import_names:?}");
    for n in &import_names {
        assert!(!n.contains('{') && !n.contains('}'), "raw brace leaked into Import name: {n}");
    }
}

#[test]
fn test_impl_trait_property() {
    let src = r#"
trait MyTrait { fn do_it(&self); }
struct S;
impl MyTrait for S { fn do_it(&self) {} }
"#;
    let result = parse_rust_file(src, "test.rs").expect("parse");
    let method = result
        .nodes
        .iter()
        .find(|n| n.label == "Method" && n.name == "do_it"
            && n.properties.iter().any(|(k, v)| k == "trait_name" && v == "MyTrait"))
        .expect("should find impl method with trait_name property");
    assert!(method.qualified_name.contains("S"));
}

#[test]
fn call_sites_are_recorded_with_line_and_column() {
    let src = "fn main() {\n    helper(1);\n    x.method();\n}\nfn helper(_: i32) {}\n";
    let result = parse_rust_file(src, "src/main.rs").expect("parse");
    let calls: Vec<&str> = result.nodes.iter().filter(|n| n.label == "CallSite").map(|n| n.qualified_name.as_str()).collect();
    assert_eq!(calls, vec!["src/main.rs::main::call@2:4"]);
    let cs = result.nodes.iter().find(|n| n.label == "CallSite").unwrap();
    assert!(cs.properties.iter().any(|(k, v)| k == "callee_name" && v == "helper"));
    assert!(result.refs.iter().any(|r| r.kind == "Defines" && r.from_qualified_name == "src/main.rs::main"
        && r.to_qualified_name == "src/main.rs::main::call@2:4"));
}

#[test]
fn nested_modules_scope_their_items() {
    let src = "mod outer { pub mod inner { pub fn f() {} } }\n";
    let result = parse_rust_file(src, "lib.rs").expect("parse");
    let qns: Vec<&str> = result.nodes.iter().map(|n| n.qualified_name.as_str()).collect();
    assert_eq!(qns, vec!["lib.rs::outer", "lib.rs::outer::inner", "lib.rs::outer::inner::f"]);
}

fn leaf(kind: &str, field: &str, text: &str) -> SyntaxNode {
    SyntaxNode {
        kind: kind.into(),
        field: field.into(),
        named: true,
        text: text.into(),
        start_row: 0,
        start_col: 0,
        end_row: 0,
        start_byte: 0,
        end_byte: 0,
        children: Vec::new(),
    }
}

#[test]
fn extraction_reads_a_hand_built_tree() {
    let mut item = leaf("const_item", "", "const N: u8 = 1;");
    item.start_row = 4;
    item.end_row = 4;
    item.children = vec![leaf("visibility_modifier", "", "pub"), leaf("identifier", "name", "N"), leaf("primitive_type", "type", "u8")];
    let mut root = leaf("source_file", "", "");
    root.children = vec![item, leaf("line_comment", "", "// x")];
    let r = extract_rust(&root, "f.rs");
    assert_eq!(r.nodes.len(), 1);
    let n = &r.nodes[0];
    assert_eq!((n.label.as_str(), n.name.as_str(), n.qualified_name.as_str()), ("Constant", "N", "f.rs::N"));
    assert_eq!((n.start_line, n.end_line, n.visibility.as_str()), (5, 5, "pub"));
    assert_eq!(n.properties, vec![("type_annotation".to_string(), "u8".to_string())]);
    assert_eq!(r.refs.len(), 1);
    assert_eq!(r.refs[0].kind, "Defines");
}

const ENTRY_SOURCE: &str = r##"
fn helper() {}
fn test_helper() {}
fn helperTest() {}
#[test]
// Comments do not detach an outer attribute.
fn arbitrary_case() { helper(); }
#[kani::proof]
fn test_named_harness() { helper(); }
#[kani :: proof]
fn spaced_harness() { helper(); }
#[cfg_attr(feature = "optional", test)]
fn conditional() {}
#[other::test]
fn unrelated() {}
#[doc = "#[kani::proof]"]
fn documentation() {}
#[test]
const MARKER: bool = true;
fn after_marker() {}
mod nested {
    #[test]
    fn nested_case() {}
}
"##;

#[test]
fn parser_preserves_exact_rust_entry_attributes() {
    let parsed = automatised_pipeline::parser::parse_file(
        ENTRY_SOURCE,
        "src/lib.rs",
        automatised_pipeline::parser::Language::Rust,
    )
    .unwrap();
    for (name, expected) in [
        ("arbitrary_case", "test"),
        ("test_named_harness", "proof"),
        ("spaced_harness", "proof"),
        ("nested_case", "test"),
        ("helper", ""),
        ("test_helper", ""),
        ("helperTest", ""),
        ("conditional", ""),
        ("unrelated", ""),
        ("documentation", ""),
        ("after_marker", ""),
    ] {
        let node = parsed.nodes.iter().find(|n| n.name == name).unwrap();
        let actual = node
            .properties
            .iter()
            .find(|(key, _)| key == "entry_kind")
            .map(|(_, value)| value.as_str())
            .unwrap_or("");
        assert_eq!(actual, expected, "attribute classification for {name}");
    }
}

#[test]
fn test_derive_implements_debug_edge() {
    let src = r#"
#[derive(Debug, Clone)]
pub struct Foo {
    pub x: i32,
}
"#;
    let result = automatised_pipeline::parser::rust::parse_rust_file(src, "test.rs").expect("parse");
    let debug_ref = result
        .refs
        .iter()
        .find(|r| r.kind == "DeriveImplements" && r.to_qualified_name == "Debug")
        .expect("expected DeriveImplements ref for Debug");
    assert!(debug_ref.from_qualified_name.contains("Foo"));
    let clone_ref = result
        .refs
        .iter()
        .find(|r| r.kind == "DeriveImplements" && r.to_qualified_name == "Clone");
    assert!(clone_ref.is_some(), "expected DeriveImplements ref for Clone");
}

#[test]
fn derives_are_recorded_and_cleared_by_the_next_item() {
    let src = "#[derive(PartialEq, Eq)]\n// note\n#[non_exhaustive]\nenum E { A }\nstruct S;\n";
    let result = automatised_pipeline::parser::rust::parse_rust_file(src, "m.rs").expect("parse");
    let derived: Vec<(&str, &str)> = result
        .refs
        .iter()
        .filter(|r| r.kind == "DeriveImplements")
        .map(|r| (r.from_qualified_name.as_str(), r.to_qualified_name.as_str()))
        .collect();
    assert_eq!(derived, vec![("m.rs::E", "PartialEq"), ("m.rs::E", "Eq")]);
    let e = result.nodes.iter().find(|n| n.name == "E").unwrap();
    assert!(e.properties.iter().any(|(k, v)| k == "implements" && v == "PartialEq,Eq"));
    let s = result.nodes.iter().find(|n| n.name == "S").unwrap();
    assert!(!s.properties.iter().any(|(k, _)| k == "implements"));
}

#[test]
fn every_rust_symbol_is_well_formed() {
    let src = "use std::io::{self, Read};\n#[derive(Debug)]\npub struct P { x: i32 }\nimpl P { fn get(&self) -> i32 { helper(self.x) } }\ntrait T: Clone { fn t(&self); }\nmod m { pub fn f() { g(); } }\nconst C: u8 = 1;\ntype A = u8;\nenum E { X, Y }\n";
    let r = parse_rust_file(src, "src/lib.rs").unwrap();
    assert!(!r.nodes.is_empty());
    for n in &r.nodes {
        assert!(!n.name.is_empty());
        assert!(n.start_line >= 1 && n.start_line <= n.end_line);
        assert!(n.qualified_name.starts_with("src/lib.rs::"), "{}", n.qualified_name);
    }
    for e in &r.refs {
        assert!(!e.kind.is_empty() && !e.to_qualified_name.is_empty());
    }
}
