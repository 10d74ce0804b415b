use automatised_pipeline::stdlib_index::tables::{PythonStdlib, RustStdlib, TypeScriptStdlib};
use automatised_pipeline::stdlib_index::{get_stdlib_table, lookup, StdlibTable};

#[test]
fn stdlib_index_test_stdlib_table_size_rust() {
    let n = RustStdlib.symbols().len();
    assert!(n >= 150, "rust stdlib table should have >=150 entries, got {n}");
}

#[test]
fn stage3b_v2_layers_test_stdlib_table_size_rust() {
    let table = get_stdlib_table("rust").expect("rust table");
    assert!(table.symbols().len() >= 150);
}

#[test]
fn test_stdlib_table_size_python() {
    let n = PythonStdlib.symbols().len();
    assert!(n >= 80, "python stdlib table should have >=80 entries, got {n}");
}

#[test]
fn test_stdlib_table_size_typescript() {
    let n = TypeScriptStdlib.symbols().len();
    assert!(n >= 60, "typescript stdlib table should have >=60 entries, got {n}");
}

#[test]
fn test_lookup_vec_push() {
    let sym = lookup("rust", "Vec", "push").expect("Vec::push must be indexed");
    assert_eq!(sym.canonical_path, "std::vec::Vec::push");
}

#[test]
fn lookup_degrades_for_unknown_language() {
    assert!(get_stdlib_table("cobol").is_none());
    assert!(lookup("cobol", "Vec", "push").is_none());
    assert!(lookup("rust", "Vec", "no_such_method").is_none());
    assert_eq!(get_stdlib_table("python").map(|t| t.language()), Some("python"));
}
