use automatised_pipeline::parser::naming::{is_upper_snake_case, python_visibility};
use automatised_pipeline::parser::{qual, Language};

#[test]
fn test_language_from_extension() {
    assert_eq!(Language::from_extension("rs"), Some(Language::Rust));
    assert_eq!(Language::from_extension("py"), Some(Language::Python));
    assert_eq!(Language::from_extension("ts"), Some(Language::TypeScript));
    assert_eq!(Language::from_extension("tsx"), Some(Language::TypeScript));
    assert_eq!(Language::from_extension("js"), None);
    assert_eq!(Language::from_extension("go"), None);
}

#[test]
fn test_language_from_str() {
    assert_eq!(Language::from_str_opt("rust"), Some(Language::Rust));
    assert_eq!(Language::from_str_opt("python"), Some(Language::Python));
    assert_eq!(Language::from_str_opt("typescript"), Some(Language::TypeScript));
    assert_eq!(Language::from_str_opt("auto"), None);
    assert_eq!(Language::from_str_opt("java"), None);
}

#[test]
fn test_qual() {
    assert_eq!(qual("src/main.rs", "foo"), "src/main.rs::foo");
}

#[test]
fn test_python_visibility() {
    assert_eq!(python_visibility("public_func"), "");
    assert_eq!(python_visibility("_private_func"), "private");
    assert_eq!(python_visibility("__mangled"), "private");
    assert_eq!(python_visibility("__init__"), "");
    assert_eq!(python_visibility("__str__"), "");
}

#[test]
fn test_upper_snake_case() {
    assert!(is_upper_snake_case("MAX_SIZE"));
    assert!(is_upper_snake_case("FOO"));
    assert!(is_upper_snake_case("HTTP_200"));
    assert!(!is_upper_snake_case("foo"));
    assert!(!is_upper_snake_case("Foo_Bar"));
    assert!(!is_upper_snake_case("_"));
}

#[test]
fn language_names_round_trip_through_from_str_opt() {
    for l in [Language::Rust, Language::Python, Language::TypeScript] {
        assert_eq!(Language::from_str_opt(l.as_str()), Some(l));
    }
    assert_eq!(Language::Cpp.as_str(), "cpp");
    assert_eq!(Language::from_str_opt("cpp"), None);
}
