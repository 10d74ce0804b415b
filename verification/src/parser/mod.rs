//! Language identification and the shared output model of every
//! language front end: extracted nodes and the references between them.

pub mod naming;
pub mod syntax;
pub mod rust;
pub mod rust_attrs;
pub mod rust_laws;
pub mod grammars;
pub mod python;
pub mod typescript;
pub mod go;
pub mod java;
pub mod c;
pub mod cpp;
pub mod kotlin;
pub mod objc;
pub mod numbering;

use vstd::prelude::*;
use crate::text::{chars_of, str_eq, string_from_chars};

verus! {

/// Source languages the code graph knows about.
#[derive(Debug, Clone, Copy, PartialEq, Eq, Structural)]
pub enum Language {
    Rust,
    Python,
    TypeScript,
    Java,
    Kotlin,
    Swift,
    ObjC,
    C,
    Cpp,
    Go,
}

/// The language an indexable file extension denotes: `rs`, `py`, and `ts` /
/// `tsx` are the indexed languages; every other extension has none.
pub open spec fn spec_language_of_extension(ext: Seq<char>) -> Option<Language> {
    if ext == "rs"@ {
        Some(Language::Rust)
    } else if ext == "py"@ {
        Some(Language::Python)
    } else if ext == "ts"@ || ext == "tsx"@ {
        Some(Language::TypeScript)
    } else {
        None
    }
}

/// The language a tool-schema language name selects.
pub open spec fn spec_language_of_name(s: Seq<char>) -> Option<Language> {
    if s == "rust"@ {
        Some(Language::Rust)
    } else if s == "python"@ {
        Some(Language::Python)
    } else if s == "typescript"@ {
        Some(Language::TypeScript)
    } else {
        None
    }
}

/// The canonical lower-case name of a language.
pub open spec fn spec_language_name(l: Language) -> Seq<char> {
    match l {
        Language::Rust => "rust"@,
        Language::Python => "python"@,
        Language::TypeScript => "typescript"@,
        Language::Java => "java"@,
        Language::Kotlin => "kotlin"@,
        Language::Swift => "swift"@,
        Language::ObjC => "objc"@,
        Language::C => "c"@,
        Language::Cpp => "cpp"@,
        Language::Go => "go"@,
    }
}

impl Language {
    /// Detects the language from a file extension; `None` for extensions
    /// that are not indexed.
    pub fn from_extension(ext: &str) -> (r: Option<Language>)
        ensures
            r == spec_language_of_extension(ext@),
    {
        if str_eq(ext, "rs") {
            Some(Language::Rust)
        } else if str_eq(ext, "py") {
            Some(Language::Python)
        } else if str_eq(ext, "ts") || str_eq(ext, "tsx") {
            Some(Language::TypeScript)
        } else {
            None
        }
    }

    /// The canonical lower-case name of the language.
    pub fn as_str(&self) -> (r: &'static str)
        ensures
            r@ == spec_language_name(*self),
    {
        match self {
            Language::Rust => "rust",
            Language::Python => "python",
            Language::TypeScript => "typescript",
            Language::Java => "java",
            Language::Kotlin => "kotlin",
            Language::Swift => "swift",
            Language::ObjC => "objc",
            Language::C => "c",
            Language::Cpp => "cpp",
            Language::Go => "go",
        }
    }

    /// Parses a language name from the tool schema; `None` for names that
    /// select no indexed language (such as `"auto"`).
    pub fn from_str_opt(s: &str) -> (r: Option<Language>)
        ensures
            r == spec_language_of_name(s@),
    {
        if str_eq(s, "rust") {
            Some(Language::Rust)
        } else if str_eq(s, "python") {
            Some(Language::Python)
        } else if str_eq(s, "typescript") {
            Some(Language::TypeScript)
        } else {
            None
        }
    }
}

pub const LABEL_FUNCTION: &'static str = "Function";
pub const LABEL_METHOD: &'static str = "Method";
pub const LABEL_STRUCT: &'static str = "Struct";
pub const LABEL_ENUM: &'static str = "Enum";
pub const LABEL_VARIANT: &'static str = "Variant";
pub const LABEL_TRAIT: &'static str = "Trait";
pub const LABEL_FIELD: &'static str = "Field";
pub const LABEL_CONSTANT: &'static str = "Constant";
pub const LABEL_TYPE_ALIAS: &'static str = "TypeAlias";
pub const LABEL_IMPORT: &'static str = "Import";
pub const LABEL_MODULE: &'static str = "Module";
pub const LABEL_CALL_SITE: &'static str = "CallSite";

/// Everything one source file yields: its symbols and the references
/// between them.
pub struct ParseResult {
    pub nodes: Vec<ExtractedNode>,
    pub refs: Vec<ExtractedRef>,
}

/// One extracted symbol.
pub struct ExtractedNode {
    pub label: String,
    pub name: String,
    pub qualified_name: String,
    pub start_line: u64,
    pub end_line: u64,
    pub visibility: String,
    pub properties: Vec<(String, String)>,
}

/// One directed reference between two qualified names.
pub struct ExtractedRef {
    pub kind: String,
    pub from_qualified_name: String,
    pub to_qualified_name: String,
}

/// The qualified name of `name` inside `scope`: `scope::name`.
pub open spec fn spec_qual(scope: Seq<char>, name: Seq<char>) -> Seq<char> {
    scope + seq![':', ':'] + name
}

/// Appends `b` to `a`.
pub fn append_chars(a: &mut Vec<char>, b: &[char])
    ensures
        final(a)@ == old(a)@ + b@,
{
    let mut i: usize = 0;
    while i < b.len()
        invariant
            i <= b@.len(),
            a@ == old(a)@ + b@.take(i as int),
        decreases b@.len() - i,
    {
        a.push(b[i]);
        i += 1;
        assert(a@ =~= old(a)@ + b@.take(i as int));
    }
    assert(b@.take(b@.len() as int) =~= b@);
}

/// Builds a qualified name with the `::` separator.
pub fn qual(scope: &str, name: &str) -> (r: String)
    ensures
        r@ == spec_qual(scope@, name@),
{
    let mut v = chars_of(scope);
    v.push(':');
    v.push(':');
    let n = chars_of(name);
    append_chars(&mut v, &n);
    assert(v@ =~= spec_qual(scope@, name@));
    string_from_chars(&v)
}

/// What a file in `lang` yields: the tree its grammar gives the source,
/// what the front end reads off that tree, and the error reported when no
/// tree comes back in time, and the label of the error reported when the
/// grammar is refused; `None` for Swift, which has no front end here.
pub open spec fn spec_parse_file(source: Seq<char>, file_path: Seq<char>, lang: Language)
    -> Option<(Option<crate::parser::syntax::SyntaxNode>, crate::parser::syntax::Out, Seq<char>, Seq<char>)>
{
    match lang {
        Language::Rust => Some((crate::parser::grammars::rust_syntax(source),
            match crate::parser::grammars::rust_syntax(source) {
                Some(t) => crate::parser::rust::rust_file_out(t, file_path),
                None => crate::parser::syntax::no_out(),
            }, crate::parser::rust::PARSE_FAILED@, ""@)),
        Language::Python => Some((crate::parser::grammars::python_syntax(source),
            match crate::parser::grammars::python_syntax(source) {
                Some(t) => crate::parser::python::python_file_out(t, file_path),
                None => crate::parser::syntax::no_out(),
            }, crate::parser::syntax::NO_TREE@, "Python "@)),
        Language::TypeScript => Some((crate::parser::grammars::typescript_syntax(source),
            match crate::parser::grammars::typescript_syntax(source) {
                Some(t) => crate::parser::typescript::typescript_file_out(t, file_path),
                None => crate::parser::syntax::no_out(),
            }, crate::parser::typescript::TS_NO_TREE@, "TypeScript "@)),
        Language::Go => Some((crate::parser::grammars::go_syntax(source),
            match crate::parser::grammars::go_syntax(source) {
                Some(t) => crate::parser::go::go_file_out(t, file_path),
                None => crate::parser::syntax::no_out(),
            }, crate::parser::syntax::NO_TREE@, "Go "@)),
        Language::Java => Some((crate::parser::grammars::java_syntax(source),
            match crate::parser::grammars::java_syntax(source) {
                Some(t) => crate::parser::java::java_file_out(t, file_path),
                None => crate::parser::syntax::no_out(),
            }, crate::parser::syntax::NO_TREE@, "Java "@)),
        Language::C => Some((crate::parser::grammars::c_syntax(source),
            match crate::parser::grammars::c_syntax(source) {
                Some(t) => crate::parser::c::c_file_out(t, file_path),
                None => crate::parser::syntax::no_out(),
            }, crate::parser::syntax::NO_TREE@, "C "@)),
        Language::Cpp => Some((crate::parser::grammars::cpp_syntax(source),
            match crate::parser::grammars::cpp_syntax(source) {
                Some(t) => crate::parser::cpp::cpp_file_out(t, file_path),
                None => crate::parser::syntax::no_out(),
            }, crate::parser::syntax::NO_TREE@, "C++ "@)),
        Language::Kotlin => Some((crate::parser::grammars::kotlin_syntax(source),
            match crate::parser::grammars::kotlin_syntax(source) {
                Some(t) => crate::parser::kotlin::kotlin_file_out(t, file_path),
                None => crate::parser::syntax::no_out(),
            }, crate::parser::syntax::NO_TREE@, "Kotlin "@)),
        Language::ObjC => Some((crate::parser::grammars::objc_syntax(source),
            match crate::parser::grammars::objc_syntax(source) {
                Some(t) => crate::parser::objc::objc_file_out(t, file_path),
                None => crate::parser::syntax::no_out(),
            }, crate::parser::syntax::NO_TREE@, "Objective-C "@)),
        Language::Swift => None,
    }
}

/// The error for a language with no front end.
pub open spec fn unsupported(lang: Language) -> Seq<char> {
    "no parser for language: "@ + spec_language_name(lang)
}

/// Parses a source file and extracts typed symbols and relationships,
/// dispatching to the front end of its language.
pub fn parse_file(source: &str, file_path: &str, lang: Language) -> (r: Result<ParseResult, String>)
    ensures
        match spec_parse_file(source@, file_path@, lang) {
            Some((tree, out, no_tree, label)) => match r {
                Ok(p) => tree is Some && crate::parser::rust::result_out(p) == out,
                Err(e) => e@ == no_tree || crate::parser::syntax::is_refusal(label, e@),
            },
            None => r matches Err(e) && e@ == unsupported(lang),
        },
{
    match lang {
        Language::Rust => crate::parser::rust::parse_rust_file(source, file_path),
        Language::Python => crate::parser::python::parse_python_file(source, file_path),
        Language::TypeScript => crate::parser::typescript::parse_typescript_file(source, file_path),
        Language::Go => crate::parser::go::parse_go_file(source, file_path),
        Language::Java => crate::parser::java::parse_java_file(source, file_path),
        Language::C => crate::parser::c::parse_c_file(source, file_path),
        Language::Cpp => crate::parser::cpp::parse_cpp_file(source, file_path),
        Language::Kotlin => crate::parser::kotlin::parse_kotlin_file(source, file_path),
        Language::ObjC => crate::parser::objc::parse_objc_file(source, file_path),
        Language::Swift => {
            let mut v = chars_of("no parser for language: ");
            append_chars(&mut v, &chars_of(lang.as_str()));
            Err(string_from_chars(&v))
        },
    }
}

} // verus!
