//! Per-language standard-library symbol tables and their lookup.

pub mod tables;

use vstd::prelude::*;
use crate::text::str_eq;
use crate::stdlib_index::tables::{PythonStdlib, RustStdlib, TypeScriptStdlib, rust_symbols, python_symbols,
    typescript_symbols};

verus! {

/// One entry of a per-language standard-library table.
#[derive(Debug, Clone, Copy)]
pub struct StdlibSymbol {
    pub receiver_type: &'static str,
    pub method_name: &'static str,
    pub canonical_path: &'static str,
    pub is_method: bool,
    pub language: &'static str,
}

/// Contract every per-language standard-library table implements.
pub trait StdlibTable {
    /// The language id of the table.
    spec fn spec_language(&self) -> Seq<char>;

    /// The language id of the table.
    fn language(&self) -> (r: &'static str)
        ensures
            r@ == self.spec_language();

    /// The entries of the table, in order.
    spec fn spec_symbols(&self) -> Seq<StdlibSymbol>;

    /// Every entry of the table, in order; each belongs to the table's
    /// language and is a method.
    fn symbols(&self) -> (r: Vec<StdlibSymbol>)
        ensures
            r@ == self.spec_symbols(),
            forall|i: int| 0 <= i < r@.len() ==> (#[trigger] r@[i]).language@ == self.spec_language()
                && r@[i].is_method;
}

/// The language ids that have a table.
pub open spec fn has_table(language: Seq<char>) -> bool {
    language == "rust"@ || language == "python"@ || language == "typescript"@
}

/// The entries of the table for `language`; none for a language without
/// one.
pub open spec fn table_of(language: Seq<char>) -> Seq<StdlibSymbol> {
    if language == "rust"@ {
        rust_symbols()
    } else if language == "python"@ {
        python_symbols()
    } else if language == "typescript"@ {
        typescript_symbols()
    } else {
        Seq::empty()
    }
}

/// Dispatch from a language id to its table; `None` for languages without
/// one, so callers can degrade gracefully.
pub fn get_stdlib_table(language: &str) -> (r: Option<&'static dyn StdlibTable>)
    ensures
        r is Some <==> has_table(language@),
        r matches Some(t) ==> t.spec_language() == language@ && t.spec_symbols() == table_of(language@),
{
    if str_eq(language, "rust") {
        Some(&RustStdlib)
    } else if str_eq(language, "python") {
        Some(&PythonStdlib)
    } else if str_eq(language, "typescript") {
        Some(&TypeScriptStdlib)
    } else {
        None
    }
}

/// `s` is the table entry for `receiver_type.method_name`.
pub open spec fn entry_matches(s: StdlibSymbol, receiver_type: Seq<char>, method_name: Seq<char>) -> bool {
    s.receiver_type@ == receiver_type && s.method_name@ == method_name
}

/// The first entry of `table` for `receiver_type.method_name`.
pub fn lookup_in(table: &[StdlibSymbol], receiver_type: &str, method_name: &str) -> (r: Option<StdlibSymbol>)
    ensures
        match r {
            Some(s) => exists|i: int| 0 <= i < table@.len() && table@[i] == s
                && entry_matches(s, receiver_type@, method_name@)
                && forall|j: int| 0 <= j < i ==> !entry_matches(#[trigger] table@[j], receiver_type@, method_name@),
            None => forall|j: int| 0 <= j < table@.len() ==> !entry_matches(#[trigger] table@[j], receiver_type@, method_name@),
        },
{
    let mut i: usize = 0;
    while i < table.len()
        invariant
            i <= table@.len(),
            forall|j: int| 0 <= j < i ==> !entry_matches(#[trigger] table@[j], receiver_type@, method_name@),
        decreases table@.len() - i,
    {
        let s = table[i];
        if str_eq(s.receiver_type, receiver_type) && str_eq(s.method_name, method_name) {
            return Some(s);
        }
        i += 1;
    }
    None
}

/// Lookup: (language, receiver type, method) to the table entry naming its
/// canonical path; the first matching entry of the language's table.
pub fn lookup(language: &str, receiver_type: &str, method_name: &str) -> (r: Option<StdlibSymbol>)
    ensures
        !has_table(language@) ==> r is None,
        has_table(language@) ==> match r {
            Some(s) => exists|i: int| 0 <= i < table_of(language@).len() && table_of(language@)[i] == s
                && entry_matches(s, receiver_type@, method_name@)
                && forall|j: int| 0 <= j < i ==> !entry_matches(#[trigger] table_of(language@)[j], receiver_type@, method_name@),
            None => forall|j: int| 0 <= j < table_of(language@).len()
                ==> !entry_matches(#[trigger] table_of(language@)[j], receiver_type@, method_name@),
        },
        r matches Some(s) ==> entry_matches(s, receiver_type@, method_name@) && s.language@ == language@
            && s.is_method,
{
    let table = get_stdlib_table(language)?;
    let symbols = table.symbols();
    let r = lookup_in(symbols.as_slice(), receiver_type, method_name);
    r
}

} // verus!
