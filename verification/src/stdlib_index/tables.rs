//! The table data: Rust std, the Python standard library and builtins,
//! and the ECMAScript/Web platform globals.

use vstd::prelude::*;
use crate::stdlib_index::{StdlibSymbol, StdlibTable};

verus! {

/// The rust table entry for `receiver_type.method_name`.
pub open spec fn rs_entry(receiver_type: &'static str, method_name: &'static str, canonical_path: &'static str) -> StdlibSymbol {
    StdlibSymbol { receiver_type, method_name, canonical_path, is_method: true, language: "rust" }
}

/// Every entry of the rust table, in order.
pub open spec fn rust_symbols() -> Seq<StdlibSymbol> {
    seq![
        rs_entry("Vec", "new", "std::vec::Vec::new"),
        rs_entry("Vec", "with_capacity", "std::vec::Vec::with_capacity"),
        rs_entry("Vec", "push", "std::vec::Vec::push"),
        rs_entry("Vec", "pop", "std::vec::Vec::pop"),
        rs_entry("Vec", "len", "std::vec::Vec::len"),
        rs_entry("Vec", "is_empty", "std::vec::Vec::is_empty"),
        rs_entry("Vec", "iter", "std::vec::Vec::iter"),
        rs_entry("Vec", "iter_mut", "std::vec::Vec::iter_mut"),
        rs_entry("Vec", "into_iter", "std::vec::Vec::into_iter"),
        rs_entry("Vec", "get", "std::vec::Vec::get"),
        rs_entry("Vec", "get_mut", "std::vec::Vec::get_mut"),
        rs_entry("Vec", "clone", "std::vec::Vec::clone"),
        rs_entry("Vec", "clear", "std::vec::Vec::clear"),
        rs_entry("Vec", "contains", "std::vec::Vec::contains"),
        rs_entry("Vec", "extend", "std::vec::Vec::extend"),
        rs_entry("Vec", "insert", "std::vec::Vec::insert"),
        rs_entry("Vec", "remove", "std::vec::Vec::remove"),
        rs_entry("Vec", "sort", "std::vec::Vec::sort"),
        rs_entry("Vec", "sort_by", "std::vec::Vec::sort_by"),
        rs_entry("Vec", "sort_by_key", "std::vec::Vec::sort_by_key"),
        rs_entry("Vec", "dedup", "std::vec::Vec::dedup"),
        rs_entry("Vec", "drain", "std::vec::Vec::drain"),
        rs_entry("Vec", "retain", "std::vec::Vec::retain"),
        rs_entry("Vec", "truncate", "std::vec::Vec::truncate"),
        rs_entry("Vec", "resize", "std::vec::Vec::resize"),
        rs_entry("Vec", "split_off", "std::vec::Vec::split_off"),
        rs_entry("Vec", "first", "std::vec::Vec::first"),
        rs_entry("Vec", "last", "std::vec::Vec::last"),
        rs_entry("Vec", "as_slice", "std::vec::Vec::as_slice"),
        rs_entry("Vec", "as_mut_slice", "std::vec::Vec::as_mut_slice"),
        rs_entry("VecDeque", "new", "std::collections::VecDeque::new"),
        rs_entry("VecDeque", "push_back", "std::collections::VecDeque::push_back"),
        rs_entry("VecDeque", "push_front", "std::collections::VecDeque::push_front"),
        rs_entry("VecDeque", "pop_back", "std::collections::VecDeque::pop_back"),
        rs_entry("VecDeque", "pop_front", "std::collections::VecDeque::pop_front"),
        rs_entry("VecDeque", "len", "std::collections::VecDeque::len"),
        rs_entry("VecDeque", "is_empty", "std::collections::VecDeque::is_empty"),
        rs_entry("VecDeque", "iter", "std::collections::VecDeque::iter"),
        rs_entry("HashMap", "new", "std::collections::HashMap::new"),
        rs_entry("HashMap", "with_capacity", "std::collections::HashMap::with_capacity"),
        rs_entry("HashMap", "get", "std::collections::HashMap::get"),
        rs_entry("HashMap", "get_mut", "std::collections::HashMap::get_mut"),
        rs_entry("HashMap", "insert", "std::collections::HashMap::insert"),
        rs_entry("HashMap", "remove", "std::collections::HashMap::remove"),
        rs_entry("HashMap", "contains_key", "std::collections::HashMap::contains_key"),
        rs_entry("HashMap", "iter", "std::collections::HashMap::iter"),
        rs_entry("HashMap", "iter_mut", "std::collections::HashMap::iter_mut"),
        rs_entry("HashMap", "keys", "std::collections::HashMap::keys"),
        rs_entry("HashMap", "values", "std::collections::HashMap::values"),
        rs_entry("HashMap", "values_mut", "std::collections::HashMap::values_mut"),
        rs_entry("HashMap", "len", "std::collections::HashMap::len"),
        rs_entry("HashMap", "is_empty", "std::collections::HashMap::is_empty"),
        rs_entry("HashMap", "entry", "std::collections::HashMap::entry"),
        rs_entry("HashMap", "clear", "std::collections::HashMap::clear"),
        rs_entry("HashMap", "drain", "std::collections::HashMap::drain"),
        rs_entry("HashSet", "new", "std::collections::HashSet::new"),
        rs_entry("HashSet", "with_capacity", "std::collections::HashSet::with_capacity"),
        rs_entry("HashSet", "insert", "std::collections::HashSet::insert"),
        rs_entry("HashSet", "remove", "std::collections::HashSet::remove"),
        rs_entry("HashSet", "contains", "std::collections::HashSet::contains"),
        rs_entry("HashSet", "iter", "std::collections::HashSet::iter"),
        rs_entry("HashSet", "len", "std::collections::HashSet::len"),
        rs_entry("HashSet", "is_empty", "std::collections::HashSet::is_empty"),
        rs_entry("BTreeMap", "new", "std::collections::BTreeMap::new"),
        rs_entry("BTreeMap", "get", "std::collections::BTreeMap::get"),
        rs_entry("BTreeMap", "insert", "std::collections::BTreeMap::insert"),
        rs_entry("BTreeMap", "remove", "std::collections::BTreeMap::remove"),
        rs_entry("BTreeMap", "contains_key", "std::collections::BTreeMap::contains_key"),
        rs_entry("BTreeMap", "iter", "std::collections::BTreeMap::iter"),
        rs_entry("BTreeMap", "len", "std::collections::BTreeMap::len"),
        rs_entry("BTreeSet", "new", "std::collections::BTreeSet::new"),
        rs_entry("BTreeSet", "insert", "std::collections::BTreeSet::insert"),
        rs_entry("BTreeSet", "contains", "std::collections::BTreeSet::contains"),
        rs_entry("BTreeSet", "iter", "std::collections::BTreeSet::iter"),
        rs_entry("String", "new", "std::string::String::new"),
        rs_entry("String", "with_capacity", "std::string::String::with_capacity"),
        rs_entry("String", "from", "std::string::String::from"),
        rs_entry("String", "len", "std::string::String::len"),
        rs_entry("String", "is_empty", "std::string::String::is_empty"),
        rs_entry("String", "push_str", "std::string::String::push_str"),
        rs_entry("String", "push", "std::string::String::push"),
        rs_entry("String", "pop", "std::string::String::pop"),
        rs_entry("String", "clone", "std::string::String::clone"),
        rs_entry("String", "to_string", "std::string::String::to_string"),
        rs_entry("String", "as_str", "std::string::String::as_str"),
        rs_entry("String", "chars", "std::string::String::chars"),
        rs_entry("String", "bytes", "std::string::String::bytes"),
        rs_entry("String", "split", "std::string::String::split"),
        rs_entry("String", "splitn", "std::string::String::splitn"),
        rs_entry("String", "trim", "std::string::String::trim"),
        rs_entry("String", "trim_start", "std::string::String::trim_start"),
        rs_entry("String", "trim_end", "std::string::String::trim_end"),
        rs_entry("String", "contains", "std::string::String::contains"),
        rs_entry("String", "starts_with", "std::string::String::starts_with"),
        rs_entry("String", "ends_with", "std::string::String::ends_with"),
        rs_entry("String", "replace", "std::string::String::replace"),
        rs_entry("String", "to_uppercase", "std::string::String::to_uppercase"),
        rs_entry("String", "to_lowercase", "std::string::String::to_lowercase"),
        rs_entry("String", "parse", "std::string::String::parse"),
        rs_entry("Option", "unwrap", "std::option::Option::unwrap"),
        rs_entry("Option", "unwrap_or", "std::option::Option::unwrap_or"),
        rs_entry("Option", "unwrap_or_else", "std::option::Option::unwrap_or_else"),
        rs_entry("Option", "unwrap_or_default", "std::option::Option::unwrap_or_default"),
        rs_entry("Option", "expect", "std::option::Option::expect"),
        rs_entry("Option", "is_some", "std::option::Option::is_some"),
        rs_entry("Option", "is_none", "std::option::Option::is_none"),
        rs_entry("Option", "as_ref", "std::option::Option::as_ref"),
        rs_entry("Option", "as_mut", "std::option::Option::as_mut"),
        rs_entry("Option", "take", "std::option::Option::take"),
        rs_entry("Option", "replace", "std::option::Option::replace"),
        rs_entry("Option", "map", "std::option::Option::map"),
        rs_entry("Option", "and_then", "std::option::Option::and_then"),
        rs_entry("Option", "or", "std::option::Option::or"),
        rs_entry("Option", "or_else", "std::option::Option::or_else"),
        rs_entry("Option", "ok_or", "std::option::Option::ok_or"),
        rs_entry("Option", "ok_or_else", "std::option::Option::ok_or_else"),
        rs_entry("Result", "unwrap", "std::result::Result::unwrap"),
        rs_entry("Result", "unwrap_or", "std::result::Result::unwrap_or"),
        rs_entry("Result", "unwrap_or_else", "std::result::Result::unwrap_or_else"),
        rs_entry("Result", "expect", "std::result::Result::expect"),
        rs_entry("Result", "is_ok", "std::result::Result::is_ok"),
        rs_entry("Result", "is_err", "std::result::Result::is_err"),
        rs_entry("Result", "ok", "std::result::Result::ok"),
        rs_entry("Result", "err", "std::result::Result::err"),
        rs_entry("Result", "map", "std::result::Result::map"),
        rs_entry("Result", "map_err", "std::result::Result::map_err"),
        rs_entry("Result", "and_then", "std::result::Result::and_then"),
        rs_entry("Result", "or", "std::result::Result::or"),
        rs_entry("Result", "or_else", "std::result::Result::or_else"),
        rs_entry("Iterator", "next", "std::iter::Iterator::next"),
        rs_entry("Iterator", "map", "std::iter::Iterator::map"),
        rs_entry("Iterator", "filter", "std::iter::Iterator::filter"),
        rs_entry("Iterator", "fold", "std::iter::Iterator::fold"),
        rs_entry("Iterator", "sum", "std::iter::Iterator::sum"),
        rs_entry("Iterator", "count", "std::iter::Iterator::count"),
        rs_entry("Iterator", "min", "std::iter::Iterator::min"),
        rs_entry("Iterator", "max", "std::iter::Iterator::max"),
        rs_entry("Iterator", "collect", "std::iter::Iterator::collect"),
        rs_entry("Iterator", "enumerate", "std::iter::Iterator::enumerate"),
        rs_entry("Iterator", "zip", "std::iter::Iterator::zip"),
        rs_entry("Iterator", "chain", "std::iter::Iterator::chain"),
        rs_entry("Iterator", "flat_map", "std::iter::Iterator::flat_map"),
        rs_entry("Iterator", "filter_map", "std::iter::Iterator::filter_map"),
        rs_entry("Iterator", "take", "std::iter::Iterator::take"),
        rs_entry("Iterator", "skip", "std::iter::Iterator::skip"),
        rs_entry("Iterator", "peekable", "std::iter::Iterator::peekable"),
        rs_entry("Iterator", "rev", "std::iter::Iterator::rev"),
        rs_entry("Iterator", "any", "std::iter::Iterator::any"),
        rs_entry("Iterator", "all", "std::iter::Iterator::all"),
        rs_entry("Iterator", "find", "std::iter::Iterator::find"),
        rs_entry("Iterator", "position", "std::iter::Iterator::position"),
        rs_entry("Iterator", "cloned", "std::iter::Iterator::cloned"),
        rs_entry("Iterator", "copied", "std::iter::Iterator::copied"),
        rs_entry("Box", "new", "std::boxed::Box::new"),
        rs_entry("Box", "as_ref", "std::boxed::Box::as_ref"),
        rs_entry("Box", "as_mut", "std::boxed::Box::as_mut"),
        rs_entry("Rc", "new", "std::rc::Rc::new"),
        rs_entry("Rc", "clone", "std::rc::Rc::clone"),
        rs_entry("Rc", "strong_count", "std::rc::Rc::strong_count"),
        rs_entry("Rc", "weak_count", "std::rc::Rc::weak_count"),
        rs_entry("Arc", "new", "std::sync::Arc::new"),
        rs_entry("Arc", "clone", "std::sync::Arc::clone"),
        rs_entry("Arc", "strong_count", "std::sync::Arc::strong_count"),
        rs_entry("Arc", "weak_count", "std::sync::Arc::weak_count"),
        rs_entry("RefCell", "new", "std::cell::RefCell::new"),
        rs_entry("RefCell", "borrow", "std::cell::RefCell::borrow"),
        rs_entry("RefCell", "borrow_mut", "std::cell::RefCell::borrow_mut"),
        rs_entry("RefCell", "replace", "std::cell::RefCell::replace"),
        rs_entry("RefCell", "take", "std::cell::RefCell::take"),
        rs_entry("Cell", "new", "std::cell::Cell::new"),
        rs_entry("Cell", "get", "std::cell::Cell::get"),
        rs_entry("Cell", "set", "std::cell::Cell::set"),
        rs_entry("Cell", "replace", "std::cell::Cell::replace"),
        rs_entry("Cell", "take", "std::cell::Cell::take"),
        rs_entry("Mutex", "new", "std::sync::Mutex::new"),
        rs_entry("Mutex", "lock", "std::sync::Mutex::lock"),
        rs_entry("Mutex", "try_lock", "std::sync::Mutex::try_lock"),
        rs_entry("RwLock", "new", "std::sync::RwLock::new"),
        rs_entry("RwLock", "read", "std::sync::RwLock::read"),
        rs_entry("RwLock", "write", "std::sync::RwLock::write"),
        rs_entry("Path", "new", "std::path::Path::new"),
        rs_entry("Path", "exists", "std::path::Path::exists"),
        rs_entry("Path", "is_dir", "std::path::Path::is_dir"),
        rs_entry("Path", "is_file", "std::path::Path::is_file"),
        rs_entry("Path", "to_str", "std::path::Path::to_str"),
        rs_entry("Path", "extension", "std::path::Path::extension"),
        rs_entry("Path", "file_name", "std::path::Path::file_name"),
        rs_entry("Path", "parent", "std::path::Path::parent"),
        rs_entry("PathBuf", "new", "std::path::PathBuf::new"),
        rs_entry("PathBuf", "join", "std::path::PathBuf::join"),
        rs_entry("PathBuf", "push", "std::path::PathBuf::push"),
        rs_entry("PathBuf", "pop", "std::path::PathBuf::pop"),
        rs_entry("Read", "read", "std::io::Read::read"),
        rs_entry("Read", "read_to_string", "std::io::Read::read_to_string"),
        rs_entry("Write", "write", "std::io::Write::write"),
        rs_entry("Write", "write_all", "std::io::Write::write_all"),
        rs_entry("Write", "flush", "std::io::Write::flush"),
        rs_entry("BufRead", "read_line", "std::io::BufRead::read_line"),
        rs_entry("BufRead", "lines", "std::io::BufRead::lines"),
        rs_entry("Display", "fmt", "std::fmt::Display::fmt"),
        rs_entry("Debug", "fmt", "std::fmt::Debug::fmt"),
    ]
}

fn rs(receiver_type: &'static str, method_name: &'static str, canonical_path: &'static str) -> (r: StdlibSymbol)
    ensures
        r == rs_entry(receiver_type, method_name, canonical_path),
        r.language@ == "rust"@,
{
    StdlibSymbol { receiver_type, method_name, canonical_path, is_method: true, language: "rust" }
}

/// The rust standard-library table.
pub struct RustStdlib;

impl StdlibTable for RustStdlib {
    open spec fn spec_language(&self) -> Seq<char> {
        "rust"@
    }

    open spec fn spec_symbols(&self) -> Seq<StdlibSymbol> {
        rust_symbols()
    }

    fn language(&self) -> (r: &'static str) {
        "rust"
    }

    fn symbols(&self) -> (r: Vec<StdlibSymbol>) {
        let v: Vec<StdlibSymbol> = vec![
            rs("Vec", "new", "std::vec::Vec::new"),
            rs("Vec", "with_capacity", "std::vec::Vec::with_capacity"),
            rs("Vec", "push", "std::vec::Vec::push"),
            rs("Vec", "pop", "std::vec::Vec::pop"),
            rs("Vec", "len", "std::vec::Vec::len"),
            rs("Vec", "is_empty", "std::vec::Vec::is_empty"),
            rs("Vec", "iter", "std::vec::Vec::iter"),
            rs("Vec", "iter_mut", "std::vec::Vec::iter_mut"),
            rs("Vec", "into_iter", "std::vec::Vec::into_iter"),
            rs("Vec", "get", "std::vec::Vec::get"),
            rs("Vec", "get_mut", "std::vec::Vec::get_mut"),
            rs("Vec", "clone", "std::vec::Vec::clone"),
            rs("Vec", "clear", "std::vec::Vec::clear"),
            rs("Vec", "contains", "std::vec::Vec::contains"),
            rs("Vec", "extend", "std::vec::Vec::extend"),
            rs("Vec", "insert", "std::vec::Vec::insert"),
            rs("Vec", "remove", "std::vec::Vec::remove"),
            rs("Vec", "sort", "std::vec::Vec::sort"),
            rs("Vec", "sort_by", "std::vec::Vec::sort_by"),
            rs("Vec", "sort_by_key", "std::vec::Vec::sort_by_key"),
            rs("Vec", "dedup", "std::vec::Vec::dedup"),
            rs("Vec", "drain", "std::vec::Vec::drain"),
            rs("Vec", "retain", "std::vec::Vec::retain"),
            rs("Vec", "truncate", "std::vec::Vec::truncate"),
            rs("Vec", "resize", "std::vec::Vec::resize"),
            rs("Vec", "split_off", "std::vec::Vec::split_off"),
            rs("Vec", "first", "std::vec::Vec::first"),
            rs("Vec", "last", "std::vec::Vec::last"),
            rs("Vec", "as_slice", "std::vec::Vec::as_slice"),
            rs("Vec", "as_mut_slice", "std::vec::Vec::as_mut_slice"),
            rs("VecDeque", "new", "std::collections::VecDeque::new"),
            rs("VecDeque", "push_back", "std::collections::VecDeque::push_back"),
            rs("VecDeque", "push_front", "std::collections::VecDeque::push_front"),
            rs("VecDeque", "pop_back", "std::collections::VecDeque::pop_back"),
            rs("VecDeque", "pop_front", "std::collections::VecDeque::pop_front"),
            rs("VecDeque", "len", "std::collections::VecDeque::len"),
            rs("VecDeque", "is_empty", "std::collections::VecDeque::is_empty"),
            rs("VecDeque", "iter", "std::collections::VecDeque::iter"),
            rs("HashMap", "new", "std::collections::HashMap::new"),
            rs("HashMap", "with_capacity", "std::collections::HashMap::with_capacity"),
            rs("HashMap", "get", "std::collections::HashMap::get"),
            rs("HashMap", "get_mut", "std::collections::HashMap::get_mut"),
            rs("HashMap", "insert", "std::collections::HashMap::insert"),
            rs("HashMap", "remove", "std::collections::HashMap::remove"),
            rs("HashMap", "contains_key", "std::collections::HashMap::contains_key"),
            rs("HashMap", "iter", "std::collections::HashMap::iter"),
            rs("HashMap", "iter_mut", "std::collections::HashMap::iter_mut"),
            rs("HashMap", "keys", "std::collections::HashMap::keys"),
            rs("HashMap", "values", "std::collections::HashMap::values"),
            rs("HashMap", "values_mut", "std::collections::HashMap::values_mut"),
            rs("HashMap", "len", "std::collections::HashMap::len"),
            rs("HashMap", "is_empty", "std::collections::HashMap::is_empty"),
            rs("HashMap", "entry", "std::collections::HashMap::entry"),
            rs("HashMap", "clear", "std::collections::HashMap::clear"),
            rs("HashMap", "drain", "std::collections::HashMap::drain"),
            rs("HashSet", "new", "std::collections::HashSet::new"),
            rs("HashSet", "with_capacity", "std::collections::HashSet::with_capacity"),
            rs("HashSet", "insert", "std::collections::HashSet::insert"),
            rs("HashSet", "remove", "std::collections::HashSet::remove"),
            rs("HashSet", "contains", "std::collections::HashSet::contains"),
            rs("HashSet", "iter", "std::collections::HashSet::iter"),
            rs("HashSet", "len", "std::collections::HashSet::len"),
            rs("HashSet", "is_empty", "std::collections::HashSet::is_empty"),
            rs("BTreeMap", "new", "std::collections::BTreeMap::new"),
            rs("BTreeMap", "get", "std::collections::BTreeMap::get"),
            rs("BTreeMap", "insert", "std::collections::BTreeMap::insert"),
            rs("BTreeMap", "remove", "std::collections::BTreeMap::remove"),
            rs("BTreeMap", "contains_key", "std::collections::BTreeMap::contains_key"),
            rs("BTreeMap", "iter", "std::collections::BTreeMap::iter"),
            rs("BTreeMap", "len", "std::collections::BTreeMap::len"),
            rs("BTreeSet", "new", "std::collections::BTreeSet::new"),
            rs("BTreeSet", "insert", "std::collections::BTreeSet::insert"),
            rs("BTreeSet", "contains", "std::collections::BTreeSet::contains"),
            rs("BTreeSet", "iter", "std::collections::BTreeSet::iter"),
            rs("String", "new", "std::string::String::new"),
            rs("String", "with_capacity", "std::string::String::with_capacity"),
            rs("String", "from", "std::string::String::from"),
            rs("String", "len", "std::string::String::len"),
            rs("String", "is_empty", "std::string::String::is_empty"),
            rs("String", "push_str", "std::string::String::push_str"),
            rs("String", "push", "std::string::String::push"),
            rs("String", "pop", "std::string::String::pop"),
            rs("String", "clone", "std::string::String::clone"),
            rs("String", "to_string", "std::string::String::to_string"),
            rs("String", "as_str", "std::string::String::as_str"),
            rs("String", "chars", "std::string::String::chars"),
            rs("String", "bytes", "std::string::String::bytes"),
            rs("String", "split", "std::string::String::split"),
            rs("String", "splitn", "std::string::String::splitn"),
            rs("String", "trim", "std::string::String::trim"),
            rs("String", "trim_start", "std::string::String::trim_start"),
            rs("String", "trim_end", "std::string::String::trim_end"),
            rs("String", "contains", "std::string::String::contains"),
            rs("String", "starts_with", "std::string::String::starts_with"),
            rs("String", "ends_with", "std::string::String::ends_with"),
            rs("String", "replace", "std::string::String::replace"),
            rs("String", "to_uppercase", "std::string::String::to_uppercase"),
            rs("String", "to_lowercase", "std::string::String::to_lowercase"),
            rs("String", "parse", "std::string::String::parse"),
            rs("Option", "unwrap", "std::option::Option::unwrap"),
            rs("Option", "unwrap_or", "std::option::Option::unwrap_or"),
            rs("Option", "unwrap_or_else", "std::option::Option::unwrap_or_else"),
            rs("Option", "unwrap_or_default", "std::option::Option::unwrap_or_default"),
            rs("Option", "expect", "std::option::Option::expect"),
            rs("Option", "is_some", "std::option::Option::is_some"),
            rs("Option", "is_none", "std::option::Option::is_none"),
            rs("Option", "as_ref", "std::option::Option::as_ref"),
            rs("Option", "as_mut", "std::option::Option::as_mut"),
            rs("Option", "take", "std::option::Option::take"),
            rs("Option", "replace", "std::option::Option::replace"),
            rs("Option", "map", "std::option::Option::map"),
            rs("Option", "and_then", "std::option::Option::and_then"),
            rs("Option", "or", "std::option::Option::or"),
            rs("Option", "or_else", "std::option::Option::or_else"),
            rs("Option", "ok_or", "std::option::Option::ok_or"),
            rs("Option", "ok_or_else", "std::option::Option::ok_or_else"),
            rs("Result", "unwrap", "std::result::Result::unwrap"),
            rs("Result", "unwrap_or", "std::result::Result::unwrap_or"),
            rs("Result", "unwrap_or_else", "std::result::Result::unwrap_or_else"),
            rs("Result", "expect", "std::result::Result::expect"),
            rs("Result", "is_ok", "std::result::Result::is_ok"),
            rs("Result", "is_err", "std::result::Result::is_err"),
            rs("Result", "ok", "std::result::Result::ok"),
            rs("Result", "err", "std::result::Result::err"),
            rs("Result", "map", "std::result::Result::map"),
            rs("Result", "map_err", "std::result::Result::map_err"),
            rs("Result", "and_then", "std::result::Result::and_then"),
            rs("Result", "or", "std::result::Result::or"),
            rs("Result", "or_else", "std::result::Result::or_else"),
            rs("Iterator", "next", "std::iter::Iterator::next"),
            rs("Iterator", "map", "std::iter::Iterator::map"),
            rs("Iterator", "filter", "std::iter::Iterator::filter"),
            rs("Iterator", "fold", "std::iter::Iterator::fold"),
            rs("Iterator", "sum", "std::iter::Iterator::sum"),
            rs("Iterator", "count", "std::iter::Iterator::count"),
            rs("Iterator", "min", "std::iter::Iterator::min"),
            rs("Iterator", "max", "std::iter::Iterator::max"),
            rs("Iterator", "collect", "std::iter::Iterator::collect"),
            rs("Iterator", "enumerate", "std::iter::Iterator::enumerate"),
            rs("Iterator", "zip", "std::iter::Iterator::zip"),
            rs("Iterator", "chain", "std::iter::Iterator::chain"),
            rs("Iterator", "flat_map", "std::iter::Iterator::flat_map"),
            rs("Iterator", "filter_map", "std::iter::Iterator::filter_map"),
            rs("Iterator", "take", "std::iter::Iterator::take"),
            rs("Iterator", "skip", "std::iter::Iterator::skip"),
            rs("Iterator", "peekable", "std::iter::Iterator::peekable"),
            rs("Iterator", "rev", "std::iter::Iterator::rev"),
            rs("Iterator", "any", "std::iter::Iterator::any"),
            rs("Iterator", "all", "std::iter::Iterator::all"),
            rs("Iterator", "find", "std::iter::Iterator::find"),
            rs("Iterator", "position", "std::iter::Iterator::position"),
            rs("Iterator", "cloned", "std::iter::Iterator::cloned"),
            rs("Iterator", "copied", "std::iter::Iterator::copied"),
            rs("Box", "new", "std::boxed::Box::new"),
            rs("Box", "as_ref", "std::boxed::Box::as_ref"),
            rs("Box", "as_mut", "std::boxed::Box::as_mut"),
            rs("Rc", "new", "std::rc::Rc::new"),
            rs("Rc", "clone", "std::rc::Rc::clone"),
            rs("Rc", "strong_count", "std::rc::Rc::strong_count"),
            rs("Rc", "weak_count", "std::rc::Rc::weak_count"),
            rs("Arc", "new", "std::sync::Arc::new"),
            rs("Arc", "clone", "std::sync::Arc::clone"),
            rs("Arc", "strong_count", "std::sync::Arc::strong_count"),
            rs("Arc", "weak_count", "std::sync::Arc::weak_count"),
            rs("RefCell", "new", "std::cell::RefCell::new"),
            rs("RefCell", "borrow", "std::cell::RefCell::borrow"),
            rs("RefCell", "borrow_mut", "std::cell::RefCell::borrow_mut"),
            rs("RefCell", "replace", "std::cell::RefCell::replace"),
            rs("RefCell", "take", "std::cell::RefCell::take"),
            rs("Cell", "new", "std::cell::Cell::new"),
            rs("Cell", "get", "std::cell::Cell::get"),
            rs("Cell", "set", "std::cell::Cell::set"),
            rs("Cell", "replace", "std::cell::Cell::replace"),
            rs("Cell", "take", "std::cell::Cell::take"),
            rs("Mutex", "new", "std::sync::Mutex::new"),
            rs("Mutex", "lock", "std::sync::Mutex::lock"),
            rs("Mutex", "try_lock", "std::sync::Mutex::try_lock"),
            rs("RwLock", "new", "std::sync::RwLock::new"),
            rs("RwLock", "read", "std::sync::RwLock::read"),
            rs("RwLock", "write", "std::sync::RwLock::write"),
            rs("Path", "new", "std::path::Path::new"),
            rs("Path", "exists", "std::path::Path::exists"),
            rs("Path", "is_dir", "std::path::Path::is_dir"),
            rs("Path", "is_file", "std::path::Path::is_file"),
            rs("Path", "to_str", "std::path::Path::to_str"),
            rs("Path", "extension", "std::path::Path::extension"),
            rs("Path", "file_name", "std::path::Path::file_name"),
            rs("Path", "parent", "std::path::Path::parent"),
            rs("PathBuf", "new", "std::path::PathBuf::new"),
            rs("PathBuf", "join", "std::path::PathBuf::join"),
            rs("PathBuf", "push", "std::path::PathBuf::push"),
            rs("PathBuf", "pop", "std::path::PathBuf::pop"),
            rs("Read", "read", "std::io::Read::read"),
            rs("Read", "read_to_string", "std::io::Read::read_to_string"),
            rs("Write", "write", "std::io::Write::write"),
            rs("Write", "write_all", "std::io::Write::write_all"),
            rs("Write", "flush", "std::io::Write::flush"),
            rs("BufRead", "read_line", "std::io::BufRead::read_line"),
            rs("BufRead", "lines", "std::io::BufRead::lines"),
            rs("Display", "fmt", "std::fmt::Display::fmt"),
            rs("Debug", "fmt", "std::fmt::Debug::fmt"),
        ];
        proof {
            assert(v@ =~= self.spec_symbols());
        }
        v
    }
}

/// The python table entry for `receiver_type.method_name`.
pub open spec fn py_entry(receiver_type: &'static str, method_name: &'static str, canonical_path: &'static str) -> StdlibSymbol {
    StdlibSymbol { receiver_type, method_name, canonical_path, is_method: true, language: "python" }
}

/// Every entry of the python table, in order.
pub open spec fn python_symbols() -> Seq<StdlibSymbol> {
    seq![
        py_entry("list", "append", "builtins.list.append"),
        py_entry("list", "extend", "builtins.list.extend"),
        py_entry("list", "insert", "builtins.list.insert"),
        py_entry("list", "remove", "builtins.list.remove"),
        py_entry("list", "pop", "builtins.list.pop"),
        py_entry("list", "clear", "builtins.list.clear"),
        py_entry("list", "index", "builtins.list.index"),
        py_entry("list", "count", "builtins.list.count"),
        py_entry("list", "sort", "builtins.list.sort"),
        py_entry("list", "reverse", "builtins.list.reverse"),
        py_entry("list", "copy", "builtins.list.copy"),
        py_entry("dict", "get", "builtins.dict.get"),
        py_entry("dict", "keys", "builtins.dict.keys"),
        py_entry("dict", "values", "builtins.dict.values"),
        py_entry("dict", "items", "builtins.dict.items"),
        py_entry("dict", "update", "builtins.dict.update"),
        py_entry("dict", "pop", "builtins.dict.pop"),
        py_entry("dict", "popitem", "builtins.dict.popitem"),
        py_entry("dict", "setdefault", "builtins.dict.setdefault"),
        py_entry("dict", "clear", "builtins.dict.clear"),
        py_entry("dict", "copy", "builtins.dict.copy"),
        py_entry("str", "split", "builtins.str.split"),
        py_entry("str", "rsplit", "builtins.str.rsplit"),
        py_entry("str", "splitlines", "builtins.str.splitlines"),
        py_entry("str", "join", "builtins.str.join"),
        py_entry("str", "strip", "builtins.str.strip"),
        py_entry("str", "lstrip", "builtins.str.lstrip"),
        py_entry("str", "rstrip", "builtins.str.rstrip"),
        py_entry("str", "replace", "builtins.str.replace"),
        py_entry("str", "find", "builtins.str.find"),
        py_entry("str", "rfind", "builtins.str.rfind"),
        py_entry("str", "index", "builtins.str.index"),
        py_entry("str", "count", "builtins.str.count"),
        py_entry("str", "startswith", "builtins.str.startswith"),
        py_entry("str", "endswith", "builtins.str.endswith"),
        py_entry("str", "upper", "builtins.str.upper"),
        py_entry("str", "lower", "builtins.str.lower"),
        py_entry("str", "capitalize", "builtins.str.capitalize"),
        py_entry("str", "title", "builtins.str.title"),
        py_entry("str", "format", "builtins.str.format"),
        py_entry("str", "encode", "builtins.str.encode"),
        py_entry("str", "isdigit", "builtins.str.isdigit"),
        py_entry("str", "isalpha", "builtins.str.isalpha"),
        py_entry("str", "isalnum", "builtins.str.isalnum"),
        py_entry("str", "isspace", "builtins.str.isspace"),
        py_entry("set", "add", "builtins.set.add"),
        py_entry("set", "remove", "builtins.set.remove"),
        py_entry("set", "discard", "builtins.set.discard"),
        py_entry("set", "pop", "builtins.set.pop"),
        py_entry("set", "clear", "builtins.set.clear"),
        py_entry("set", "union", "builtins.set.union"),
        py_entry("set", "intersection", "builtins.set.intersection"),
        py_entry("set", "difference", "builtins.set.difference"),
        py_entry("set", "update", "builtins.set.update"),
        py_entry("set", "copy", "builtins.set.copy"),
        py_entry("tuple", "count", "builtins.tuple.count"),
        py_entry("tuple", "index", "builtins.tuple.index"),
        py_entry("os", "getcwd", "os.getcwd"),
        py_entry("os", "chdir", "os.chdir"),
        py_entry("os", "listdir", "os.listdir"),
        py_entry("os", "mkdir", "os.mkdir"),
        py_entry("os", "makedirs", "os.makedirs"),
        py_entry("os", "remove", "os.remove"),
        py_entry("os", "rename", "os.rename"),
        py_entry("os", "walk", "os.walk"),
        py_entry("os.path", "join", "os.path.join"),
        py_entry("os.path", "exists", "os.path.exists"),
        py_entry("os.path", "isfile", "os.path.isfile"),
        py_entry("os.path", "isdir", "os.path.isdir"),
        py_entry("os.path", "dirname", "os.path.dirname"),
        py_entry("os.path", "basename", "os.path.basename"),
        py_entry("os.path", "splitext", "os.path.splitext"),
        py_entry("os.path", "abspath", "os.path.abspath"),
        py_entry("sys", "exit", "sys.exit"),
        py_entry("sys", "argv", "sys.argv"),
        py_entry("sys", "stdout", "sys.stdout"),
        py_entry("sys", "stderr", "sys.stderr"),
        py_entry("json", "loads", "json.loads"),
        py_entry("json", "dumps", "json.dumps"),
        py_entry("json", "load", "json.load"),
        py_entry("json", "dump", "json.dump"),
        py_entry("re", "match", "re.match"),
        py_entry("re", "search", "re.search"),
        py_entry("re", "findall", "re.findall"),
        py_entry("re", "sub", "re.sub"),
        py_entry("re", "compile", "re.compile"),
        py_entry("re", "split", "re.split"),
    ]
}

fn py(receiver_type: &'static str, method_name: &'static str, canonical_path: &'static str) -> (r: StdlibSymbol)
    ensures
        r == py_entry(receiver_type, method_name, canonical_path),
        r.language@ == "python"@,
{
    StdlibSymbol { receiver_type, method_name, canonical_path, is_method: true, language: "python" }
}

/// The python standard-library table.
pub struct PythonStdlib;

impl StdlibTable for PythonStdlib {
    open spec fn spec_language(&self) -> Seq<char> {
        "python"@
    }

    open spec fn spec_symbols(&self) -> Seq<StdlibSymbol> {
        python_symbols()
    }

    fn language(&self) -> (r: &'static str) {
        "python"
    }

    fn symbols(&self) -> (r: Vec<StdlibSymbol>) {
        let v: Vec<StdlibSymbol> = vec![
            py("list", "append", "builtins.list.append"),
            py("list", "extend", "builtins.list.extend"),
            py("list", "insert", "builtins.list.insert"),
            py("list", "remove", "builtins.list.remove"),
            py("list", "pop", "builtins.list.pop"),
            py("list", "clear", "builtins.list.clear"),
            py("list", "index", "builtins.list.index"),
            py("list", "count", "builtins.list.count"),
            py("list", "sort", "builtins.list.sort"),
            py("list", "reverse", "builtins.list.reverse"),
            py("list", "copy", "builtins.list.copy"),
            py("dict", "get", "builtins.dict.get"),
            py("dict", "keys", "builtins.dict.keys"),
            py("dict", "values", "builtins.dict.values"),
            py("dict", "items", "builtins.dict.items"),
            py("dict", "update", "builtins.dict.update"),
            py("dict", "pop", "builtins.dict.pop"),
            py("dict", "popitem", "builtins.dict.popitem"),
            py("dict", "setdefault", "builtins.dict.setdefault"),
            py("dict", "clear", "builtins.dict.clear"),
            py("dict", "copy", "builtins.dict.copy"),
            py("str", "split", "builtins.str.split"),
            py("str", "rsplit", "builtins.str.rsplit"),
            py("str", "splitlines", "builtins.str.splitlines"),
            py("str", "join", "builtins.str.join"),
            py("str", "strip", "builtins.str.strip"),
            py("str", "lstrip", "builtins.str.lstrip"),
            py("str", "rstrip", "builtins.str.rstrip"),
            py("str", "replace", "builtins.str.replace"),
            py("str", "find", "builtins.str.find"),
            py("str", "rfind", "builtins.str.rfind"),
            py("str", "index", "builtins.str.index"),
            py("str", "count", "builtins.str.count"),
            py("str", "startswith", "builtins.str.startswith"),
            py("str", "endswith", "builtins.str.endswith"),
            py("str", "upper", "builtins.str.upper"),
            py("str", "lower", "builtins.str.lower"),
            py("str", "capitalize", "builtins.str.capitalize"),
            py("str", "title", "builtins.str.title"),
            py("str", "format", "builtins.str.format"),
            py("str", "encode", "builtins.str.encode"),
            py("str", "isdigit", "builtins.str.isdigit"),
            py("str", "isalpha", "builtins.str.isalpha"),
            py("str", "isalnum", "builtins.str.isalnum"),
            py("str", "isspace", "builtins.str.isspace"),
            py("set", "add", "builtins.set.add"),
            py("set", "remove", "builtins.set.remove"),
            py("set", "discard", "builtins.set.discard"),
            py("set", "pop", "builtins.set.pop"),
            py("set", "clear", "builtins.set.clear"),
            py("set", "union", "builtins.set.union"),
            py("set", "intersection", "builtins.set.intersection"),
            py("set", "difference", "builtins.set.difference"),
            py("set", "update", "builtins.set.update"),
            py("set", "copy", "builtins.set.copy"),
            py("tuple", "count", "builtins.tuple.count"),
            py("tuple", "index", "builtins.tuple.index"),
            py("os", "getcwd", "os.getcwd"),
            py("os", "chdir", "os.chdir"),
            py("os", "listdir", "os.listdir"),
            py("os", "mkdir", "os.mkdir"),
            py("os", "makedirs", "os.makedirs"),
            py("os", "remove", "os.remove"),
            py("os", "rename", "os.rename"),
            py("os", "walk", "os.walk"),
            py("os.path", "join", "os.path.join"),
            py("os.path", "exists", "os.path.exists"),
            py("os.path", "isfile", "os.path.isfile"),
            py("os.path", "isdir", "os.path.isdir"),
            py("os.path", "dirname", "os.path.dirname"),
            py("os.path", "basename", "os.path.basename"),
            py("os.path", "splitext", "os.path.splitext"),
            py("os.path", "abspath", "os.path.abspath"),
            py("sys", "exit", "sys.exit"),
            py("sys", "argv", "sys.argv"),
            py("sys", "stdout", "sys.stdout"),
            py("sys", "stderr", "sys.stderr"),
            py("json", "loads", "json.loads"),
            py("json", "dumps", "json.dumps"),
            py("json", "load", "json.load"),
            py("json", "dump", "json.dump"),
            py("re", "match", "re.match"),
            py("re", "search", "re.search"),
            py("re", "findall", "re.findall"),
            py("re", "sub", "re.sub"),
            py("re", "compile", "re.compile"),
            py("re", "split", "re.split"),
        ];
        proof {
            assert(v@ =~= self.spec_symbols());
        }
        v
    }
}

/// The typescript table entry for `receiver_type.method_name`.
pub open spec fn ts_entry(receiver_type: &'static str, method_name: &'static str, canonical_path: &'static str) -> StdlibSymbol {
    StdlibSymbol { receiver_type, method_name, canonical_path, is_method: true, language: "typescript" }
}

/// Every entry of the typescript table, in order.
pub open spec fn typescript_symbols() -> Seq<StdlibSymbol> {
    seq![
        ts_entry("Array", "push", "Array.prototype.push"),
        ts_entry("Array", "pop", "Array.prototype.pop"),
        ts_entry("Array", "shift", "Array.prototype.shift"),
        ts_entry("Array", "unshift", "Array.prototype.unshift"),
        ts_entry("Array", "slice", "Array.prototype.slice"),
        ts_entry("Array", "splice", "Array.prototype.splice"),
        ts_entry("Array", "concat", "Array.prototype.concat"),
        ts_entry("Array", "join", "Array.prototype.join"),
        ts_entry("Array", "reverse", "Array.prototype.reverse"),
        ts_entry("Array", "sort", "Array.prototype.sort"),
        ts_entry("Array", "map", "Array.prototype.map"),
        ts_entry("Array", "filter", "Array.prototype.filter"),
        ts_entry("Array", "forEach", "Array.prototype.forEach"),
        ts_entry("Array", "reduce", "Array.prototype.reduce"),
        ts_entry("Array", "reduceRight", "Array.prototype.reduceRight"),
        ts_entry("Array", "find", "Array.prototype.find"),
        ts_entry("Array", "findIndex", "Array.prototype.findIndex"),
        ts_entry("Array", "indexOf", "Array.prototype.indexOf"),
        ts_entry("Array", "lastIndexOf", "Array.prototype.lastIndexOf"),
        ts_entry("Array", "includes", "Array.prototype.includes"),
        ts_entry("Array", "some", "Array.prototype.some"),
        ts_entry("Array", "every", "Array.prototype.every"),
        ts_entry("Array", "flat", "Array.prototype.flat"),
        ts_entry("Array", "flatMap", "Array.prototype.flatMap"),
        ts_entry("Array", "entries", "Array.prototype.entries"),
        ts_entry("Array", "keys", "Array.prototype.keys"),
        ts_entry("Array", "values", "Array.prototype.values"),
        ts_entry("Array", "from", "Array.from"),
        ts_entry("Array", "isArray", "Array.isArray"),
        ts_entry("Array", "of", "Array.of"),
        ts_entry("String", "charAt", "String.prototype.charAt"),
        ts_entry("String", "charCodeAt", "String.prototype.charCodeAt"),
        ts_entry("String", "concat", "String.prototype.concat"),
        ts_entry("String", "includes", "String.prototype.includes"),
        ts_entry("String", "indexOf", "String.prototype.indexOf"),
        ts_entry("String", "lastIndexOf", "String.prototype.lastIndexOf"),
        ts_entry("String", "match", "String.prototype.match"),
        ts_entry("String", "matchAll", "String.prototype.matchAll"),
        ts_entry("String", "padStart", "String.prototype.padStart"),
        ts_entry("String", "padEnd", "String.prototype.padEnd"),
        ts_entry("String", "repeat", "String.prototype.repeat"),
        ts_entry("String", "replace", "String.prototype.replace"),
        ts_entry("String", "replaceAll", "String.prototype.replaceAll"),
        ts_entry("String", "slice", "String.prototype.slice"),
        ts_entry("String", "split", "String.prototype.split"),
        ts_entry("String", "startsWith", "String.prototype.startsWith"),
        ts_entry("String", "endsWith", "String.prototype.endsWith"),
        ts_entry("String", "toLowerCase", "String.prototype.toLowerCase"),
        ts_entry("String", "toUpperCase", "String.prototype.toUpperCase"),
        ts_entry("String", "trim", "String.prototype.trim"),
        ts_entry("String", "trimStart", "String.prototype.trimStart"),
        ts_entry("String", "trimEnd", "String.prototype.trimEnd"),
        ts_entry("Object", "keys", "Object.keys"),
        ts_entry("Object", "values", "Object.values"),
        ts_entry("Object", "entries", "Object.entries"),
        ts_entry("Object", "assign", "Object.assign"),
        ts_entry("Object", "freeze", "Object.freeze"),
        ts_entry("Object", "fromEntries", "Object.fromEntries"),
        ts_entry("Map", "get", "Map.prototype.get"),
        ts_entry("Map", "set", "Map.prototype.set"),
        ts_entry("Map", "has", "Map.prototype.has"),
        ts_entry("Map", "delete", "Map.prototype.delete"),
        ts_entry("Map", "clear", "Map.prototype.clear"),
        ts_entry("Map", "forEach", "Map.prototype.forEach"),
        ts_entry("Set", "add", "Set.prototype.add"),
        ts_entry("Set", "has", "Set.prototype.has"),
        ts_entry("Set", "delete", "Set.prototype.delete"),
        ts_entry("Set", "clear", "Set.prototype.clear"),
        ts_entry("Promise", "then", "Promise.prototype.then"),
        ts_entry("Promise", "catch", "Promise.prototype.catch"),
        ts_entry("Promise", "finally", "Promise.prototype.finally"),
        ts_entry("Promise", "all", "Promise.all"),
        ts_entry("Promise", "race", "Promise.race"),
        ts_entry("Promise", "resolve", "Promise.resolve"),
        ts_entry("Promise", "reject", "Promise.reject"),
        ts_entry("JSON", "parse", "JSON.parse"),
        ts_entry("JSON", "stringify", "JSON.stringify"),
        ts_entry("console", "log", "console.log"),
        ts_entry("console", "error", "console.error"),
        ts_entry("console", "warn", "console.warn"),
        ts_entry("console", "info", "console.info"),
        ts_entry("console", "debug", "console.debug"),
    ]
}

fn ts(receiver_type: &'static str, method_name: &'static str, canonical_path: &'static str) -> (r: StdlibSymbol)
    ensures
        r == ts_entry(receiver_type, method_name, canonical_path),
        r.language@ == "typescript"@,
{
    StdlibSymbol { receiver_type, method_name, canonical_path, is_method: true, language: "typescript" }
}

/// The typescript standard-library table.
pub struct TypeScriptStdlib;

impl StdlibTable for TypeScriptStdlib {
    open spec fn spec_language(&self) -> Seq<char> {
        "typescript"@
    }

    open spec fn spec_symbols(&self) -> Seq<StdlibSymbol> {
        typescript_symbols()
    }

    fn language(&self) -> (r: &'static str) {
        "typescript"
    }

    fn symbols(&self) -> (r: Vec<StdlibSymbol>) {
        let v: Vec<StdlibSymbol> = vec![
            ts("Array", "push", "Array.prototype.push"),
            ts("Array", "pop", "Array.prototype.pop"),
            ts("Array", "shift", "Array.prototype.shift"),
            ts("Array", "unshift", "Array.prototype.unshift"),
            ts("Array", "slice", "Array.prototype.slice"),
            ts("Array", "splice", "Array.prototype.splice"),
            ts("Array", "concat", "Array.prototype.concat"),
            ts("Array", "join", "Array.prototype.join"),
            ts("Array", "reverse", "Array.prototype.reverse"),
            ts("Array", "sort", "Array.prototype.sort"),
            ts("Array", "map", "Array.prototype.map"),
            ts("Array", "filter", "Array.prototype.filter"),
            ts("Array", "forEach", "Array.prototype.forEach"),
            ts("Array", "reduce", "Array.prototype.reduce"),
            ts("Array", "reduceRight", "Array.prototype.reduceRight"),
            ts("Array", "find", "Array.prototype.find"),
            ts("Array", "findIndex", "Array.prototype.findIndex"),
            ts("Array", "indexOf", "Array.prototype.indexOf"),
            ts("Array", "lastIndexOf", "Array.prototype.lastIndexOf"),
            ts("Array", "includes", "Array.prototype.includes"),
            ts("Array", "some", "Array.prototype.some"),
            ts("Array", "every", "Array.prototype.every"),
            ts("Array", "flat", "Array.prototype.flat"),
            ts("Array", "flatMap", "Array.prototype.flatMap"),
            ts("Array", "entries", "Array.prototype.entries"),
            ts("Array", "keys", "Array.prototype.keys"),
            ts("Array", "values", "Array.prototype.values"),
            ts("Array", "from", "Array.from"),
            ts("Array", "isArray", "Array.isArray"),
            ts("Array", "of", "Array.of"),
            ts("String", "charAt", "String.prototype.charAt"),
            ts("String", "charCodeAt", "String.prototype.charCodeAt"),
            ts("String", "concat", "String.prototype.concat"),
            ts("String", "includes", "String.prototype.includes"),
            ts("String", "indexOf", "String.prototype.indexOf"),
            ts("String", "lastIndexOf", "String.prototype.lastIndexOf"),
            ts("String", "match", "String.prototype.match"),
            ts("String", "matchAll", "String.prototype.matchAll"),
            ts("String", "padStart", "String.prototype.padStart"),
            ts("String", "padEnd", "String.prototype.padEnd"),
            ts("String", "repeat", "String.prototype.repeat"),
            ts("String", "replace", "String.prototype.replace"),
            ts("String", "replaceAll", "String.prototype.replaceAll"),
            ts("String", "slice", "String.prototype.slice"),
            ts("String", "split", "String.prototype.split"),
            ts("String", "startsWith", "String.prototype.startsWith"),
            ts("String", "endsWith", "String.prototype.endsWith"),
            ts("String", "toLowerCase", "String.prototype.toLowerCase"),
            ts("String", "toUpperCase", "String.prototype.toUpperCase"),
            ts("String", "trim", "String.prototype.trim"),
            ts("String", "trimStart", "String.prototype.trimStart"),
            ts("String", "trimEnd", "String.prototype.trimEnd"),
            ts("Object", "keys", "Object.keys"),
            ts("Object", "values", "Object.values"),
            ts("Object", "entries", "Object.entries"),
            ts("Object", "assign", "Object.assign"),
            ts("Object", "freeze", "Object.freeze"),
            ts("Object", "fromEntries", "Object.fromEntries"),
            ts("Map", "get", "Map.prototype.get"),
            ts("Map", "set", "Map.prototype.set"),
            ts("Map", "has", "Map.prototype.has"),
            ts("Map", "delete", "Map.prototype.delete"),
            ts("Map", "clear", "Map.prototype.clear"),
            ts("Map", "forEach", "Map.prototype.forEach"),
            ts("Set", "add", "Set.prototype.add"),
            ts("Set", "has", "Set.prototype.has"),
            ts("Set", "delete", "Set.prototype.delete"),
            ts("Set", "clear", "Set.prototype.clear"),
            ts("Promise", "then", "Promise.prototype.then"),
            ts("Promise", "catch", "Promise.prototype.catch"),
            ts("Promise", "finally", "Promise.prototype.finally"),
            ts("Promise", "all", "Promise.all"),
            ts("Promise", "race", "Promise.race"),
            ts("Promise", "resolve", "Promise.resolve"),
            ts("Promise", "reject", "Promise.reject"),
            ts("JSON", "parse", "JSON.parse"),
            ts("JSON", "stringify", "JSON.stringify"),
            ts("console", "log", "console.log"),
            ts("console", "error", "console.error"),
            ts("console", "warn", "console.warn"),
            ts("console", "info", "console.info"),
            ts("console", "debug", "console.debug"),
        ];
        proof {
            assert(v@ =~= self.spec_symbols());
        }
        v
    }
}

} // verus!
