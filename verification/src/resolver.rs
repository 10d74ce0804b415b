//! Stage 3b resolution: reads the indexed graph and plans the cross-file
//! semantic edges (Imports, Calls, Implements, Uses) it lacks.

use vstd::prelude::*;
use crate::graph::{CodeGraph, GraphNode, GraphEdge, prop_or_empty, spec_prop_or_empty};
use crate::parser::append_chars;
use crate::text::{chars_of, ends_with, find, rfind, slice_to_vec, starts_with, contains_seq, seq_contains_seq,
    seq_ends_with, seq_starts_with, spec_find, spec_rfind, string_from_chars, split_nonempty, split_pieces,
    Sep, is_first_occurrence, occurs_at};
use crate::resolver_layers::{MacroExpansion, MacroCall, macro_calls, macro_edge, buffer_after, created_after, nodes_match,
    run_macro_expansion};
use crate::stdlib_index::StdlibTable;
use crate::stdlib_index::tables::{RustStdlib, rust_symbols};

verus! {

/// `crate::` with its prefix removed; every other path unchanged.
pub open spec fn spec_normalize_import_path(path: Seq<char>) -> Seq<char> {
    if seq_starts_with(path, "crate::"@) {
        path.skip(7)
    } else {
        path
    }
}

/// Strips a leading `crate::` from an import path.
pub fn normalize_import_path(path: &str) -> (r: String)
    ensures
        r@ == spec_normalize_import_path(path@),
{
    let v = chars_of(path);
    let pre = chars_of("crate::");
    proof { reveal_strlit("crate::"); }
    if starts_with(&v, &pre) {
        let t = slice_to_vec(&v, 7, v.len());
        assert(t@ =~= path@.skip(7));
        string_from_chars(&t)
    } else {
        string_from_chars(&v)
    }
}

/// The first `::`-separated segment of a path.
pub open spec fn first_segment(path: Seq<char>) -> Seq<char> {
    match spec_find(path, seq![':', ':']) {
        Some(i) => path.take(i),
        None => path,
    }
}

/// The last `::`-separated segment of a path.
pub open spec fn last_segment(path: Seq<char>) -> Seq<char> {
    match spec_rfind(path, seq![':', ':']) {
        Some(i) => path.skip(i + 2),
        None => path,
    }
}

fn colons() -> (r: Vec<char>)
    ensures
        r@ == seq![':', ':'],
{
    let r = vec![':', ':'];
    assert(r@ =~= seq![':', ':']);
    r
}

/// The first segment of a path.
pub fn first_segment_of(path: &[char]) -> (r: Vec<char>)
    ensures
        r@ == first_segment(path@),
{
    let sep = colons();
    match find(path, &sep) {
        Some(i) => {
            let r = slice_to_vec(path, 0, i);
            assert(r@ =~= path@.take(i as int));
            r
        },
        None => slice_to_vec(path, 0, path.len()),
    }
}

/// The last segment of a path.
pub fn last_segment_of(path: &[char]) -> (r: Vec<char>)
    ensures
        r@ == last_segment(path@),
{
    let sep = colons();
    match rfind(path, &sep) {
        Some(i) => {
            assert(i + 2 <= path.len()) by {
                assert(occurs_at(path@, seq![':', ':'], i as int)) by {
                    let k = choose|k: int| crate::text::is_last_occurrence(path@, seq![':', ':'], k);
                }
            }
            let r = slice_to_vec(path, i + 2, path.len());
            assert(r@ =~= path@.skip(i + 2));
            r
        },
        None => {
            let r = slice_to_vec(path, 0, path.len());
            assert(r@ =~= path@);
            r
        },
    }
}

/// A path names an outside package: its first segment is non-empty, holds
/// no `/`, does not start with `.`, and is not `crate`, `self` or `super`.
pub open spec fn spec_is_external_crate(path: Seq<char>) -> bool {
    let f = first_segment(path);
    &&& f != "crate"@ && f != "self"@ && f != "super"@
    &&& !seq_starts_with(f, seq!['.'])
    &&& f.len() > 0
    &&& !f.contains('/')
}

/// Whether an import path names an outside package (std, a dependency, a
/// Python or Node built-in) rather than the indexed project.
pub fn is_external_crate(path: &str) -> (r: bool)
    ensures
        r == spec_is_external_crate(path@),
{
    let v = chars_of(path);
    let f = first_segment_of(&v);
    let fs = string_from_chars(&f);
    if crate::text::str_eq(fs.as_str(), "crate") || crate::text::str_eq(fs.as_str(), "self")
        || crate::text::str_eq(fs.as_str(), "super") {
        return false;
    }
    let dot: Vec<char> = vec!['.'];
    assert(dot@ =~= seq!['.']);
    if starts_with(&f, &dot) {
        return false;
    }
    f.len() > 0 && !crate::text::contains_char(&f, '/')
}


/// `id[..i + ext.len() - 2]` for the first occurrence `i` of `ext` (the
/// file part of an id whose file extension is followed by `::`).
pub open spec fn file_prefix_at(id: Seq<char>, ext: Seq<char>) -> Option<Seq<char>> {
    match spec_find(id, ext) {
        Some(i) => Some(id.take(i + ext.len() - 2)),
        None => None,
    }
}

pub open spec fn ext_rs() -> Seq<char> { seq!['.', 'r', 's', ':', ':'] }
pub open spec fn ext_py() -> Seq<char> { seq!['.', 'p', 'y', ':', ':'] }
pub open spec fn ext_ts() -> Seq<char> { seq!['.', 't', 's', ':', ':'] }
pub open spec fn ext_tsx() -> Seq<char> { seq!['.', 't', 's', 'x', ':', ':'] }

/// The file path an import id or qualified name starts with: the text up
/// to the first `.rs`, `.py`, `.ts`, `.tsx` extension followed by `::`
/// (tried in that order); the whole id when none occurs.
pub open spec fn spec_file_of_id(id: Seq<char>) -> Seq<char> {
    match file_prefix_at(id, ext_rs()) {
        Some(p) => p,
        None => match file_prefix_at(id, ext_py()) {
            Some(p) => p,
            None => match file_prefix_at(id, ext_ts()) {
                Some(p) => p,
                None => match file_prefix_at(id, ext_tsx()) {
                    Some(p) => p,
                    None => id,
                },
            },
        },
    }
}

fn file_prefix(id: &[char], ext: &[char]) -> (r: Option<Vec<char>>)
    requires
        ext@.len() >= 2,
    ensures
        match r {
            Some(v) => file_prefix_at(id@, ext@) == Some(v@),
            None => file_prefix_at(id@, ext@) is None,
        },
{
    match find(id, ext) {
        Some(i) => {
            proof {
                let k = choose|k: int| is_first_occurrence(id@, ext@, k);
                assert(occurs_at(id@, ext@, i as int));
            }
            assert(i + ext.len() <= id.len());
            let v = slice_to_vec(id, 0, i + ext.len() - 2);
            assert(v@ =~= id@.take(i + ext@.len() - 2));
            Some(v)
        },
        None => None,
    }
}

/// The file path at the front of an id.
pub fn file_of_id(id: &str) -> (r: String)
    ensures
        r@ == spec_file_of_id(id@),
{
    let v = chars_of(id);
    let rs: Vec<char> = vec!['.', 'r', 's', ':', ':'];
    let py: Vec<char> = vec!['.', 'p', 'y', ':', ':'];
    let ts: Vec<char> = vec!['.', 't', 's', ':', ':'];
    let tsx: Vec<char> = vec!['.', 't', 's', 'x', ':', ':'];
    assert(rs@ =~= ext_rs());
    assert(py@ =~= ext_py());
    assert(ts@ =~= ext_ts());
    assert(tsx@ =~= ext_tsx());
    if let Some(p) = file_prefix(&v, &rs) {
        return string_from_chars(&p);
    }
    if let Some(p) = file_prefix(&v, &py) {
        return string_from_chars(&p);
    }
    if let Some(p) = file_prefix(&v, &ts) {
        return string_from_chars(&p);
    }
    if let Some(p) = file_prefix(&v, &tsx) {
        return string_from_chars(&p);
    }
    string_from_chars(&v)
}

/// Import ids have the form `file_path::import_display_name`.
pub fn extract_file_from_import_id(import_id: &str) -> (r: String)
    ensures
        r@ == spec_file_of_id(import_id@),
{
    file_of_id(import_id)
}

/// The file a qualified name belongs to.
pub fn extract_file_from_qn(qn: &str) -> (r: String)
    ensures
        r@ == spec_file_of_id(qn@),
{
    file_of_id(qn)
}

pub open spec fn call_marker() -> Seq<char> { seq![':', ':', 'c', 'a', 'l', 'l', '@'] }

/// The caller of a call site: its id up to the last `::call@`.
pub open spec fn spec_caller_of_callsite(cs_id: Seq<char>) -> Seq<char> {
    match spec_rfind(cs_id, call_marker()) {
        Some(i) => cs_id.take(i),
        None => cs_id,
    }
}

/// CallSite ids have the form `caller_qn::call@line:col...`.
pub fn extract_caller_from_callsite_id(cs_id: &str) -> (r: String)
    ensures
        r@ == spec_caller_of_callsite(cs_id@),
{
    let v = chars_of(cs_id);
    let m: Vec<char> = vec![':', ':', 'c', 'a', 'l', 'l', '@'];
    assert(m@ =~= call_marker());
    match rfind(&v, &m) {
        Some(i) => {
            proof {
                let k = choose|k: int| crate::text::is_last_occurrence(v@, m@, k);
                assert(occurs_at(v@, m@, i as int));
            }
            let t = slice_to_vec(&v, 0, i);
            assert(t@ =~= cs_id@.take(i as int));
            string_from_chars(&t)
        },
        None => string_from_chars(&v),
    }
}

/// `qn` names a direct child of `module_qn` (exactly one segment deeper).
pub open spec fn spec_is_child_of_module(qn: Seq<char>, module_qn: Seq<char>) -> bool {
    &&& seq_starts_with(qn, module_qn)
    &&& seq_starts_with(qn.skip(module_qn.len() as int), seq![':', ':'])
    &&& !seq_contains_seq(qn.skip(module_qn.len() as int + 2), seq![':', ':'])
}

/// Whether `qn` lies directly inside the module `module_qn`.
pub fn is_child_of_module(qn: &[char], module_qn: &[char]) -> (r: bool)
    ensures
        r == spec_is_child_of_module(qn@, module_qn@),
{
    if !starts_with(qn, module_qn) {
        return false;
    }
    let rest = slice_to_vec(qn, module_qn.len(), qn.len());
    assert(rest@ =~= qn@.skip(module_qn@.len() as int));
    let sep = colons();
    if !starts_with(&rest, &sep) {
        return false;
    }
    let tail = slice_to_vec(&rest, 2, rest.len());
    assert(tail@ =~= qn@.skip(module_qn@.len() as int + 2));
    !contains_seq(&tail, &sep)
}

/// `s` with every `::` (left to right, non-overlapping) replaced by `/`.
pub open spec fn replace_colons(s: Seq<char>) -> Seq<char>
    decreases s.len(),
{
    if s.len() == 0 {
        Seq::empty()
    } else if s.len() >= 2 && s[0] == ':' && s[1] == ':' {
        seq!['/'] + replace_colons(s.skip(2))
    } else {
        seq![s[0]] + replace_colons(s.skip(1))
    }
}

/// Replaces `::` by `/`.
pub fn exec_replace_colons(s: &[char]) -> (r: Vec<char>)
    ensures
        r@ == replace_colons(s@),
{
    let mut out: Vec<char> = Vec::new();
    let mut i: usize = 0;
    assert(s@.skip(0) =~= s@);
    while i < s.len()
        invariant
            i <= s@.len(),
            out@ + replace_colons(s@.skip(i as int)) == replace_colons(s@),
        decreases s@.len() - i,
    {
        let ghost rest = s@.skip(i as int);
        if i + 1 < s.len() && s[i] == ':' && s[i + 1] == ':' {
            out.push('/');
            proof {
                assert(rest.skip(2) =~= s@.skip(i + 2));
            }
            i += 2;
        } else {
            out.push(s[i]);
            proof {
                assert(rest.skip(1) =~= s@.skip(i + 1));
            }
            i += 1;
        }
    }
    assert(s@.skip(i as int) =~= Seq::<char>::empty());
    assert(out@ + Seq::<char>::empty() =~= out@);
    out
}

/// Resolution confidence, in thousandths: unique import candidates are
/// certain (1000), ambiguous ones 700.
pub open spec fn spec_import_confidence(candidate_count: nat) -> u32 {
    if candidate_count == 1 { 1000 } else { 700 }
}

pub fn compute_import_confidence(candidate_count: usize) -> (r: u32)
    ensures
        r == spec_import_confidence(candidate_count as nat),
{
    if candidate_count == 1 { 1000 } else { 700 }
}

/// Names that never denote a project type: Rust primitives and the
/// ubiquitous std containers.
pub open spec fn is_primitive(t: Seq<char>) -> bool {
    t == "i8"@ ||
    t == "i16"@ ||
    t == "i32"@ ||
    t == "i64"@ ||
    t == "i128"@ ||
    t == "isize"@ ||
    t == "u8"@ ||
    t == "u16"@ ||
    t == "u32"@ ||
    t == "u64"@ ||
    t == "u128"@ ||
    t == "usize"@ ||
    t == "f32"@ ||
    t == "f64"@ ||
    t == "bool"@ ||
    t == "char"@ ||
    t == "str"@ ||
    t == "String"@ ||
    t == "Vec"@ ||
    t == "Option"@ ||
    t == "Result"@ ||
    t == "Box"@ ||
    t == "Arc"@ ||
    t == "Rc"@ ||
    t == "HashMap"@ ||
    t == "HashSet"@ ||
    t == "BTreeMap"@ ||
    t == "BTreeSet"@ ||
    t == "Self"@ ||
    t == "self"@
}

/// A token of a type annotation that names a candidate project type: not a
/// lifetime, not `mut`/`dyn`/`impl`, not a primitive, and capitalized.
pub open spec fn is_type_name_token(t: Seq<char>) -> bool {
    &&& t.len() > 0
    &&& t[0] != '\''
    &&& t != "mut"@ && t != "dyn"@ && t != "impl"@
    &&& !is_primitive(t)
    &&& crate::parser::naming::unicode_is_uppercase(t[0])
}

fn exec_is_primitive(t: &[char]) -> (r: bool)
    ensures
        r == is_primitive(t@),
{
    let s = string_from_chars(t);
    let ts = s.as_str();
    crate::text::str_eq(ts, "i8") ||
        crate::text::str_eq(ts, "i16") ||
        crate::text::str_eq(ts, "i32") ||
        crate::text::str_eq(ts, "i64") ||
        crate::text::str_eq(ts, "i128") ||
        crate::text::str_eq(ts, "isize") ||
        crate::text::str_eq(ts, "u8") ||
        crate::text::str_eq(ts, "u16") ||
        crate::text::str_eq(ts, "u32") ||
        crate::text::str_eq(ts, "u64") ||
        crate::text::str_eq(ts, "u128") ||
        crate::text::str_eq(ts, "usize") ||
        crate::text::str_eq(ts, "f32") ||
        crate::text::str_eq(ts, "f64") ||
        crate::text::str_eq(ts, "bool") ||
        crate::text::str_eq(ts, "char") ||
        crate::text::str_eq(ts, "str") ||
        crate::text::str_eq(ts, "String") ||
        crate::text::str_eq(ts, "Vec") ||
        crate::text::str_eq(ts, "Option") ||
        crate::text::str_eq(ts, "Result") ||
        crate::text::str_eq(ts, "Box") ||
        crate::text::str_eq(ts, "Arc") ||
        crate::text::str_eq(ts, "Rc") ||
        crate::text::str_eq(ts, "HashMap") ||
        crate::text::str_eq(ts, "HashSet") ||
        crate::text::str_eq(ts, "BTreeMap") ||
        crate::text::str_eq(ts, "BTreeSet") ||
        crate::text::str_eq(ts, "Self") ||
        crate::text::str_eq(ts, "self")
}


/// The type-name tokens of `pieces`, in order.
pub open spec fn keep_type_names(pieces: Seq<Seq<char>>) -> Seq<Seq<char>>
    decreases pieces.len(),
{
    if pieces.len() == 0 {
        Seq::empty()
    } else if is_type_name_token(pieces.last()) {
        keep_type_names(pieces.drop_last()).push(pieces.last())
    } else {
        keep_type_names(pieces.drop_last())
    }
}

/// The nominal type names a type annotation mentions, in order of
/// appearance: generics, references, pointers, lifetimes, keywords and
/// primitives stripped.
pub open spec fn spec_type_identifiers(type_ann: Seq<char>) -> Seq<Seq<char>> {
    keep_type_names(split_pieces(type_ann, Sep::TypeDelims))
}

fn exec_is_type_name_token(t: &[char]) -> (r: bool)
    ensures
        r == is_type_name_token(t@),
{
    if t.len() == 0 || t[0] == '\'' {
        return false;
    }
    let s = string_from_chars(t);
    if crate::text::str_eq(s.as_str(), "mut") || crate::text::str_eq(s.as_str(), "dyn")
        || crate::text::str_eq(s.as_str(), "impl") {
        return false;
    }
    if exec_is_primitive(t) {
        return false;
    }
    crate::parser::naming::char_is_uppercase(t[0])
}

/// Extracts the type identifiers of a type annotation.
pub fn extract_type_identifiers(type_ann: &str) -> (r: Vec<String>)
    ensures
        crate::parser::naming::views(r@) == spec_type_identifiers(type_ann@),
{
    let v = chars_of(type_ann);
    let pieces = split_nonempty(&v, Sep::TypeDelims);
    let ghost ps = split_pieces(type_ann@, Sep::TypeDelims);
    let mut out: Vec<String> = Vec::new();
    let mut i: usize = 0;
    while i < pieces.len()
        invariant
            i <= pieces@.len(),
            pieces@.len() == ps.len(),
            forall|j: int| 0 <= j < pieces@.len() ==> (#[trigger] pieces@[j])@ == ps[j],
            crate::parser::naming::views(out@) == keep_type_names(ps.take(i as int)),
        decreases pieces@.len() - i,
    {
        let ghost before = out@;
        if exec_is_type_name_token(pieces[i].as_slice()) {
            out.push(string_from_chars(pieces[i].as_slice()));
        }
        proof {
            let t = ps.take(i + 1);
            assert(t.drop_last() =~= ps.take(i as int));
            assert(t.last() == ps[i as int]);
            assert(crate::parser::naming::views(out@) =~= keep_type_names(t));
        }
        i += 1;
    }
    assert(ps.take(pieces@.len() as int) =~= ps);
    out
}


// ---------------------------------------------------------------------------
// Symbol index: every resolvable symbol, by name and by qualified name.
// ---------------------------------------------------------------------------

/// A symbol as the resolver sees it.
pub struct SymView {
    pub id: Seq<char>,
    pub label: Seq<char>,
    pub name: Seq<char>,
    pub qn: Seq<char>,
}

/// An entry of the executable symbol index.
pub struct SymbolEntry {
    pub id: String,
    pub label: String,
    pub name: String,
    pub qualified_name: String,
}

impl SymbolEntry {
    pub open spec fn view(&self) -> SymView {
        SymView { id: self.id@, label: self.label@, name: self.name@, qn: self.qualified_name@ }
    }
}

/// The symbol `n` denotes under `label`.
pub open spec fn sym_of(n: GraphNode, label: Seq<char>) -> SymView {
    SymView { id: n.id@, label: label, name: n.name@, qn: n.qualified_name@ }
}

/// The nodes carrying `label`, in graph order, as symbols.
pub open spec fn labelled(nodes: Seq<GraphNode>, label: Seq<char>) -> Seq<SymView>
    decreases nodes.len(),
{
    if nodes.len() == 0 {
        Seq::empty()
    } else if nodes.last().label@ == label {
        labelled(nodes.drop_last(), label).push(sym_of(nodes.last(), label))
    } else {
        labelled(nodes.drop_last(), label)
    }
}

/// The labels whose nodes are resolution targets, in index order.
pub open spec fn index_labels() -> Seq<Seq<char>> {
    seq![seq!['F', 'u', 'n', 'c', 't', 'i', 'o', 'n'], seq!['M', 'e', 't', 'h', 'o', 'd'], seq!['S', 't', 'r', 'u', 'c', 't'], seq!['E', 'n', 'u', 'm'], seq!['T', 'r', 'a', 'i', 't'], seq!['C', 'o', 'n', 's', 't', 'a', 'n', 't'], seq!['T', 'y', 'p', 'e', 'A', 'l', 'i', 'a', 's'], seq!['M', 'o', 'd', 'u', 'l', 'e'], seq!['F', 'i', 'l', 'e']]
}

/// Symbols of all `labels`, label by label.
pub open spec fn index_over(nodes: Seq<GraphNode>, labels: Seq<Seq<char>>) -> Seq<SymView>
    decreases labels.len(),
{
    if labels.len() == 0 {
        Seq::empty()
    } else {
        index_over(nodes, labels.drop_last()) + labelled(nodes, labels.last())
    }
}

/// The symbol index of a graph.
pub open spec fn symbol_index(nodes: Seq<GraphNode>) -> Seq<SymView> {
    index_over(nodes, index_labels())
}

pub open spec fn entry_views(v: Seq<SymbolEntry>) -> Seq<SymView> {
    v.map_values(|e: SymbolEntry| e.view())
}

fn index_label_list() -> (r: Vec<Vec<char>>)
    ensures
        r@.len() == index_labels().len(),
        forall|i: int| 0 <= i < r@.len() ==> (#[trigger] r@[i])@ == index_labels()[i],
{
    let l0: Vec<char> = vec!['F', 'u', 'n', 'c', 't', 'i', 'o', 'n'];
    assert(l0@ =~= seq!['F', 'u', 'n', 'c', 't', 'i', 'o', 'n']);
    let l1: Vec<char> = vec!['M', 'e', 't', 'h', 'o', 'd'];
    assert(l1@ =~= seq!['M', 'e', 't', 'h', 'o', 'd']);
    let l2: Vec<char> = vec!['S', 't', 'r', 'u', 'c', 't'];
    assert(l2@ =~= seq!['S', 't', 'r', 'u', 'c', 't']);
    let l3: Vec<char> = vec!['E', 'n', 'u', 'm'];
    assert(l3@ =~= seq!['E', 'n', 'u', 'm']);
    let l4: Vec<char> = vec!['T', 'r', 'a', 'i', 't'];
    assert(l4@ =~= seq!['T', 'r', 'a', 'i', 't']);
    let l5: Vec<char> = vec!['C', 'o', 'n', 's', 't', 'a', 'n', 't'];
    assert(l5@ =~= seq!['C', 'o', 'n', 's', 't', 'a', 'n', 't']);
    let l6: Vec<char> = vec!['T', 'y', 'p', 'e', 'A', 'l', 'i', 'a', 's'];
    assert(l6@ =~= seq!['T', 'y', 'p', 'e', 'A', 'l', 'i', 'a', 's']);
    let l7: Vec<char> = vec!['M', 'o', 'd', 'u', 'l', 'e'];
    assert(l7@ =~= seq!['M', 'o', 'd', 'u', 'l', 'e']);
    let l8: Vec<char> = vec!['F', 'i', 'l', 'e'];
    assert(l8@ =~= seq!['F', 'i', 'l', 'e']);
    let r = vec![l0, l1, l2, l3, l4, l5, l6, l7, l8];
    r
}

fn collect_labelled(nodes: &Vec<GraphNode>, label: &[char], out: &mut Vec<SymbolEntry>)
    ensures
        entry_views(final(out)@) == entry_views(old(out)@) + labelled(nodes@, label@),
{
    let mut i: usize = 0;
    let ghost start = entry_views(out@);
    while i < nodes.len()
        invariant
            i <= nodes@.len(),
            entry_views(out@) == start + labelled(nodes@.take(i as int), label@),
        decreases nodes@.len() - i,
    {
        let n = &nodes[i];
        let l = chars_of(n.label.as_str());
        let ghost before = entry_views(out@);
        if crate::text::chars_eq(&l, label) {
            out.push(SymbolEntry {
                id: n.id.clone(),
                label: string_from_chars(label),
                name: n.name.clone(),
                qualified_name: n.qualified_name.clone(),
            });
        }
        proof {
            let t = nodes@.take(i + 1);
            assert(t.drop_last() =~= nodes@.take(i as int));
            assert(t.last() == nodes@[i as int]);
            if l@ == label@ {
                assert(labelled(t, label@) == labelled(nodes@.take(i as int), label@).push(sym_of(nodes@[i as int], label@)));
                assert(entry_views(out@) =~= before.push(sym_of(nodes@[i as int], label@)));
            } else {
                assert(labelled(t, label@) == labelled(nodes@.take(i as int), label@));
                assert(entry_views(out@) =~= before);
            }
            assert(entry_views(out@) =~= start + labelled(t, label@));
        }
        i += 1;
    }
    assert(nodes@.take(nodes@.len() as int) =~= nodes@);
}

/// Builds the symbol index of a graph.
pub fn build_symbol_index(graph: &CodeGraph) -> (r: Vec<SymbolEntry>)
    ensures
        entry_views(r@) == symbol_index(graph.nodes@),
{
    let labels = index_label_list();
    let mut out: Vec<SymbolEntry> = Vec::new();
    let mut k: usize = 0;
    while k < labels.len()
        invariant
            k <= labels@.len(),
            labels@.len() == index_labels().len(),
            forall|i: int| 0 <= i < labels@.len() ==> (#[trigger] labels@[i])@ == index_labels()[i],
            entry_views(out@) == index_over(graph.nodes@, index_labels().take(k as int)),
        decreases labels@.len() - k,
    {
        collect_labelled(&graph.nodes, labels[k].as_slice(), &mut out);
        proof {
            let t = index_labels().take(k + 1);
            assert(t.drop_last() =~= index_labels().take(k as int));
            assert(t.last() == index_labels()[k as int]);
        }
        k += 1;
    }
    assert(index_labels().take(labels@.len() as int) =~= index_labels());
    out
}


/// A copy of a symbol entry.
pub fn clone_entry(e: &SymbolEntry) -> (r: SymbolEntry)
    ensures
        r.view() == e.view(),
{
    SymbolEntry {
        id: e.id.clone(),
        label: e.label.clone(),
        name: e.name.clone(),
        qualified_name: e.qualified_name.clone(),
    }
}

/// The symbols named `name`, in index order (the `by_name` bucket).
pub open spec fn named(idx: Seq<SymView>, name: Seq<char>) -> Seq<SymView>
    decreases idx.len(),
{
    if idx.len() == 0 {
        Seq::empty()
    } else if idx.last().name == name {
        named(idx.drop_last(), name).push(idx.last())
    } else {
        named(idx.drop_last(), name)
    }
}

/// The symbol registered under qualified name `qn`: the last one indexed
/// with it (later entries overwrite earlier ones).
pub open spec fn by_qn(idx: Seq<SymView>, qn: Seq<char>) -> Option<SymView>
    decreases idx.len(),
{
    if idx.len() == 0 {
        None
    } else if idx.last().qn == qn {
        Some(idx.last())
    } else {
        by_qn(idx.drop_last(), qn)
    }
}

/// All symbols named `name`.
pub fn lookup_by_name(idx: &Vec<SymbolEntry>, name: &[char]) -> (r: Vec<SymbolEntry>)
    ensures
        entry_views(r@) == named(entry_views(idx@), name@),
{
    let mut out: Vec<SymbolEntry> = Vec::new();
    let mut i: usize = 0;
    while i < idx.len()
        invariant
            i <= idx@.len(),
            entry_views(out@) == named(entry_views(idx@).take(i as int), name@),
        decreases idx@.len() - i,
    {
        let ghost before = entry_views(out@);
        let n = chars_of(idx[i].name.as_str());
        let hit = crate::text::chars_eq(&n, name);
        if hit {
            out.push(clone_entry(&idx[i]));
        }
        proof {
            let t = entry_views(idx@).take(i + 1);
            assert(t.drop_last() =~= entry_views(idx@).take(i as int));
            assert(t.last() == idx@[i as int].view());
            if hit {
                assert(entry_views(out@) =~= before.push(idx@[i as int].view()));
            } else {
                assert(entry_views(out@) =~= before);
            }
        }
        i += 1;
    }
    assert(entry_views(idx@).take(idx@.len() as int) =~= entry_views(idx@));
    out
}

/// The symbol registered under `qn`.
pub fn lookup_by_qn(idx: &Vec<SymbolEntry>, qn: &[char]) -> (r: Option<SymbolEntry>)
    ensures
        match r {
            Some(e) => by_qn(entry_views(idx@), qn@) == Some(e.view()),
            None => by_qn(entry_views(idx@), qn@) is None,
        },
{
    let mut i: usize = idx.len();
    assert(entry_views(idx@).take(i as int) =~= entry_views(idx@));
    while i > 0
        invariant
            i <= idx@.len(),
            by_qn(entry_views(idx@), qn@) == by_qn(entry_views(idx@).take(i as int), qn@),
        decreases i,
    {
        let q = chars_of(idx[i - 1].qualified_name.as_str());
        proof {
            let t = entry_views(idx@).take(i as int);
            assert(t.drop_last() =~= entry_views(idx@).take(i - 1));
            assert(t.last() == idx@[i - 1].view());
        }
        if crate::text::chars_eq(&q, qn) {
            return Some(clone_entry(&idx[i - 1]));
        }
        i -= 1;
    }
    None
}

/// Index of the first candidate whose `/`-form qualified name ends with
/// `hint`.
pub open spec fn first_suffix_match(c: Seq<SymView>, hint: Seq<char>) -> Option<int>
    decreases c.len(),
{
    if c.len() == 0 {
        None
    } else if seq_ends_with(replace_colons(c[0].qn), hint) {
        Some(0)
    } else {
        match first_suffix_match(c.drop_first(), hint) {
            Some(k) => Some(k + 1),
            None => None,
        }
    }
}

/// The best of several same-named candidates for a path: the only one;
/// else the first whose qualified name ends with the path (both in `/`
/// form); else the first.
pub open spec fn spec_pick_best(c: Seq<SymView>, path_hint: Seq<char>) -> Option<SymView> {
    if c.len() == 0 {
        None
    } else if c.len() == 1 {
        Some(c[0])
    } else {
        match first_suffix_match(c, replace_colons(path_hint)) {
            Some(k) => Some(c[k]),
            None => Some(c[0]),
        }
    }
}

proof fn lemma_first_suffix_match_bounds(c: Seq<SymView>, hint: Seq<char>)
    ensures
        first_suffix_match(c, hint) matches Some(k) ==> 0 <= k < c.len(),
    decreases c.len(),
{
    if c.len() > 0 {
        lemma_first_suffix_match_bounds(c.drop_first(), hint);
    }
}

/// Picks the best candidate for a path hint.
pub fn pick_best_candidate(candidates: &Vec<SymbolEntry>, path_hint: &[char]) -> (r: Option<SymbolEntry>)
    ensures
        match r {
            Some(e) => spec_pick_best(entry_views(candidates@), path_hint@) == Some(e.view()),
            None => spec_pick_best(entry_views(candidates@), path_hint@) is None,
        },
{
    if candidates.len() == 0 {
        return None;
    }
    if candidates.len() == 1 {
        return Some(clone_entry(&candidates[0]));
    }
    let h = exec_replace_colons(path_hint);
    let ghost cv = entry_views(candidates@);
    let mut i: usize = 0;
    assert(cv.skip(0) =~= cv);
    while i < candidates.len()
        invariant
            i <= candidates@.len(),
            cv == entry_views(candidates@),
            h@ == replace_colons(path_hint@),
            first_suffix_match(cv, h@) == (match first_suffix_match(cv.skip(i as int), h@) {
                Some(k) => Some(k + i),
                None => None::<int>,
            }),
        decreases candidates@.len() - i,
    {
        let q = chars_of(candidates[i].qualified_name.as_str());
        let qs = exec_replace_colons(&q);
        proof {
            assert(cv.skip(i as int)[0] == candidates@[i as int].view());
            assert(cv.skip(i as int).drop_first() =~= cv.skip(i + 1));
        }
        if ends_with(&qs, &h) {
            return Some(clone_entry(&candidates[i]));
        }
        i += 1;
    }
    Some(clone_entry(&candidates[0]))
}

proof fn lemma_first_suffix_match_first(c: Seq<SymView>, hint: Seq<char>)
    ensures
        forall|k: int| 0 <= k < c.len() && seq_ends_with(replace_colons(#[trigger] c[k].qn), hint)
            && (forall|j: int| 0 <= j < k ==> !seq_ends_with(replace_colons(c[j].qn), hint))
            ==> first_suffix_match(c, hint) == Some(k),
        (forall|j: int| 0 <= j < c.len() ==> !seq_ends_with(replace_colons(#[trigger] c[j].qn), hint))
            ==> first_suffix_match(c, hint) is None,
    decreases c.len(),
{
    if c.len() > 0 {
        let d = c.drop_first();
        lemma_first_suffix_match_first(d, hint);
        assert forall|k: int| 0 <= k < c.len() && seq_ends_with(replace_colons(#[trigger] c[k].qn), hint)
            && (forall|j: int| 0 <= j < k ==> !seq_ends_with(replace_colons(c[j].qn), hint))
            implies first_suffix_match(c, hint) == Some(k) by {
            if k > 0 {
                assert(!seq_ends_with(replace_colons(c[0].qn), hint));
                assert(d[k - 1] == c[k]);
                assert forall|j: int| 0 <= j < k - 1 implies !seq_ends_with(replace_colons(#[trigger] d[j].qn), hint) by {
                    assert(d[j] == c[j + 1]);
                }
            }
        }
        if forall|j: int| 0 <= j < c.len() ==> !seq_ends_with(replace_colons(#[trigger] c[j].qn), hint) {
            assert(!seq_ends_with(replace_colons(c[0].qn), hint));
            assert forall|j: int| 0 <= j < d.len() implies !seq_ends_with(replace_colons(#[trigger] d[j].qn), hint) by {
                assert(d[j] == c[j + 1]);
            }
        }
    }
}

/// How the best candidate is picked among those that share a name, for a
/// path hint: none of no candidates; the only one of one; of two or more,
/// the first whose qualified name, with each `::` written `/`, ends with the
/// hint written the same way, and the first candidate only when none does.
pub proof fn lemma_pick_best_law(c: Seq<SymView>, path_hint: Seq<char>)
    ensures
        c.len() == 0 ==> spec_pick_best(c, path_hint) is None,
        c.len() == 1 ==> spec_pick_best(c, path_hint) == Some(c[0]),
        c.len() >= 2 ==> forall|k: int|
            0 <= k < c.len() && seq_ends_with(replace_colons(#[trigger] c[k].qn), replace_colons(path_hint))
            && (forall|j: int| 0 <= j < k ==> !seq_ends_with(replace_colons(c[j].qn), replace_colons(path_hint)))
            ==> spec_pick_best(c, path_hint) == Some(c[k]),
        c.len() >= 2 && (forall|j: int| 0 <= j < c.len()
            ==> !seq_ends_with(replace_colons(#[trigger] c[j].qn), replace_colons(path_hint)))
            ==> spec_pick_best(c, path_hint) == Some(c[0]),
{
    lemma_first_suffix_match_first(c, replace_colons(path_hint));
}

/// Writing each `::` as `/` leaves no `::` behind, and leaves a name that
/// holds no `:` as it is.
pub proof fn lemma_replace_colons_law(s: Seq<char>)
    ensures
        !seq_contains_seq(replace_colons(s), seq![':', ':']),
        !s.contains(':') ==> replace_colons(s) == s,
    decreases s.len(),
{
    if s.len() > 0 {
        let k: int = if s.len() >= 2 && s[0] == ':' && s[1] == ':' { 2 } else { 1 };
        let t = s.skip(k);
        lemma_replace_colons_law(t);
        let head = if k == 2 { seq!['/'] } else { seq![s[0]] };
        let r = replace_colons(s);
        assert(r == head + replace_colons(t));
        if !s.contains(':') {
            assert(!t.contains(':')) by {
                if t.contains(':') {
                    let i = choose|i: int| 0 <= i < t.len() && t[i] == ':';
                    assert(s[i + k] == ':');
                }
            }
            assert(s =~= seq![s[0]] + t);
        }
        if seq_contains_seq(r, seq![':', ':']) {
            let i = choose|i: int| occurs_at(r, seq![':', ':'], i);
            assert(r.subrange(i, i + 2)[0] == r[i]);
            assert(r.subrange(i, i + 2)[1] == r[i + 1]);
            if i >= 1 {
                assert(occurs_at(replace_colons(t), seq![':', ':'], i - 1)) by {
                    assert(replace_colons(t).subrange(i - 1, i + 1) =~= r.subrange(i, i + 2));
                }
            } else {
                // r[0] == ':' means the head is s[0] == ':' not followed by ':'
                assert(k == 1 && s[0] == ':');
                assert(r[1] == replace_colons(t)[0]);
                lemma_replace_colons_head(t);
            }
        }
    }
}

/// A `::` after a part that holds no `:` becomes one `/`:
/// `Foo::new` is written `Foo/new`.
pub proof fn lemma_replace_colons_separator(a: Seq<char>, b: Seq<char>)
    requires
        !a.contains(':'),
    ensures
        replace_colons(a + seq![':', ':'] + b) == a + seq!['/'] + replace_colons(b),
    decreases a.len(),
{
    let s = a + seq![':', ':'] + b;
    if a.len() == 0 {
        assert(s =~= seq![':', ':'] + b);
        assert(s.skip(2) =~= b);
        assert(a + seq!['/'] + replace_colons(b) =~= seq!['/'] + replace_colons(b));
    } else {
        let a1 = a.skip(1);
        assert(!a1.contains(':')) by {
            if a1.contains(':') {
                let i = choose|i: int| 0 <= i < a1.len() && a1[i] == ':';
                assert(a[i + 1] == ':');
            }
        }
        lemma_replace_colons_separator(a1, b);
        assert(s[0] == a[0]);
        assert(a[0] != ':') by {
            assert(a.contains(a[0]));
        }
        assert(s.skip(1) =~= a1 + seq![':', ':'] + b);
        assert(a + seq!['/'] + replace_colons(b) =~= seq![a[0]] + (a1 + seq!['/'] + replace_colons(b)));
    }
}

proof fn lemma_replace_colons_head(t: Seq<char>)
    ensures
        t.len() > 0 ==> replace_colons(t).len() > 0,
        t.len() > 0 && replace_colons(t)[0] == ':' ==> t[0] == ':' && !(t.len() >= 2 && t[1] == ':'),
{
    if t.len() > 0 {
        assert(replace_colons(t).len() > 0) by {
            if t.len() >= 2 && t[0] == ':' && t[1] == ':' {
            } else {
            }
        }
    }
}


// ---------------------------------------------------------------------------
// Planned edges and unresolved references
// ---------------------------------------------------------------------------

/// A resolution edge: relationship table, endpoints, confidence in
/// thousandths, and the method that derived it.
pub struct EdgeSpec {
    pub rel: Seq<char>,
    pub from: Seq<char>,
    pub to: Seq<char>,
    pub confidence: u32,
    pub method: Seq<char>,
}

/// A resolution edge to be written into the graph.
pub struct ResolutionEdge {
    pub rel: String,
    pub from_id: String,
    pub to_id: String,
    /// Confidence in thousandths (1000 = certain).
    pub confidence_permille: u32,
    pub method: String,
}

impl ResolutionEdge {
    pub open spec fn view(&self) -> EdgeSpec {
        EdgeSpec {
            rel: self.rel@,
            from: self.from_id@,
            to: self.to_id@,
            confidence: self.confidence_permille,
            method: self.method@,
        }
    }
}

pub open spec fn edge_views(v: Seq<ResolutionEdge>) -> Seq<EdgeSpec> {
    v.map_values(|e: ResolutionEdge| e.view())
}

/// A reference the resolver could not place.
pub struct UnresolvedSpec {
    pub kind: Seq<char>,
    pub from_id: Seq<char>,
    pub target_text: Seq<char>,
    pub reason: Seq<char>,
}

/// Tracks a reference that could not be resolved.
pub struct UnresolvedRef {
    pub kind: String,
    pub from_id: String,
    pub target_text: String,
    pub reason: String,
}

impl UnresolvedRef {
    pub open spec fn view(&self) -> UnresolvedSpec {
        UnresolvedSpec {
            kind: self.kind@,
            from_id: self.from_id@,
            target_text: self.target_text@,
            reason: self.reason@,
        }
    }
}

pub open spec fn unresolved_views(v: Seq<UnresolvedRef>) -> Seq<UnresolvedSpec> {
    v.map_values(|e: UnresolvedRef| e.view())
}

pub open spec fn mk_edge_spec(rel: Seq<char>, from: Seq<char>, to: Seq<char>, confidence: u32, method: Seq<char>) -> EdgeSpec {
    EdgeSpec { rel, from, to, confidence, method }
}

pub open spec fn mk_unresolved(kind: Seq<char>, from_id: Seq<char>, target_text: Seq<char>, reason: Seq<char>) -> UnresolvedSpec {
    UnresolvedSpec { kind, from_id, target_text, reason }
}

/// `head` followed by `label`.
fn rel_name(head: &str, label: &str) -> (r: String)
    ensures
        r@ == head@ + label@,
{
    let mut v = chars_of(head);
    let l = chars_of(label);
    append_chars(&mut v, &l);
    string_from_chars(&v)
}

// ---------------------------------------------------------------------------
// Phase 1: imports
// ---------------------------------------------------------------------------

/// An Import node as the resolver reads it.
pub struct ImportRow {
    pub id: Seq<char>,
    pub path: Seq<char>,
    pub is_glob: Seq<char>,
}

pub open spec fn import_row_of(n: GraphNode) -> ImportRow {
    ImportRow {
        id: n.id@,
        path: spec_prop_or_empty(n.props@, "path"@),
        is_glob: spec_prop_or_empty(n.props@, "is_glob"@),
    }
}

/// The Import nodes, in graph order.
pub open spec fn import_rows(nodes: Seq<GraphNode>) -> Seq<ImportRow>
    decreases nodes.len(),
{
    if nodes.len() == 0 {
        Seq::empty()
    } else if nodes.last().label@ == "Import"@ {
        import_rows(nodes.drop_last()).push(import_row_of(nodes.last()))
    } else {
        import_rows(nodes.drop_last())
    }
}

/// Position `i` holds the symbol that `by_qn` returns for its name.
pub open spec fn is_qn_representative(idx: Seq<SymView>, i: int) -> bool {
    forall|j: int| i < j < idx.len() ==> idx[j].qn != idx[i].qn
}

/// Glob-import edges from `file` to the direct children of `module_qn`
/// among the first `n` index positions.
pub open spec fn glob_edges_upto(idx: Seq<SymView>, file: Seq<char>, module_qn: Seq<char>, n: int) -> Seq<EdgeSpec>
    decreases n,
{
    if n <= 0 {
        Seq::empty()
    } else {
        let prev = glob_edges_upto(idx, file, module_qn, n - 1);
        let e = idx[n - 1];
        if is_qn_representative(idx, n - 1) && spec_is_child_of_module(e.qn, module_qn) {
            prev.push(mk_edge_spec("Imports_File_"@ + e.label, file, e.id, 900, "import-scope-lookup"@))
        } else {
            prev
        }
    }
}

/// What one import resolves to: its edges, or why it stays unresolved.
pub open spec fn import_outcome(idx: Seq<SymView>, row: ImportRow) -> (Seq<EdgeSpec>, Seq<UnresolvedSpec>) {
    if spec_is_external_crate(row.path) {
        (Seq::empty(), seq![mk_unresolved("Imports"@, row.id, row.path, "external crate"@)])
    } else {
        let file = spec_file_of_id(row.id);
        let normalized = spec_normalize_import_path(row.path);
        if row.is_glob == "true"@ || row.is_glob == "True"@ {
            (glob_edges_upto(idx, file, normalized, idx.len() as int), Seq::empty())
        } else {
            let candidates = named(idx, last_segment(normalized));
            match spec_pick_best(candidates, normalized) {
                Some(e) => (
                    seq![mk_edge_spec("Imports_File_"@ + e.label, file, e.id,
                        spec_import_confidence(candidates.len()), "import-scope-lookup"@)],
                    Seq::empty(),
                ),
                None => (Seq::empty(), seq![mk_unresolved("Imports"@, row.id, row.path, "no target found in graph"@)]),
            }
        }
    }
}

/// Import phase over a list of import rows.
pub open spec fn import_phase(idx: Seq<SymView>, rows: Seq<ImportRow>) -> (Seq<EdgeSpec>, Seq<UnresolvedSpec>)
    decreases rows.len(),
{
    if rows.len() == 0 {
        (Seq::empty(), Seq::empty())
    } else {
        let prev = import_phase(idx, rows.drop_last());
        let o = import_outcome(idx, rows.last());
        (prev.0 + o.0, prev.1 + o.1)
    }
}

fn is_qn_rep(idx: &Vec<SymbolEntry>, i: usize) -> (r: bool)
    requires
        i < idx.len(),
    ensures
        r == is_qn_representative(entry_views(idx@), i as int),
{
    let q = chars_of(idx[i].qualified_name.as_str());
    let mut j = i + 1;
    while j < idx.len()
        invariant
            i < j <= idx@.len(),
            q@ == idx@[i as int].qualified_name@,
            forall|k: int| i < k < j ==> entry_views(idx@)[k].qn != entry_views(idx@)[i as int].qn,
        decreases idx@.len() - j,
    {
        let q2 = chars_of(idx[j].qualified_name.as_str());
        if crate::text::chars_eq(&q2, &q) {
            assert(entry_views(idx@)[j as int].qn == entry_views(idx@)[i as int].qn);
            return false;
        }
        j += 1;
    }
    true
}

fn glob_import_edges(idx: &Vec<SymbolEntry>, file: &String, module_qn: &[char], out: &mut Vec<ResolutionEdge>)
    ensures
        edge_views(final(out)@) == edge_views(old(out)@)
            + glob_edges_upto(entry_views(idx@), file@, module_qn@, idx@.len() as int),
{
    let ghost start = edge_views(out@);
    let mut i: usize = 0;
    while i < idx.len()
        invariant
            i <= idx@.len(),
            edge_views(out@) == start + glob_edges_upto(entry_views(idx@), file@, module_qn@, i as int),
        decreases idx@.len() - i,
    {
        let ghost before = edge_views(out@);
        let q = chars_of(idx[i].qualified_name.as_str());
        let take = is_qn_rep(idx, i) && is_child_of_module(&q, module_qn);
        if take {
            let e = ResolutionEdge {
                rel: rel_name("Imports_File_", idx[i].label.as_str()),
                from_id: file.clone(),
                to_id: idx[i].id.clone(),
                confidence_permille: 900,
                method: crate::text::to_owned_string("import-scope-lookup"),
            };
            out.push(e);
            assert(edge_views(out@) =~= before.push(e.view()));
        }
        i += 1;
    }
}

fn import_outcome_exec(
    idx: &Vec<SymbolEntry>,
    id: &String,
    path: &String,
    is_glob: &String,
    edges: &mut Vec<ResolutionEdge>,
    unresolved: &mut Vec<UnresolvedRef>,
)
    ensures
        ({
            let o = import_outcome(entry_views(idx@), ImportRow { id: id@, path: path@, is_glob: is_glob@ });
            &&& edge_views(final(edges)@) == edge_views(old(edges)@) + o.0
            &&& unresolved_views(final(unresolved)@) == unresolved_views(old(unresolved)@) + o.1
        }),
{
    let ghost e0 = edge_views(edges@);
    let ghost u0 = unresolved_views(unresolved@);
    if is_external_crate(path.as_str()) {
        let u = UnresolvedRef {
            kind: crate::text::to_owned_string("Imports"),
            from_id: id.clone(),
            target_text: path.clone(),
            reason: crate::text::to_owned_string("external crate"),
        };
        unresolved.push(u);
        assert(unresolved_views(unresolved@) =~= u0 + seq![u.view()]);
        assert(edge_views(edges@) =~= e0 + Seq::<EdgeSpec>::empty());
        return;
    }
    let file = file_of_id(id.as_str());
    let normalized = normalize_import_path(path.as_str());
    let nv = chars_of(normalized.as_str());
    if crate::text::str_eq(is_glob.as_str(), "true") || crate::text::str_eq(is_glob.as_str(), "True") {
        glob_import_edges(idx, &file, &nv, edges);
        assert(unresolved_views(unresolved@) =~= u0 + Seq::<UnresolvedSpec>::empty());
        return;
    }
    let last = last_segment_of(&nv);
    let candidates = lookup_by_name(idx, &last);
    match pick_best_candidate(&candidates, &nv) {
        Some(t) => {
            let e = ResolutionEdge {
                rel: rel_name("Imports_File_", t.label.as_str()),
                from_id: file,
                to_id: t.id,
                confidence_permille: compute_import_confidence(candidates.len()),
                method: crate::text::to_owned_string("import-scope-lookup"),
            };
            edges.push(e);
            assert(edge_views(edges@) =~= e0 + seq![e.view()]);
            assert(unresolved_views(unresolved@) =~= u0 + Seq::<UnresolvedSpec>::empty());
        },
        None => {
            let u = UnresolvedRef {
                kind: crate::text::to_owned_string("Imports"),
                from_id: id.clone(),
                target_text: path.clone(),
                reason: crate::text::to_owned_string("no target found in graph"),
            };
            unresolved.push(u);
            assert(unresolved_views(unresolved@) =~= u0 + seq![u.view()]);
            assert(edge_views(edges@) =~= e0 + Seq::<EdgeSpec>::empty());
        },
    }
}

/// Resolves every Import node of the graph.
pub fn resolve_imports(
    graph: &CodeGraph,
    idx: &Vec<SymbolEntry>,
    edges: &mut Vec<ResolutionEdge>,
    unresolved: &mut Vec<UnresolvedRef>,
) -> (total: u64)
    ensures
        ({
            let o = import_phase(entry_views(idx@), import_rows(graph.nodes@));
            &&& edge_views(final(edges)@) == edge_views(old(edges)@) + o.0
            &&& unresolved_views(final(unresolved)@) == unresolved_views(old(unresolved)@) + o.1
            &&& total == import_rows(graph.nodes@).len()
        }),
{
    let ghost e0 = edge_views(edges@);
    let ghost u0 = unresolved_views(unresolved@);
    let mut total: u64 = 0;
    let mut i: usize = 0;
    proof { lemma_import_rows_len(graph.nodes@); }
    while i < graph.nodes.len()
        invariant
            i <= graph.nodes@.len(),
            total == import_rows(graph.nodes@.take(i as int)).len(),
            import_rows(graph.nodes@.take(i as int)).len() <= i,
            ({
                let o = import_phase(entry_views(idx@), import_rows(graph.nodes@.take(i as int)));
                &&& edge_views(edges@) == e0 + o.0
                &&& unresolved_views(unresolved@) == u0 + o.1
            }),
        decreases graph.nodes@.len() - i,
    {
        let n = &graph.nodes[i];
        let ghost t = graph.nodes@.take(i + 1);
        proof {
            assert(t.drop_last() =~= graph.nodes@.take(i as int));
            assert(t.last() == graph.nodes@[i as int]);
        }
        if crate::text::str_eq(n.label.as_str(), "Import") {
            let path = prop_or_empty(&n.props, "path");
            let glob = prop_or_empty(&n.props, "is_glob");
            let ghost before_e = edge_views(edges@);
            let ghost before_u = unresolved_views(unresolved@);
            import_outcome_exec(idx, &n.id, &path, &glob, edges, unresolved);
            proof {
                let rows = import_rows(graph.nodes@.take(i as int));
                assert(import_rows(t) == rows.push(import_row_of(graph.nodes@[i as int])));
                assert(import_rows(t).drop_last() =~= rows);
                assert(edge_views(edges@) =~= e0 + import_phase(entry_views(idx@), import_rows(t)).0);
                assert(unresolved_views(unresolved@) =~= u0 + import_phase(entry_views(idx@), import_rows(t)).1);
            }
            total = total + 1;
        } else {
            proof {
                assert(import_rows(t) == import_rows(graph.nodes@.take(i as int)));
            }
        }
        i += 1;
    }
    proof {
        assert(graph.nodes@.take(graph.nodes@.len() as int) =~= graph.nodes@);
    }
    total
}

proof fn lemma_import_rows_len(nodes: Seq<GraphNode>)
    ensures
        import_rows(nodes).len() <= nodes.len(),
    decreases nodes.len(),
{
    if nodes.len() > 0 {
        lemma_import_rows_len(nodes.drop_last());
    }
}


// ---------------------------------------------------------------------------
// Phase 2: calls
// ---------------------------------------------------------------------------

/// An Import node's id and path.
pub struct ImportRecord {
    pub id: String,
    pub path: String,
    pub is_glob: String,
}

impl ImportRecord {
    pub open spec fn view(&self) -> ImportRow {
        ImportRow { id: self.id@, path: self.path@, is_glob: self.is_glob@ }
    }
}

pub open spec fn import_record_views(v: Seq<ImportRecord>) -> Seq<ImportRow> {
    v.map_values(|r: ImportRecord| r.view())
}

/// Collects the Import nodes of a graph.
pub fn collect_import_rows(graph: &CodeGraph) -> (r: Vec<ImportRecord>)
    ensures
        import_record_views(r@) == import_rows(graph.nodes@),
{
    let mut out: Vec<ImportRecord> = Vec::new();
    let mut i: usize = 0;
    while i < graph.nodes.len()
        invariant
            i <= graph.nodes@.len(),
            import_record_views(out@) == import_rows(graph.nodes@.take(i as int)),
        decreases graph.nodes@.len() - i,
    {
        let n = &graph.nodes[i];
        let ghost before = import_record_views(out@);
        let ghost t = graph.nodes@.take(i + 1);
        proof {
            assert(t.drop_last() =~= graph.nodes@.take(i as int));
            assert(t.last() == graph.nodes@[i as int]);
        }
        if crate::text::str_eq(n.label.as_str(), "Import") {
            let rec = ImportRecord {
                id: n.id.clone(),
                path: prop_or_empty(&n.props, "path"),
                is_glob: prop_or_empty(&n.props, "is_glob"),
            };
            out.push(rec);
            assert(import_record_views(out@) =~= before.push(import_row_of(graph.nodes@[i as int])));
        } else {
            assert(import_record_views(out@) =~= before);
        }
        i += 1;
    }
    assert(graph.nodes@.take(graph.nodes@.len() as int) =~= graph.nodes@);
    out
}

/// The path of the first import of `file` whose last segment is `callee`.
pub open spec fn first_import_for(rows: Seq<ImportRow>, file: Seq<char>, callee: Seq<char>) -> Option<Seq<char>>
    decreases rows.len(),
{
    if rows.len() == 0 {
        None
    } else if spec_file_of_id(rows[0].id) == file && last_segment(rows[0].path) == callee {
        Some(rows[0].path)
    } else {
        first_import_for(rows.drop_first(), file, callee)
    }
}

/// The candidates defined in `file` (qualified name starts with it).
pub open spec fn same_file(c: Seq<SymView>, file: Seq<char>) -> Seq<SymView>
    decreases c.len(),
{
    if c.len() == 0 {
        Seq::empty()
    } else if seq_starts_with(c.last().qn, file) {
        same_file(c.drop_last(), file).push(c.last())
    } else {
        same_file(c.drop_last(), file)
    }
}

/// The target of a call: a qualified callee by its last segment; an
/// unqualified one through the file's imports, else a unique same-file
/// definition, else a globally unique one.
pub open spec fn spec_resolve_single_call(
    idx: Seq<SymView>,
    imports: Seq<ImportRow>,
    callee: Seq<char>,
    file: Seq<char>,
) -> Option<SymView> {
    if seq_contains_seq(callee, seq![':', ':']) {
        spec_pick_best(named(idx, last_segment(callee)), callee)
    } else {
        let c = named(idx, callee);
        if c.len() == 0 {
            None
        } else {
            match first_import_for(imports, file, callee) {
                Some(p) => spec_pick_best(c, p),
                None => {
                    let sf = same_file(c, file);
                    if sf.len() == 1 {
                        Some(sf[0])
                    } else if c.len() == 1 {
                        Some(c[0])
                    } else {
                        None
                    }
                },
            }
        }
    }
}

fn first_import_for_exec(rows: &Vec<ImportRecord>, file: &[char], callee: &[char]) -> (r: Option<Vec<char>>)
    ensures
        match r {
            Some(p) => first_import_for(import_record_views(rows@), file@, callee@) == Some(p@),
            None => first_import_for(import_record_views(rows@), file@, callee@) is None,
        },
{
    let ghost rv = import_record_views(rows@);
    let mut i: usize = 0;
    assert(rv.skip(0) =~= rv);
    while i < rows.len()
        invariant
            i <= rows@.len(),
            rv == import_record_views(rows@),
            first_import_for(rv, file@, callee@) == first_import_for(rv.skip(i as int), file@, callee@),
        decreases rows@.len() - i,
    {
        proof {
            assert(rv.skip(i as int)[0] == rows@[i as int].view());
            assert(rv.skip(i as int).drop_first() =~= rv.skip(i + 1));
        }
        let f = file_of_id(rows[i].id.as_str());
        let fv = chars_of(f.as_str());
        let pv = chars_of(rows[i].path.as_str());
        let last = last_segment_of(&pv);
        if crate::text::chars_eq(&fv, file) && crate::text::chars_eq(&last, callee) {
            return Some(pv);
        }
        i += 1;
    }
    None
}

fn same_file_exec(c: &Vec<SymbolEntry>, file: &[char]) -> (r: Vec<SymbolEntry>)
    ensures
        entry_views(r@) == same_file(entry_views(c@), file@),
{
    let mut out: Vec<SymbolEntry> = Vec::new();
    let mut i: usize = 0;
    while i < c.len()
        invariant
            i <= c@.len(),
            entry_views(out@) == same_file(entry_views(c@).take(i as int), file@),
        decreases c@.len() - i,
    {
        let ghost before = entry_views(out@);
        let q = chars_of(c[i].qualified_name.as_str());
        let hit = starts_with(&q, file);
        if hit {
            out.push(clone_entry(&c[i]));
        }
        proof {
            let t = entry_views(c@).take(i + 1);
            assert(t.drop_last() =~= entry_views(c@).take(i as int));
            assert(t.last() == c@[i as int].view());
            if hit {
                assert(entry_views(out@) =~= before.push(c@[i as int].view()));
            } else {
                assert(entry_views(out@) =~= before);
            }
        }
        i += 1;
    }
    assert(entry_views(c@).take(c@.len() as int) =~= entry_views(c@));
    out
}

/// Resolves the target of one call.
pub fn resolve_single_call(
    idx: &Vec<SymbolEntry>,
    imports: &Vec<ImportRecord>,
    callee: &[char],
    file: &[char],
) -> (r: Option<SymbolEntry>)
    ensures
        match r {
            Some(e) => spec_resolve_single_call(entry_views(idx@), import_record_views(imports@), callee@, file@)
                == Some(e.view()),
            None => spec_resolve_single_call(entry_views(idx@), import_record_views(imports@), callee@, file@)
                is None,
        },
{
    let sep = colons();
    if contains_seq(callee, &sep) {
        let last = last_segment_of(callee);
        let c = lookup_by_name(idx, &last);
        return pick_best_candidate(&c, callee);
    }
    let c = lookup_by_name(idx, callee);
    if c.len() == 0 {
        return None;
    }
    match first_import_for_exec(imports, file, callee) {
        Some(p) => pick_best_candidate(&c, &p),
        None => {
            let sf = same_file_exec(&c, file);
            if sf.len() == 1 {
                Some(clone_entry(&sf[0]))
            } else if c.len() == 1 {
                Some(clone_entry(&c[0]))
            } else {
                None
            }
        },
    }
}

/// A CallSite node as the resolver reads it.
pub struct CallRow {
    pub id: Seq<char>,
    pub callee: Seq<char>,
}

pub open spec fn call_rows(nodes: Seq<GraphNode>) -> Seq<CallRow>
    decreases nodes.len(),
{
    if nodes.len() == 0 {
        Seq::empty()
    } else if nodes.last().label@ == "CallSite"@ {
        call_rows(nodes.drop_last()).push(CallRow {
            id: nodes.last().id@,
            callee: spec_prop_or_empty(nodes.last().props@, "callee_name"@),
        })
    } else {
        call_rows(nodes.drop_last())
    }
}

/// The label of a caller: that of its indexed symbol, `Function` if none.
pub open spec fn caller_label(idx: Seq<SymView>, caller: Seq<char>) -> Seq<char> {
    match by_qn(idx, caller) {
        Some(e) => e.label,
        None => "Function"@,
    }
}

/// What one call site resolves to.
pub open spec fn call_outcome(idx: Seq<SymView>, imports: Seq<ImportRow>, row: CallRow)
    -> (Seq<EdgeSpec>, Seq<UnresolvedSpec>)
{
    let caller = spec_caller_of_callsite(row.id);
    let file = spec_file_of_id(caller);
    let label = caller_label(idx, caller);
    match spec_resolve_single_call(idx, imports, row.callee, file) {
        Some(t) => (
            seq![mk_edge_spec("Calls_"@ + label + "_"@ + t.label, caller, t.id,
                if seq_contains_seq(row.callee, seq![':', ':']) { 1000u32 } else { 900u32 },
                "import-scope-lookup"@)],
            Seq::empty(),
        ),
        None => (Seq::empty(), seq![mk_unresolved("Calls"@, row.id, row.callee, "no target found"@)]),
    }
}

pub open spec fn call_phase(idx: Seq<SymView>, imports: Seq<ImportRow>, rows: Seq<CallRow>)
    -> (Seq<EdgeSpec>, Seq<UnresolvedSpec>)
    decreases rows.len(),
{
    if rows.len() == 0 {
        (Seq::empty(), Seq::empty())
    } else {
        let prev = call_phase(idx, imports, rows.drop_last());
        let o = call_outcome(idx, imports, rows.last());
        (prev.0 + o.0, prev.1 + o.1)
    }
}

proof fn lemma_call_rows_len(nodes: Seq<GraphNode>)
    ensures
        call_rows(nodes).len() <= nodes.len(),
    decreases nodes.len(),
{
    if nodes.len() > 0 {
        lemma_call_rows_len(nodes.drop_last());
    }
}

fn call_outcome_exec(
    idx: &Vec<SymbolEntry>,
    imports: &Vec<ImportRecord>,
    id: &String,
    callee: &String,
    edges: &mut Vec<ResolutionEdge>,
    unresolved: &mut Vec<UnresolvedRef>,
)
    ensures
        ({
            let o = call_outcome(entry_views(idx@), import_record_views(imports@), CallRow { id: id@, callee: callee@ });
            &&& edge_views(final(edges)@) == edge_views(old(edges)@) + o.0
            &&& unresolved_views(final(unresolved)@) == unresolved_views(old(unresolved)@) + o.1
        }),
{
    let ghost e0 = edge_views(edges@);
    let ghost u0 = unresolved_views(unresolved@);
    let caller = extract_caller_from_callsite_id(id.as_str());
    let file = file_of_id(caller.as_str());
    let cv = chars_of(caller.as_str());
    let label: String = match lookup_by_qn(idx, &cv) {
        Some(e) => e.label,
        None => crate::text::to_owned_string("Function"),
    };
    let calleev = chars_of(callee.as_str());
    let filev = chars_of(file.as_str());
    match resolve_single_call(idx, imports, &calleev, &filev) {
        Some(t) => {
            let mut rel = chars_of("Calls_");
            let lv = chars_of(label.as_str());
            append_chars(&mut rel, &lv);
            let us = chars_of("_");
            append_chars(&mut rel, &us);
            let tl = chars_of(t.label.as_str());
            append_chars(&mut rel, &tl);
            let sep = colons();
            let conf: u32 = if contains_seq(&calleev, &sep) { 1000 } else { 900 };
            let e = ResolutionEdge {
                rel: string_from_chars(&rel),
                from_id: caller,
                to_id: t.id,
                confidence_permille: conf,
                method: crate::text::to_owned_string("import-scope-lookup"),
            };
            edges.push(e);
            assert(edge_views(edges@) =~= e0 + seq![e.view()]);
            assert(unresolved_views(unresolved@) =~= u0 + Seq::<UnresolvedSpec>::empty());
        },
        None => {
            let u = UnresolvedRef {
                kind: crate::text::to_owned_string("Calls"),
                from_id: id.clone(),
                target_text: callee.clone(),
                reason: crate::text::to_owned_string("no target found"),
            };
            unresolved.push(u);
            assert(unresolved_views(unresolved@) =~= u0 + seq![u.view()]);
            assert(edge_views(edges@) =~= e0 + Seq::<EdgeSpec>::empty());
        },
    }
}

/// Resolves every CallSite node of the graph.
pub fn resolve_calls(
    graph: &CodeGraph,
    idx: &Vec<SymbolEntry>,
    imports: &Vec<ImportRecord>,
    edges: &mut Vec<ResolutionEdge>,
    unresolved: &mut Vec<UnresolvedRef>,
) -> (total: u64)
    ensures
        ({
            let o = call_phase(entry_views(idx@), import_record_views(imports@), call_rows(graph.nodes@));
            &&& edge_views(final(edges)@) == edge_views(old(edges)@) + o.0
            &&& unresolved_views(final(unresolved)@) == unresolved_views(old(unresolved)@) + o.1
            &&& total == call_rows(graph.nodes@).len()
        }),
{
    let ghost e0 = edge_views(edges@);
    let ghost u0 = unresolved_views(unresolved@);
    let ghost iv = import_record_views(imports@);
    let mut total: u64 = 0;
    let mut i: usize = 0;
    proof { lemma_call_rows_len(graph.nodes@); }
    while i < graph.nodes.len()
        invariant
            i <= graph.nodes@.len(),
            iv == import_record_views(imports@),
            total == call_rows(graph.nodes@.take(i as int)).len(),
            call_rows(graph.nodes@.take(i as int)).len() <= i,
            ({
                let o = call_phase(entry_views(idx@), iv, call_rows(graph.nodes@.take(i as int)));
                &&& edge_views(edges@) == e0 + o.0
                &&& unresolved_views(unresolved@) == u0 + o.1
            }),
        decreases graph.nodes@.len() - i,
    {
        let n = &graph.nodes[i];
        let ghost t = graph.nodes@.take(i + 1);
        proof {
            assert(t.drop_last() =~= graph.nodes@.take(i as int));
            assert(t.last() == graph.nodes@[i as int]);
            lemma_call_rows_len(t);
        }
        if crate::text::str_eq(n.label.as_str(), "CallSite") {
            let callee = prop_or_empty(&n.props, "callee_name");
            call_outcome_exec(idx, imports, &n.id, &callee, edges, unresolved);
            proof {
                let rows = call_rows(graph.nodes@.take(i as int));
                assert(call_rows(t).drop_last() =~= rows);
                assert(edge_views(edges@) =~= e0 + call_phase(entry_views(idx@), iv, call_rows(t)).0);
                assert(unresolved_views(unresolved@) =~= u0 + call_phase(entry_views(idx@), iv, call_rows(t)).1);
            }
            total = total + 1;
        } else {
            proof {
                assert(call_rows(t) == call_rows(graph.nodes@.take(i as int)));
            }
        }
        i += 1;
    }
    proof {
        assert(graph.nodes@.take(graph.nodes@.len() as int) =~= graph.nodes@);
    }
    total
}


// ---------------------------------------------------------------------------
// Phase 3: implements (trait-method-name matching)
// ---------------------------------------------------------------------------

/// The first node with `id` and `label`.
pub open spec fn node_with(nodes: Seq<GraphNode>, id: Seq<char>, label: Seq<char>) -> Option<GraphNode>
    decreases nodes.len(),
{
    if nodes.len() == 0 {
        None
    } else if nodes[0].id@ == id && nodes[0].label@ == label {
        Some(nodes[0])
    } else {
        node_with(nodes.drop_first(), id, label)
    }
}

/// `(owner id, method name)` for each `rel` edge joining an `owner_label`
/// node to a Method node, in edge order.
pub open spec fn has_method_rows(
    nodes: Seq<GraphNode>,
    edges: Seq<GraphEdge>,
    rel: Seq<char>,
    owner_label: Seq<char>,
) -> Seq<(Seq<char>, Seq<char>)>
    decreases edges.len(),
{
    if edges.len() == 0 {
        Seq::empty()
    } else {
        let prev = has_method_rows(nodes, edges.drop_last(), rel, owner_label);
        let e = edges.last();
        if e.rel@ == rel {
            match (node_with(nodes, e.from_id@, owner_label), node_with(nodes, e.to_id@, "Method"@)) {
                (Some(o), Some(m)) => prev.push((o.id@, m.name@)),
                _ => prev,
            }
        } else {
            prev
        }
    }
}

pub open spec fn struct_method_rows(nodes: Seq<GraphNode>, edges: Seq<GraphEdge>) -> Seq<(Seq<char>, Seq<char>)> {
    has_method_rows(nodes, edges, "HasMethod_Struct_Method"@, "Struct"@)
}

pub open spec fn trait_method_rows(nodes: Seq<GraphNode>, edges: Seq<GraphEdge>) -> Seq<(Seq<char>, Seq<char>)> {
    has_method_rows(nodes, edges, "HasMethod_Trait_Method"@, "Trait"@)
}

/// `(struct id, trait id)` for every trait declaring a method named like
/// the struct's method, in trait-row order.
pub open spec fn matching_traits(trows: Seq<(Seq<char>, Seq<char>)>, row: (Seq<char>, Seq<char>))
    -> Seq<(Seq<char>, Seq<char>)>
    decreases trows.len(),
{
    if trows.len() == 0 {
        Seq::empty()
    } else if trows.last().1 == row.1 {
        matching_traits(trows.drop_last(), row).push((row.0, trows.last().0))
    } else {
        matching_traits(trows.drop_last(), row)
    }
}

/// Every (struct, trait) candidate pair, struct row by struct row.
pub open spec fn impl_pairs(srows: Seq<(Seq<char>, Seq<char>)>, trows: Seq<(Seq<char>, Seq<char>)>)
    -> Seq<(Seq<char>, Seq<char>)>
    decreases srows.len(),
{
    if srows.len() == 0 {
        Seq::empty()
    } else {
        impl_pairs(srows.drop_last(), trows) + matching_traits(trows, srows.last())
    }
}

/// The de-duplication key `struct_id->trait_id`.
pub open spec fn pair_key(p: (Seq<char>, Seq<char>)) -> Seq<char> {
    p.0 + seq!['-', '>'] + p.1
}

/// The pairs whose key did not occur earlier.
pub open spec fn first_keys(pairs: Seq<(Seq<char>, Seq<char>)>) -> Seq<(Seq<char>, Seq<char>)>
    decreases pairs.len(),
{
    if pairs.len() == 0 {
        Seq::empty()
    } else if exists|j: int| 0 <= j < pairs.len() - 1 && pair_key(#[trigger] pairs[j]) == pair_key(pairs.last()) {
        first_keys(pairs.drop_last())
    } else {
        first_keys(pairs.drop_last()).push(pairs.last())
    }
}

/// The Implements edge for a (struct, trait) pair.
pub open spec fn implements_edge(idx: Seq<SymView>, p: (Seq<char>, Seq<char>)) -> EdgeSpec {
    let label = match by_qn(idx, p.0) {
        Some(e) => e.label,
        None => "Struct"@,
    };
    mk_edge_spec("Implements_"@ + label + "_Trait"@, p.0, p.1, 700, "trait-name-match"@)
}

pub open spec fn implements_edges(idx: Seq<SymView>, pairs: Seq<(Seq<char>, Seq<char>)>) -> Seq<EdgeSpec> {
    pairs.map_values(|p: (Seq<char>, Seq<char>)| implements_edge(idx, p))
}

/// The Implements phase of a graph.
pub open spec fn implements_phase(idx: Seq<SymView>, nodes: Seq<GraphNode>, edges: Seq<GraphEdge>) -> Seq<EdgeSpec> {
    implements_edges(idx, first_keys(impl_pairs(struct_method_rows(nodes, edges), trait_method_rows(nodes, edges))))
}

fn node_with_exec(nodes: &Vec<GraphNode>, id: &[char], label: &[char]) -> (r: Option<usize>)
    ensures
        match r {
            Some(k) => k < nodes@.len() && node_with(nodes@, id@, label@) == Some(nodes@[k as int]),
            None => node_with(nodes@, id@, label@) is None,
        },
{
    let mut i: usize = 0;
    assert(nodes@.skip(0) =~= nodes@);
    while i < nodes.len()
        invariant
            i <= nodes@.len(),
            node_with(nodes@, id@, label@) == node_with(nodes@.skip(i as int), id@, label@),
        decreases nodes@.len() - i,
    {
        proof {
            assert(nodes@.skip(i as int)[0] == nodes@[i as int]);
            assert(nodes@.skip(i as int).drop_first() =~= nodes@.skip(i + 1));
        }
        let nid = chars_of(nodes[i].id.as_str());
        let nl = chars_of(nodes[i].label.as_str());
        if crate::text::chars_eq(&nid, id) && crate::text::chars_eq(&nl, label) {
            return Some(i);
        }
        i += 1;
    }
    None
}

pub open spec fn pair_views(v: Seq<(String, String)>) -> Seq<(Seq<char>, Seq<char>)> {
    v.map_values(|p: (String, String)| (p.0@, p.1@))
}

fn has_method_rows_exec(graph: &CodeGraph, rel: &str, owner_label: &str) -> (r: Vec<(String, String)>)
    ensures
        pair_views(r@) == has_method_rows(graph.nodes@, graph.edges@, rel@, owner_label@),
{
    let relv = chars_of(rel);
    let ol = chars_of(owner_label);
    let ml = chars_of("Method");
    let mut out: Vec<(String, String)> = Vec::new();
    let mut i: usize = 0;
    while i < graph.edges.len()
        invariant
            i <= graph.edges@.len(),
            relv@ == rel@,
            ol@ == owner_label@,
            ml@ == "Method"@,
            pair_views(out@) == has_method_rows(graph.nodes@, graph.edges@.take(i as int), rel@, owner_label@),
        decreases graph.edges@.len() - i,
    {
        let ghost before = pair_views(out@);
        let e = &graph.edges[i];
        let ghost t = graph.edges@.take(i + 1);
        proof {
            assert(t.drop_last() =~= graph.edges@.take(i as int));
            assert(t.last() == graph.edges@[i as int]);
        }
        let er = chars_of(e.rel.as_str());
        if crate::text::chars_eq(&er, &relv) {
            let fv = chars_of(e.from_id.as_str());
            let tv = chars_of(e.to_id.as_str());
            let o = node_with_exec(&graph.nodes, &fv, &ol);
            let m = node_with_exec(&graph.nodes, &tv, &ml);
            match (o, m) {
                (Some(oi), Some(mi)) => {
                    out.push((graph.nodes[oi].id.clone(), graph.nodes[mi].name.clone()));
                    assert(pair_views(out@) =~= before.push((graph.nodes@[oi as int].id@, graph.nodes@[mi as int].name@)));
                },
                _ => {},
            }
        }
        i += 1;
    }
    assert(graph.edges@.take(graph.edges@.len() as int) =~= graph.edges@);
    out
}

fn impl_pairs_exec(srows: &Vec<(String, String)>, trows: &Vec<(String, String)>) -> (r: Vec<(String, String)>)
    ensures
        pair_views(r@) == impl_pairs(pair_views(srows@), pair_views(trows@)),
{
    let mut out: Vec<(String, String)> = Vec::new();
    let mut i: usize = 0;
    while i < srows.len()
        invariant
            i <= srows@.len(),
            pair_views(out@) == impl_pairs(pair_views(srows@).take(i as int), pair_views(trows@)),
        decreases srows@.len() - i,
    {
        let ghost start = pair_views(out@);
        let ghost row = (srows@[i as int].0@, srows@[i as int].1@);
        let mut j: usize = 0;
        while j < trows.len()
            invariant
                i < srows@.len(),
                j <= trows@.len(),
                row == (srows@[i as int].0@, srows@[i as int].1@),
                pair_views(out@) == start + matching_traits(pair_views(trows@).take(j as int), row),
            decreases trows@.len() - j,
        {
            let ghost before = pair_views(out@);
            proof {
                let t = pair_views(trows@).take(j + 1);
                assert(t.drop_last() =~= pair_views(trows@).take(j as int));
                assert(t.last() == (trows@[j as int].0@, trows@[j as int].1@));
            }
            if crate::text::str_eq(trows[j].1.as_str(), srows[i].1.as_str()) {
                out.push((srows[i].0.clone(), trows[j].0.clone()));
                assert(pair_views(out@) =~= before.push((row.0, trows@[j as int].0@)));
            }
            j += 1;
        }
        proof {
            assert(pair_views(trows@).take(trows@.len() as int) =~= pair_views(trows@));
            let t = pair_views(srows@).take(i + 1);
            assert(t.drop_last() =~= pair_views(srows@).take(i as int));
            assert(t.last() == row);
        }
        i += 1;
    }
    assert(pair_views(srows@).take(srows@.len() as int) =~= pair_views(srows@));
    out
}

fn key_of(a: &String, b: &String) -> (r: Vec<char>)
    ensures
        r@ == pair_key((a@, b@)),
{
    let mut v = chars_of(a.as_str());
    v.push('-');
    v.push('>');
    let bv = chars_of(b.as_str());
    append_chars(&mut v, &bv);
    assert(v@ =~= pair_key((a@, b@)));
    v
}

fn first_keys_exec(pairs: &Vec<(String, String)>) -> (r: Vec<(String, String)>)
    ensures
        pair_views(r@) == first_keys(pair_views(pairs@)),
{
    let ghost pv = pair_views(pairs@);
    let mut out: Vec<(String, String)> = Vec::new();
    let mut seen: Vec<Vec<char>> = Vec::new();
    let mut i: usize = 0;
    while i < pairs.len()
        invariant
            i <= pairs@.len(),
            pv == pair_views(pairs@),
            pair_views(out@) == first_keys(pv.take(i as int)),
            seen@.len() == i,
            forall|j: int| 0 <= j < i ==> (#[trigger] seen@[j])@ == pair_key(pv[j]),
        decreases pairs@.len() - i,
    {
        let k = key_of(&pairs[i].0, &pairs[i].1);
        let mut found = false;
        let mut j: usize = 0;
        while j < seen.len()
            invariant
                j <= seen@.len(),
                seen@.len() == i,
                i < pairs@.len(),
                k@ == pair_key(pv[i as int]),
                forall|m: int| 0 <= m < i ==> (#[trigger] seen@[m])@ == pair_key(pv[m]),
                found == exists|m: int| 0 <= m < j && pair_key(#[trigger] pv[m]) == k@,
            decreases seen@.len() - j,
        {
            if crate::text::chars_eq(seen[j].as_slice(), k.as_slice()) {
                found = true;
            }
            j += 1;
        }
        let ghost before = pair_views(out@);
        proof {
            let t = pv.take(i + 1);
            assert(t.drop_last() =~= pv.take(i as int));
            assert(t.last() == pv[i as int]);
            assert((exists|m: int| 0 <= m < t.len() - 1 && pair_key(#[trigger] t[m]) == pair_key(t.last()))
                == (exists|m: int| 0 <= m < i && pair_key(#[trigger] pv[m]) == k@)) by {
                if exists|m: int| 0 <= m < i && pair_key(#[trigger] pv[m]) == k@ {
                    let m = choose|m: int| 0 <= m < i && pair_key(#[trigger] pv[m]) == k@;
                    assert(t[m] == pv[m]);
                }
                if exists|m: int| 0 <= m < t.len() - 1 && pair_key(#[trigger] t[m]) == pair_key(t.last()) {
                    let m = choose|m: int| 0 <= m < t.len() - 1 && pair_key(#[trigger] t[m]) == pair_key(t.last());
                    assert(t[m] == pv[m]);
                }
            }
        }
        if !found {
            out.push((pairs[i].0.clone(), pairs[i].1.clone()));
            assert(pair_views(out@) =~= before.push(pv[i as int]));
        }
        seen.push(k);
        i += 1;
    }
    assert(pv.take(pairs@.len() as int) =~= pv);
    out
}

/// Plans the Implements edges of a graph.
pub fn resolve_implements(graph: &CodeGraph, idx: &Vec<SymbolEntry>, edges: &mut Vec<ResolutionEdge>)
    ensures
        edge_views(final(edges)@) == edge_views(old(edges)@)
            + implements_phase(entry_views(idx@), graph.nodes@, graph.edges@),
{
    let srows = has_method_rows_exec(graph, "HasMethod_Struct_Method", "Struct");
    let trows = has_method_rows_exec(graph, "HasMethod_Trait_Method", "Trait");
    let pairs = impl_pairs_exec(&srows, &trows);
    let kept = first_keys_exec(&pairs);
    let ghost e0 = edge_views(edges@);
    let ghost kv = pair_views(kept@);
    let mut i: usize = 0;
    while i < kept.len()
        invariant
            i <= kept@.len(),
            kv == pair_views(kept@),
            edge_views(edges@) == e0 + implements_edges(entry_views(idx@), kv.take(i as int)),
        decreases kept@.len() - i,
    {
        let ghost before = edge_views(edges@);
        let sid = chars_of(kept[i].0.as_str());
        let label: String = match lookup_by_qn(idx, &sid) {
            Some(e) => e.label,
            None => crate::text::to_owned_string("Struct"),
        };
        let mut rel = chars_of("Implements_");
        let lv = chars_of(label.as_str());
        append_chars(&mut rel, &lv);
        let tail = chars_of("_Trait");
        append_chars(&mut rel, &tail);
        let e = ResolutionEdge {
            rel: string_from_chars(&rel),
            from_id: kept[i].0.clone(),
            to_id: kept[i].1.clone(),
            confidence_permille: 700,
            method: crate::text::to_owned_string("trait-name-match"),
        };
        edges.push(e);
        proof {
            assert(implements_edges(entry_views(idx@), kv.take(i + 1))
                =~= implements_edges(entry_views(idx@), kv.take(i as int)).push(implements_edge(entry_views(idx@), kv[i as int])));
            assert(edge_views(edges@) =~= before.push(e.view()));
        }
        i += 1;
    }
    assert(kv.take(kept@.len() as int) =~= kv);
}


// ---------------------------------------------------------------------------
// Phase 4: extends (supertraits already present as edges)
// ---------------------------------------------------------------------------

/// Number of `Extends_Trait_Trait` edges joining two Trait nodes.
pub open spec fn extends_count(nodes: Seq<GraphNode>, edges: Seq<GraphEdge>) -> nat
    decreases edges.len(),
{
    if edges.len() == 0 {
        0
    } else {
        let e = edges.last();
        let prev = extends_count(nodes, edges.drop_last());
        if e.rel@ == "Extends_Trait_Trait"@ && node_with(nodes, e.from_id@, "Trait"@) is Some
            && node_with(nodes, e.to_id@, "Trait"@) is Some {
            prev + 1
        } else {
            prev
        }
    }
}

/// Counts the supertrait edges of a graph.
pub fn resolve_extends(graph: &CodeGraph) -> (r: u64)
    ensures
        r == extends_count(graph.nodes@, graph.edges@),
{
    let tl = chars_of("Trait");
    let rel = chars_of("Extends_Trait_Trait");
    let mut count: u64 = 0;
    let mut i: usize = 0;
    while i < graph.edges.len()
        invariant
            i <= graph.edges@.len(),
            tl@ == "Trait"@,
            rel@ == "Extends_Trait_Trait"@,
            count == extends_count(graph.nodes@, graph.edges@.take(i as int)),
            count <= i,
        decreases graph.edges@.len() - i,
    {
        let e = &graph.edges[i];
        proof {
            let t = graph.edges@.take(i + 1);
            assert(t.drop_last() =~= graph.edges@.take(i as int));
            assert(t.last() == graph.edges@[i as int]);
        }
        let er = chars_of(e.rel.as_str());
        if crate::text::chars_eq(&er, &rel) {
            let fv = chars_of(e.from_id.as_str());
            let tv = chars_of(e.to_id.as_str());
            if node_with_exec(&graph.nodes, &fv, &tl).is_some() && node_with_exec(&graph.nodes, &tv, &tl).is_some() {
                count = count + 1;
            }
        }
        i += 1;
    }
    assert(graph.edges@.take(graph.edges@.len() as int) =~= graph.edges@);
    count
}

// ---------------------------------------------------------------------------
// Phase 5: uses (field type annotations)
// ---------------------------------------------------------------------------

/// Labels that can be the target of a type usage.
pub open spec fn is_type_label(l: Seq<char>) -> bool {
    l == "Struct"@ || l == "Enum"@ || l == "Trait"@ || l == "TypeAlias"@
}

/// The first type-like symbol among `c`.
pub open spec fn first_type_like(c: Seq<SymView>) -> Option<SymView>
    decreases c.len(),
{
    if c.len() == 0 {
        None
    } else if is_type_label(c[0].label) {
        Some(c[0])
    } else {
        first_type_like(c.drop_first())
    }
}

/// The type a name in an annotation refers to: the first type-like symbol
/// of that name.
pub open spec fn spec_find_type_target(idx: Seq<SymView>, type_ident: Seq<char>) -> Option<SymView> {
    first_type_like(named(idx, type_ident))
}

/// A Field node as the resolver reads it.
pub struct FieldRow {
    pub id: Seq<char>,
    pub type_annotation: Seq<char>,
}

pub open spec fn field_rows(nodes: Seq<GraphNode>) -> Seq<FieldRow>
    decreases nodes.len(),
{
    if nodes.len() == 0 {
        Seq::empty()
    } else if nodes.last().label@ == "Field"@ {
        field_rows(nodes.drop_last()).push(FieldRow {
            id: nodes.last().id@,
            type_annotation: spec_prop_or_empty(nodes.last().props@, "type_annotation"@),
        })
    } else {
        field_rows(nodes.drop_last())
    }
}

/// Outcome of the first `n` type names of one field.
pub open spec fn uses_of_names(idx: Seq<SymView>, field_id: Seq<char>, names: Seq<Seq<char>>)
    -> (Seq<EdgeSpec>, Seq<UnresolvedSpec>)
    decreases names.len(),
{
    if names.len() == 0 {
        (Seq::empty(), Seq::empty())
    } else {
        let prev = uses_of_names(idx, field_id, names.drop_last());
        let t = names.last();
        match spec_find_type_target(idx, t) {
            Some(target) => (
                prev.0.push(mk_edge_spec("Uses_Field_"@ + target.label, field_id, target.id, 900,
                    "type-annotation-parse"@)),
                prev.1,
            ),
            None => (prev.0, prev.1.push(mk_unresolved("Uses"@, field_id, t, "type not found in graph"@))),
        }
    }
}

pub open spec fn uses_phase(idx: Seq<SymView>, rows: Seq<FieldRow>) -> (Seq<EdgeSpec>, Seq<UnresolvedSpec>)
    decreases rows.len(),
{
    if rows.len() == 0 {
        (Seq::empty(), Seq::empty())
    } else {
        let prev = uses_phase(idx, rows.drop_last());
        let r = rows.last();
        let o = uses_of_names(idx, r.id, spec_type_identifiers(r.type_annotation));
        (prev.0 + o.0, prev.1 + o.1)
    }
}

fn find_type_target(idx: &Vec<SymbolEntry>, type_ident: &[char]) -> (r: Option<SymbolEntry>)
    ensures
        match r {
            Some(e) => spec_find_type_target(entry_views(idx@), type_ident@) == Some(e.view()),
            None => spec_find_type_target(entry_views(idx@), type_ident@) is None,
        },
{
    let c = lookup_by_name(idx, type_ident);
    let ghost cv = entry_views(c@);
    let mut i: usize = 0;
    assert(cv.skip(0) =~= cv);
    while i < c.len()
        invariant
            i <= c@.len(),
            cv == entry_views(c@),
            cv == named(entry_views(idx@), type_ident@),
            first_type_like(cv) == first_type_like(cv.skip(i as int)),
        decreases c@.len() - i,
    {
        proof {
            assert(cv.skip(i as int)[0] == c@[i as int].view());
            assert(cv.skip(i as int).drop_first() =~= cv.skip(i + 1));
        }
        let l = c[i].label.as_str();
        if crate::text::str_eq(l, "Struct") || crate::text::str_eq(l, "Enum") || crate::text::str_eq(l, "Trait")
            || crate::text::str_eq(l, "TypeAlias") {
            proof {
                assert(is_type_label(cv.skip(i as int)[0].label));
                assert(first_type_like(cv.skip(i as int)) == Some(cv.skip(i as int)[0]));
            }
            return Some(clone_entry(&c[i]));
        }
        i += 1;
    }
    None
}

fn field_uses(
    idx: &Vec<SymbolEntry>,
    field_id: &String,
    type_ann: &String,
    edges: &mut Vec<ResolutionEdge>,
    unresolved: &mut Vec<UnresolvedRef>,
)
    ensures
        ({
            let o = uses_of_names(entry_views(idx@), field_id@, spec_type_identifiers(type_ann@));
            &&& edge_views(final(edges)@) == edge_views(old(edges)@) + o.0
            &&& unresolved_views(final(unresolved)@) == unresolved_views(old(unresolved)@) + o.1
        }),
{
    let names = extract_type_identifiers(type_ann.as_str());
    let ghost nv = crate::parser::naming::views(names@);
    let ghost e0 = edge_views(edges@);
    let ghost u0 = unresolved_views(unresolved@);
    let mut i: usize = 0;
    while i < names.len()
        invariant
            i <= names@.len(),
            nv == crate::parser::naming::views(names@),
            ({
                let o = uses_of_names(entry_views(idx@), field_id@, nv.take(i as int));
                &&& edge_views(edges@) == e0 + o.0
                &&& unresolved_views(unresolved@) == u0 + o.1
            }),
        decreases names@.len() - i,
    {
        let ghost be = edge_views(edges@);
        let ghost bu = unresolved_views(unresolved@);
        proof {
            let t = nv.take(i + 1);
            assert(t.drop_last() =~= nv.take(i as int));
            assert(t.last() == names@[i as int]@);
        }
        let tn = chars_of(names[i].as_str());
        match find_type_target(idx, &tn) {
            Some(target) => {
                let e = ResolutionEdge {
                    rel: rel_name("Uses_Field_", target.label.as_str()),
                    from_id: field_id.clone(),
                    to_id: target.id,
                    confidence_permille: 900,
                    method: crate::text::to_owned_string("type-annotation-parse"),
                };
                edges.push(e);
                assert(edge_views(edges@) =~= be.push(e.view()));
            },
            None => {
                let u = UnresolvedRef {
                    kind: crate::text::to_owned_string("Uses"),
                    from_id: field_id.clone(),
                    target_text: names[i].clone(),
                    reason: crate::text::to_owned_string("type not found in graph"),
                };
                unresolved.push(u);
                assert(unresolved_views(unresolved@) =~= bu.push(u.view()));
            },
        }
        i += 1;
    }
    assert(nv.take(names@.len() as int) =~= nv);
}

proof fn lemma_field_rows_len(nodes: Seq<GraphNode>)
    ensures
        field_rows(nodes).len() <= nodes.len(),
    decreases nodes.len(),
{
    if nodes.len() > 0 {
        lemma_field_rows_len(nodes.drop_last());
    }
}

/// Resolves the type usages of every Field node.
pub fn resolve_uses(
    graph: &CodeGraph,
    idx: &Vec<SymbolEntry>,
    edges: &mut Vec<ResolutionEdge>,
    unresolved: &mut Vec<UnresolvedRef>,
) -> (total: u64)
    ensures
        ({
            let o = uses_phase(entry_views(idx@), field_rows(graph.nodes@));
            &&& edge_views(final(edges)@) == edge_views(old(edges)@) + o.0
            &&& unresolved_views(final(unresolved)@) == unresolved_views(old(unresolved)@) + o.1
            &&& total == field_rows(graph.nodes@).len()
        }),
{
    let ghost e0 = edge_views(edges@);
    let ghost u0 = unresolved_views(unresolved@);
    let mut total: u64 = 0;
    let mut i: usize = 0;
    while i < graph.nodes.len()
        invariant
            i <= graph.nodes@.len(),
            total == field_rows(graph.nodes@.take(i as int)).len(),
            field_rows(graph.nodes@.take(i as int)).len() <= i,
            ({
                let o = uses_phase(entry_views(idx@), field_rows(graph.nodes@.take(i as int)));
                &&& edge_views(edges@) == e0 + o.0
                &&& unresolved_views(unresolved@) == u0 + o.1
            }),
        decreases graph.nodes@.len() - i,
    {
        let n = &graph.nodes[i];
        let ghost t = graph.nodes@.take(i + 1);
        proof {
            assert(t.drop_last() =~= graph.nodes@.take(i as int));
            assert(t.last() == graph.nodes@[i as int]);
            lemma_field_rows_len(t);
        }
        if crate::text::str_eq(n.label.as_str(), "Field") {
            let ann = prop_or_empty(&n.props, "type_annotation");
            field_uses(idx, &n.id, &ann, edges, unresolved);
            proof {
                assert(field_rows(t).drop_last() =~= field_rows(graph.nodes@.take(i as int)));
                assert(edge_views(edges@) =~= e0 + uses_phase(entry_views(idx@), field_rows(t)).0);
                assert(unresolved_views(unresolved@) =~= u0 + uses_phase(entry_views(idx@), field_rows(t)).1);
            }
            total = total + 1;
        } else {
            proof {
                assert(field_rows(t) == field_rows(graph.nodes@.take(i as int)));
            }
        }
        i += 1;
    }
    assert(graph.nodes@.take(graph.nodes@.len() as int) =~= graph.nodes@);
    total
}


// ---------------------------------------------------------------------------
// The resolution plan
// ---------------------------------------------------------------------------

/// Two edges connect the same endpoints through the same table.
pub open spec fn same_key(a: EdgeSpec, b: EdgeSpec) -> bool {
    a.rel == b.rel && a.from == b.from && a.to == b.to
}

/// The graph already holds an edge with `e`'s table and endpoints.
pub open spec fn graph_has_edge(edges: Seq<GraphEdge>, e: EdgeSpec) -> bool {
    exists|i: int| 0 <= i < edges.len() && (#[trigger] edges[i]).rel@ == e.rel && edges[i].from_id@ == e.from
        && edges[i].to_id@ == e.to
}

/// The candidates that are neither in the graph nor repeat an earlier
/// candidate: what an idempotent insertion of `c` actually adds.
pub open spec fn new_edges(c: Seq<EdgeSpec>, existing: Seq<GraphEdge>) -> Seq<EdgeSpec>
    decreases c.len(),
{
    if c.len() == 0 {
        Seq::empty()
    } else {
        let p = new_edges(c.drop_last(), existing);
        let l = c.last();
        if graph_has_edge(existing, l) || exists|j: int| 0 <= j < c.len() - 1 && same_key(#[trigger] c[j], l) {
            p
        } else {
            p.push(l)
        }
    }
}

/// Every edge the five phases derive, in phase order.
pub open spec fn candidate_edges(nodes: Seq<GraphNode>, edges: Seq<GraphEdge>, expansions: Seq<MacroExpansion>)
    -> Seq<EdgeSpec>
{
    let idx = symbol_index(nodes);
    let imports = import_rows(nodes);
    import_phase(idx, imports).0 + call_phase(idx, imports, call_rows(nodes)).0
        + implements_phase(idx, nodes, edges) + uses_phase(idx, field_rows(nodes)).0
        + macro_edges_of(nodes, expansions)
}

/// The edges macro expansion adds for the call sites of `nodes`, each key
/// once, in call-site order.
pub open spec fn macro_edges_of(nodes: Seq<GraphNode>, expansions: Seq<MacroExpansion>) -> Seq<EdgeSpec> {
    buffer_after(Seq::empty(), macro_calls(symbol_index(nodes), expansions, nodes))
}

/// The edges resolution writes into a graph.
pub open spec fn planned_edges(nodes: Seq<GraphNode>, edges: Seq<GraphEdge>, expansions: Seq<MacroExpansion>)
    -> Seq<EdgeSpec>
{
    new_edges(candidate_edges(nodes, edges, expansions), edges)
}

/// Every reference resolution leaves unresolved, in phase order.
pub open spec fn unresolved_refs(nodes: Seq<GraphNode>) -> Seq<UnresolvedSpec> {
    let idx = symbol_index(nodes);
    let imports = import_rows(nodes);
    import_phase(idx, imports).1 + call_phase(idx, imports, call_rows(nodes)).1
        + uses_phase(idx, field_rows(nodes)).1
}

/// `us` are all of kind `k`.
pub open spec fn all_of_kind(us: Seq<UnresolvedSpec>, k: Seq<char>) -> bool {
    forall|i: int| 0 <= i < us.len() ==> (#[trigger] us[i]).kind == k
}

proof fn lemma_kind_concat(a: Seq<UnresolvedSpec>, b: Seq<UnresolvedSpec>, k: Seq<char>)
    requires
        all_of_kind(a, k),
        all_of_kind(b, k),
    ensures
        all_of_kind(a + b, k),
{
    assert forall|i: int| 0 <= i < (a + b).len() implies (#[trigger] (a + b)[i]).kind == k by {
        if i < a.len() {
            assert((a + b)[i] == a[i]);
        } else {
            assert((a + b)[i] == b[i - a.len()]);
        }
    }
}

proof fn lemma_import_kinds(idx: Seq<SymView>, rows: Seq<ImportRow>)
    ensures
        all_of_kind(import_phase(idx, rows).1, "Imports"@),
    decreases rows.len(),
{
    if rows.len() > 0 {
        lemma_import_kinds(idx, rows.drop_last());
        lemma_kind_concat(import_phase(idx, rows.drop_last()).1, import_outcome(idx, rows.last()).1, "Imports"@);
    }
}

proof fn lemma_call_kinds(idx: Seq<SymView>, imports: Seq<ImportRow>, rows: Seq<CallRow>)
    ensures
        all_of_kind(call_phase(idx, imports, rows).1, "Calls"@),
    decreases rows.len(),
{
    if rows.len() > 0 {
        lemma_call_kinds(idx, imports, rows.drop_last());
        lemma_kind_concat(call_phase(idx, imports, rows.drop_last()).1, call_outcome(idx, imports, rows.last()).1,
            "Calls"@);
    }
}

proof fn lemma_uses_names_kinds(idx: Seq<SymView>, field_id: Seq<char>, names: Seq<Seq<char>>)
    ensures
        all_of_kind(uses_of_names(idx, field_id, names).1, "Uses"@),
    decreases names.len(),
{
    if names.len() > 0 {
        lemma_uses_names_kinds(idx, field_id, names.drop_last());
        let p = uses_of_names(idx, field_id, names.drop_last()).1;
        let u = mk_unresolved("Uses"@, field_id, names.last(), "type not found in graph"@);
        assert forall|i: int| 0 <= i < p.push(u).len() implies (#[trigger] p.push(u)[i]).kind == "Uses"@ by {
            if i < p.len() {
                assert(p.push(u)[i] == p[i]);
            }
        }
    }
}

proof fn lemma_uses_kinds(idx: Seq<SymView>, rows: Seq<FieldRow>)
    ensures
        all_of_kind(uses_phase(idx, rows).1, "Uses"@),
    decreases rows.len(),
{
    if rows.len() > 0 {
        lemma_uses_kinds(idx, rows.drop_last());
        let r = rows.last();
        lemma_uses_names_kinds(idx, r.id, spec_type_identifiers(r.type_annotation));
        lemma_kind_concat(uses_phase(idx, rows.drop_last()).1,
            uses_of_names(idx, r.id, spec_type_identifiers(r.type_annotation)).1, "Uses"@);
    }
}

/// Every reference resolution leaves unresolved is an import, a call or a
/// field's type use.
pub proof fn lemma_unresolved_kinds(nodes: Seq<GraphNode>)
    ensures
        forall|i: int| 0 <= i < unresolved_refs(nodes).len() ==> {
            let k = (#[trigger] unresolved_refs(nodes)[i]).kind;
            k == "Imports"@ || k == "Calls"@ || k == "Uses"@
        },
{
    let idx = symbol_index(nodes);
    let imports = import_rows(nodes);
    let a = import_phase(idx, imports).1;
    let b = call_phase(idx, imports, call_rows(nodes)).1;
    let c = uses_phase(idx, field_rows(nodes)).1;
    lemma_import_kinds(idx, imports);
    lemma_call_kinds(idx, imports, call_rows(nodes));
    lemma_uses_kinds(idx, field_rows(nodes));
    let u = unresolved_refs(nodes);
    assert(u == a + b + c);
    assert forall|i: int| 0 <= i < u.len() implies {
        let k = (#[trigger] u[i]).kind;
        k == "Imports"@ || k == "Calls"@ || k == "Uses"@
    } by {
        if i < a.len() {
            assert(u[i] == a[i]);
        } else if i < a.len() + b.len() {
            assert(u[i] == b[i - a.len()]);
        } else {
            assert(u[i] == c[i - a.len() - b.len()]);
        }
    }
}

fn edge_exists(edges: &Vec<GraphEdge>, e: &ResolutionEdge) -> (r: bool)
    ensures
        r == graph_has_edge(edges@, e.view()),
{
    let mut i: usize = 0;
    while i < edges.len()
        invariant
            i <= edges@.len(),
            forall|j: int| 0 <= j < i ==> !((#[trigger] edges@[j]).rel@ == e.rel@ && edges@[j].from_id@ == e.from_id@
                && edges@[j].to_id@ == e.to_id@),
        decreases edges@.len() - i,
    {
        if crate::text::str_eq(edges[i].rel.as_str(), e.rel.as_str())
            && crate::text::str_eq(edges[i].from_id.as_str(), e.from_id.as_str())
            && crate::text::str_eq(edges[i].to_id.as_str(), e.to_id.as_str()) {
            return true;
        }
        i += 1;
    }
    false
}

fn same_key_exec(a: &ResolutionEdge, b: &ResolutionEdge) -> (r: bool)
    ensures
        r == same_key(a.view(), b.view()),
{
    crate::text::str_eq(a.rel.as_str(), b.rel.as_str()) && crate::text::str_eq(a.from_id.as_str(), b.from_id.as_str())
        && crate::text::str_eq(a.to_id.as_str(), b.to_id.as_str())
}

fn clone_edge(e: &ResolutionEdge) -> (r: ResolutionEdge)
    ensures
        r.view() == e.view(),
{
    ResolutionEdge {
        rel: e.rel.clone(),
        from_id: e.from_id.clone(),
        to_id: e.to_id.clone(),
        confidence_permille: e.confidence_permille,
        method: e.method.clone(),
    }
}

/// Keeps the candidates an idempotent insertion would add.
pub fn select_new_edges(candidates: &Vec<ResolutionEdge>, existing: &Vec<GraphEdge>) -> (r: Vec<ResolutionEdge>)
    ensures
        edge_views(r@) == new_edges(edge_views(candidates@), existing@),
{
    let ghost cv = edge_views(candidates@);
    let mut out: Vec<ResolutionEdge> = Vec::new();
    let mut i: usize = 0;
    while i < candidates.len()
        invariant
            i <= candidates@.len(),
            cv == edge_views(candidates@),
            edge_views(out@) == new_edges(cv.take(i as int), existing@),
        decreases candidates@.len() - i,
    {
        let mut dup = false;
        let mut j: usize = 0;
        while j < i
            invariant
                j <= i < candidates@.len(),
                cv == edge_views(candidates@),
                dup == exists|k: int| 0 <= k < j && same_key(#[trigger] cv[k], cv[i as int]),
            decreases i - j,
        {
            assert(cv[j as int] == candidates@[j as int].view());
            assert(cv[i as int] == candidates@[i as int].view());
            if same_key_exec(&candidates[j], &candidates[i]) {
                dup = true;
            }
            j += 1;
        }
        let present = edge_exists(existing, &candidates[i]);
        let ghost before = edge_views(out@);
        proof {
            let t = cv.take(i + 1);
            assert(t.drop_last() =~= cv.take(i as int));
            assert(t.last() == cv[i as int]);
            assert((exists|k: int| 0 <= k < t.len() - 1 && same_key(#[trigger] t[k], t.last()))
                == (exists|k: int| 0 <= k < i && same_key(#[trigger] cv[k], cv[i as int]))) by {
                if exists|k: int| 0 <= k < i && same_key(#[trigger] cv[k], cv[i as int]) {
                    let k = choose|k: int| 0 <= k < i && same_key(#[trigger] cv[k], cv[i as int]);
                    assert(t[k] == cv[k]);
                }
                if exists|k: int| 0 <= k < t.len() - 1 && same_key(#[trigger] t[k], t.last()) {
                    let k = choose|k: int| 0 <= k < t.len() - 1 && same_key(#[trigger] t[k], t.last());
                    assert(t[k] == cv[k]);
                }
            }
        }
        if !present && !dup {
            let e = clone_edge(&candidates[i]);
            out.push(e);
            assert(edge_views(out@) =~= before.push(cv[i as int]));
        }
        i += 1;
    }
    assert(cv.take(candidates@.len() as int) =~= cv);
    out
}

/// Counts produced by one resolution run.
pub struct ResolutionResult {
    pub imports_resolved: u64,
    pub calls_resolved: u64,
    pub impls_resolved: u64,
    pub extends_resolved: u64,
    pub uses_resolved: u64,
    /// Edges macro expansion added (each key once).
    pub macros_resolved: u64,
    pub total_edges: u64,
    pub total_refs: u64,
    pub unresolved: Vec<UnresolvedRef>,
    pub elapsed_ms: u64,
}

/// `a + b`, saturating at `u64::MAX`.
pub open spec fn sat_add(a: int, b: int) -> int {
    if a + b > 0xffff_ffff_ffff_ffff { 0xffff_ffff_ffff_ffff } else { a + b }
}

fn len_u64(n: usize) -> (r: u64)
    ensures
        r == n,
{
    n as u64
}

/// Runs every resolution phase over a graph, macro expansion by the table
/// `expansions` included. Returns the counts, the edges to write, and the
/// standard-library symbol nodes the macro calls lead to; writing the edges
/// makes the graph resolved (see `lemma_resolution_idempotent`).
pub fn resolve_graph(graph: &CodeGraph, expansions: &Vec<MacroExpansion>)
    -> (r: (ResolutionResult, Vec<ResolutionEdge>, Vec<GraphNode>))
    ensures
        ({
            let idx = symbol_index(graph.nodes@);
            let imports = import_rows(graph.nodes@);
            let res = r.0;
            &&& res.imports_resolved == import_phase(idx, imports).0.len()
            &&& res.calls_resolved == call_phase(idx, imports, call_rows(graph.nodes@)).0.len()
            &&& res.impls_resolved == implements_phase(idx, graph.nodes@, graph.edges@).len()
            &&& res.extends_resolved == extends_count(graph.nodes@, graph.edges@)
            &&& res.uses_resolved == uses_phase(idx, field_rows(graph.nodes@)).0.len()
            &&& res.macros_resolved == macro_edges_of(graph.nodes@, expansions@).len()
            &&& res.total_edges == sat_add(sat_add(sat_add(sat_add(sat_add(res.imports_resolved as int,
                    res.calls_resolved as int), res.impls_resolved as int), res.extends_resolved as int),
                    res.uses_resolved as int), res.macros_resolved as int)
            &&& res.total_refs == sat_add(sat_add(imports.len() as int, call_rows(graph.nodes@).len() as int),
                    field_rows(graph.nodes@).len() as int)
            &&& unresolved_views(res.unresolved@) == unresolved_refs(graph.nodes@)
            &&& edge_views(r.1@) == planned_edges(graph.nodes@, graph.edges@, expansions@)
            &&& nodes_match(r.2@, created_after(Seq::empty(), macro_calls(idx, expansions@, graph.nodes@)),
                    rust_symbols())
        }),
{
    let start = crate::clock::instant_now();
    let idx = build_symbol_index(graph);
    let imports = collect_import_rows(graph);
    let mut unresolved: Vec<UnresolvedRef> = Vec::new();

    let mut imp_edges: Vec<ResolutionEdge> = Vec::new();
    let imp_total = resolve_imports(graph, &idx, &mut imp_edges, &mut unresolved);
    let mut call_edges: Vec<ResolutionEdge> = Vec::new();
    let call_total = resolve_calls(graph, &idx, &imports, &mut call_edges, &mut unresolved);
    let mut impl_edges: Vec<ResolutionEdge> = Vec::new();
    resolve_implements(graph, &idx, &mut impl_edges);
    let ext = resolve_extends(graph);
    let mut use_edges: Vec<ResolutionEdge> = Vec::new();
    let use_total = resolve_uses(graph, &idx, &mut use_edges, &mut unresolved);

    let rust_table = RustStdlib.symbols();
    let mut macro_edges: Vec<ResolutionEdge> = Vec::new();
    proof {
        assert(edge_views(macro_edges@) =~= Seq::<EdgeSpec>::empty());
    }
    let expanded = run_macro_expansion(graph, expansions, &rust_table, &mut macro_edges);

    let imports_resolved = len_u64(imp_edges.len());
    let calls_resolved = len_u64(call_edges.len());
    let impls_resolved = len_u64(impl_edges.len());
    let uses_resolved = len_u64(use_edges.len());
    let macros_resolved = len_u64(macro_edges.len());

    let mut all: Vec<ResolutionEdge> = Vec::new();
    all.append(&mut imp_edges);
    all.append(&mut call_edges);
    all.append(&mut impl_edges);
    all.append(&mut use_edges);
    all.append(&mut macro_edges);
    proof {
        let idxv = symbol_index(graph.nodes@);
        let iv = import_rows(graph.nodes@);
        assert(edge_views(all@) =~= candidate_edges(graph.nodes@, graph.edges@, expansions@));
        assert(unresolved_views(unresolved@) =~= unresolved_refs(graph.nodes@));
    }
    let planned = select_new_edges(&all, &graph.edges);

    let total_edges = imports_resolved.saturating_add(calls_resolved).saturating_add(impls_resolved)
        .saturating_add(ext).saturating_add(uses_resolved).saturating_add(macros_resolved);
    let total_refs = imp_total.saturating_add(call_total).saturating_add(use_total);
    let result = ResolutionResult {
        imports_resolved,
        calls_resolved,
        impls_resolved,
        extends_resolved: ext,
        uses_resolved,
        macros_resolved,
        total_edges,
        total_refs,
        unresolved,
        elapsed_ms: crate::clock::millis_since(&start),
    };
    (result, planned, expanded.new_nodes)
}


// ---------------------------------------------------------------------------
// Idempotency
// ---------------------------------------------------------------------------

/// A table name that cannot be a `HasMethod_*` table.
pub open spec fn not_has_method_rel(r: Seq<char>) -> bool {
    r.len() > 0 && r[0] != 'H'
}

pub open spec fn all_not_has_method(c: Seq<EdgeSpec>) -> bool {
    forall|i: int| 0 <= i < c.len() ==> not_has_method_rel((#[trigger] c[i]).rel)
}

proof fn lemma_glob_rels(idx: Seq<SymView>, file: Seq<char>, m: Seq<char>, n: int)
    ensures
        all_not_has_method(glob_edges_upto(idx, file, m, n)),
    decreases n,
{
    reveal_strlit("Imports_File_");
    if n > 0 {
        lemma_glob_rels(idx, file, m, n - 1);
        let prev = glob_edges_upto(idx, file, m, n - 1);
        let e = idx[n - 1];
        let x = mk_edge_spec("Imports_File_"@ + e.label, file, e.id, 900, "import-scope-lookup"@);
        assert(x.rel[0] == 'I');
        assert(all_not_has_method(prev.push(x)));
    }
}

proof fn lemma_import_rels(idx: Seq<SymView>, rows: Seq<ImportRow>)
    ensures
        all_not_has_method(import_phase(idx, rows).0),
    decreases rows.len(),
{
    reveal_strlit("Imports_File_");
    if rows.len() > 0 {
        lemma_import_rels(idx, rows.drop_last());
        let row = rows.last();
        lemma_glob_rels(idx, spec_file_of_id(row.id), spec_normalize_import_path(row.path), idx.len() as int);
        let o = import_outcome(idx, row);
        assert(all_not_has_method(o.0));
        let prev = import_phase(idx, rows.drop_last());
        assert(all_not_has_method(prev.0 + o.0)) by {
            assert forall|i: int| 0 <= i < (prev.0 + o.0).len() implies not_has_method_rel(#[trigger] (prev.0 + o.0)[i].rel) by {
                if i < prev.0.len() {
                    assert((prev.0 + o.0)[i] == prev.0[i]);
                } else {
                    assert((prev.0 + o.0)[i] == o.0[i - prev.0.len()]);
                }
            }
        }
    }
}

proof fn lemma_call_rels(idx: Seq<SymView>, imports: Seq<ImportRow>, rows: Seq<CallRow>)
    ensures
        all_not_has_method(call_phase(idx, imports, rows).0),
    decreases rows.len(),
{
    reveal_strlit("Calls_");
    if rows.len() > 0 {
        lemma_call_rels(idx, imports, rows.drop_last());
        let o = call_outcome(idx, imports, rows.last());
        let prev = call_phase(idx, imports, rows.drop_last());
        assert(all_not_has_method(o.0));
        assert(all_not_has_method(prev.0 + o.0)) by {
            assert forall|i: int| 0 <= i < (prev.0 + o.0).len() implies not_has_method_rel(#[trigger] (prev.0 + o.0)[i].rel) by {
                if i < prev.0.len() {
                    assert((prev.0 + o.0)[i] == prev.0[i]);
                } else {
                    assert((prev.0 + o.0)[i] == o.0[i - prev.0.len()]);
                }
            }
        }
    }
}

proof fn lemma_uses_names_rels(idx: Seq<SymView>, field_id: Seq<char>, names: Seq<Seq<char>>)
    ensures
        all_not_has_method(uses_of_names(idx, field_id, names).0),
    decreases names.len(),
{
    reveal_strlit("Uses_Field_");
    if names.len() > 0 {
        lemma_uses_names_rels(idx, field_id, names.drop_last());
    }
}

proof fn lemma_uses_rels(idx: Seq<SymView>, rows: Seq<FieldRow>)
    ensures
        all_not_has_method(uses_phase(idx, rows).0),
    decreases rows.len(),
{
    if rows.len() > 0 {
        lemma_uses_rels(idx, rows.drop_last());
        let r = rows.last();
        lemma_uses_names_rels(idx, r.id, spec_type_identifiers(r.type_annotation));
        let o = uses_of_names(idx, r.id, spec_type_identifiers(r.type_annotation));
        let prev = uses_phase(idx, rows.drop_last());
        assert(all_not_has_method(prev.0 + o.0)) by {
            assert forall|i: int| 0 <= i < (prev.0 + o.0).len() implies not_has_method_rel(#[trigger] (prev.0 + o.0)[i].rel) by {
                if i < prev.0.len() {
                    assert((prev.0 + o.0)[i] == prev.0[i]);
                } else {
                    assert((prev.0 + o.0)[i] == o.0[i - prev.0.len()]);
                }
            }
        }
    }
}

proof fn lemma_concat_not_has_method(a: Seq<EdgeSpec>, b: Seq<EdgeSpec>)
    requires
        all_not_has_method(a),
        all_not_has_method(b),
    ensures
        all_not_has_method(a + b),
{
    assert forall|i: int| 0 <= i < (a + b).len() implies not_has_method_rel(#[trigger] (a + b)[i].rel) by {
        if i < a.len() {
            assert((a + b)[i] == a[i]);
        } else {
            assert((a + b)[i] == b[i - a.len()]);
        }
    }
}

proof fn lemma_candidate_rels(nodes: Seq<GraphNode>, edges: Seq<GraphEdge>, expansions: Seq<MacroExpansion>)
    ensures
        all_not_has_method(candidate_edges(nodes, edges, expansions)),
{
    reveal_strlit("Implements_");
    let idx = symbol_index(nodes);
    let imports = import_rows(nodes);
    lemma_import_rels(idx, imports);
    lemma_call_rels(idx, imports, call_rows(nodes));
    lemma_uses_rels(idx, field_rows(nodes));
    let im = implements_phase(idx, nodes, edges);
    assert(all_not_has_method(im)) by {
        assert forall|i: int| 0 <= i < im.len() implies not_has_method_rel(#[trigger] im[i].rel) by {
            let pairs = first_keys(impl_pairs(struct_method_rows(nodes, edges), trait_method_rows(nodes, edges)));
            assert(im[i] == implements_edge(idx, pairs[i]));
        }
    }
    lemma_concat_not_has_method(import_phase(idx, imports).0, call_phase(idx, imports, call_rows(nodes)).0);
    lemma_concat_not_has_method(import_phase(idx, imports).0 + call_phase(idx, imports, call_rows(nodes)).0, im);
    lemma_concat_not_has_method(
        import_phase(idx, imports).0 + call_phase(idx, imports, call_rows(nodes)).0 + im,
        uses_phase(idx, field_rows(nodes)).0,
    );
    lemma_macro_rels(Seq::empty(), macro_calls(idx, expansions, nodes));
    lemma_concat_not_has_method(
        import_phase(idx, imports).0 + call_phase(idx, imports, call_rows(nodes)).0 + im
            + uses_phase(idx, field_rows(nodes)).0,
        macro_edges_of(nodes, expansions),
    );
}

proof fn lemma_macro_rels(buf: Seq<EdgeSpec>, calls: Seq<MacroCall>)
    requires
        all_not_has_method(buf),
    ensures
        all_not_has_method(buffer_after(buf, calls)),
    decreases calls.len(),
{
    reveal_strlit("Calls_");
    if calls.len() > 0 {
        lemma_macro_rels(buf, calls.drop_last());
        let b = buffer_after(buf, calls.drop_last());
        let e = macro_edge(calls.last());
        assert(e.rel[0] == 'C');
        assert(not_has_method_rel(e.rel));
        if !(exists|j: int| 0 <= j < b.len() && same_key(#[trigger] b[j], e)) {
            assert forall|i: int| 0 <= i < b.push(e).len() implies not_has_method_rel(#[trigger] b.push(e)[i].rel) by {
                if i < b.len() {
                    assert(b.push(e)[i] == b[i]);
                }
            }
        }
    }
}

proof fn lemma_has_method_rows_append(
    nodes: Seq<GraphNode>,
    edges: Seq<GraphEdge>,
    extra: Seq<GraphEdge>,
    rel: Seq<char>,
    owner_label: Seq<char>,
)
    requires
        forall|i: int| 0 <= i < extra.len() ==> (#[trigger] extra[i]).rel@ != rel,
    ensures
        has_method_rows(nodes, edges + extra, rel, owner_label) == has_method_rows(nodes, edges, rel, owner_label),
    decreases extra.len(),
{
    if extra.len() > 0 {
        let shorter = extra.drop_last();
        assert((edges + extra).drop_last() =~= edges + shorter);
        assert((edges + extra).last() == extra.last());
        lemma_has_method_rows_append(nodes, edges, shorter, rel, owner_label);
    } else {
        assert(edges + extra =~= edges);
    }
}

proof fn lemma_new_edges_elements(c: Seq<EdgeSpec>, existing: Seq<GraphEdge>)
    ensures
        forall|k: int| 0 <= k < new_edges(c, existing).len() ==>
            exists|i: int| 0 <= i < c.len() && c[i] == #[trigger] new_edges(c, existing)[k],
        new_edges(c, existing).len() <= c.len(),
    decreases c.len(),
{
    if c.len() > 0 {
        lemma_new_edges_elements(c.drop_last(), existing);
        let p = new_edges(c.drop_last(), existing);
        assert forall|k: int| 0 <= k < new_edges(c, existing).len() implies
            exists|i: int| 0 <= i < c.len() && c[i] == #[trigger] new_edges(c, existing)[k] by {
            if k < p.len() {
                assert(new_edges(c, existing)[k] == p[k]);
                let i = choose|i: int| 0 <= i < c.drop_last().len() && c.drop_last()[i] == #[trigger] p[k];
                assert(c[i] == c.drop_last()[i]);
            } else {
                assert(new_edges(c, existing)[k] == c.last());
                assert(c[c.len() - 1] == c.last());
            }
        }
    }
}

proof fn lemma_new_edges_cover(c: Seq<EdgeSpec>, existing: Seq<GraphEdge>)
    ensures
        forall|i: int| 0 <= i < c.len() ==> graph_has_edge(existing, #[trigger] c[i])
            || (exists|j: int| 0 <= j < i && same_key(c[j], c[i]))
            || (exists|k: int| 0 <= k < new_edges(c, existing).len() && same_key(new_edges(c, existing)[k], c[i])),
    decreases c.len(),
{
    if c.len() > 0 {
        let d = c.drop_last();
        lemma_new_edges_cover(d, existing);
        let p = new_edges(d, existing);
        let full = new_edges(c, existing);
        assert(full.len() >= p.len());
        assert forall|k: int| 0 <= k < p.len() implies full[k] == p[k] by {}
        assert forall|i: int| 0 <= i < c.len() implies graph_has_edge(existing, #[trigger] c[i])
            || (exists|j: int| 0 <= j < i && same_key(c[j], c[i]))
            || (exists|k: int| 0 <= k < full.len() && same_key(full[k], c[i])) by {
            if i < d.len() {
                assert(c[i] == d[i]);
                if exists|j: int| 0 <= j < i && same_key(d[j], d[i]) {
                    let j = choose|j: int| 0 <= j < i && same_key(d[j], d[i]);
                    assert(c[j] == d[j]);
                } else if exists|k: int| 0 <= k < p.len() && same_key(p[k], d[i]) {
                    let k = choose|k: int| 0 <= k < p.len() && same_key(p[k], d[i]);
                    assert(full[k] == p[k]);
                }
            } else {
                let l = c.last();
                assert(c[i] == l);
                if graph_has_edge(existing, l) {
                } else if exists|j: int| 0 <= j < c.len() - 1 && same_key(#[trigger] c[j], l) {
                } else {
                    assert(full == p.push(l));
                    assert(same_key(full[p.len() as int], c[i]));
                }
            }
        }
    }
}

proof fn lemma_new_edges_none(c: Seq<EdgeSpec>, existing: Seq<GraphEdge>)
    requires
        forall|i: int| 0 <= i < c.len() ==> graph_has_edge(existing, #[trigger] c[i])
            || (exists|j: int| 0 <= j < i && same_key(c[j], c[i])),
    ensures
        new_edges(c, existing) == Seq::<EdgeSpec>::empty(),
    decreases c.len(),
{
    if c.len() > 0 {
        let d = c.drop_last();
        assert forall|i: int| 0 <= i < d.len() implies graph_has_edge(existing, #[trigger] d[i])
            || (exists|j: int| 0 <= j < i && same_key(d[j], d[i])) by {
            assert(d[i] == c[i]);
            if !graph_has_edge(existing, c[i]) {
                let j = choose|j: int| 0 <= j < i && same_key(c[j], c[i]);
                assert(d[j] == c[j]);
            }
        }
        lemma_new_edges_none(d, existing);
        let l = c.last();
        assert(c[c.len() - 1] == l);
        if !graph_has_edge(existing, l) {
            let j = choose|j: int| 0 <= j < c.len() - 1 && same_key(#[trigger] c[j], c[c.len() - 1]);
            assert(same_key(c[j], l));
        }
    }
}

/// Resolution is idempotent: once the planned edges are written into the
/// graph, resolving it again plans no further edge.
pub proof fn lemma_resolution_idempotent(nodes: Seq<GraphNode>, edges: Seq<GraphEdge>, written: Seq<GraphEdge>,
    expansions: Seq<MacroExpansion>)
    requires
        written.len() == planned_edges(nodes, edges, expansions).len(),
        forall|i: int| 0 <= i < written.len() ==> (#[trigger] written[i]).rel@ == planned_edges(nodes, edges, expansions)[i].rel
            && written[i].from_id@ == planned_edges(nodes, edges, expansions)[i].from
            && written[i].to_id@ == planned_edges(nodes, edges, expansions)[i].to,
    ensures
        planned_edges(nodes, edges + written, expansions) == Seq::<EdgeSpec>::empty(),
{
    reveal_strlit("HasMethod_Struct_Method");
    reveal_strlit("HasMethod_Trait_Method");
    let c = candidate_edges(nodes, edges, expansions);
    let plan = planned_edges(nodes, edges, expansions);
    let all = edges + written;
    lemma_candidate_rels(nodes, edges, expansions);
    lemma_new_edges_elements(c, edges);
    assert forall|i: int| 0 <= i < written.len() implies (#[trigger] written[i]).rel@ != "HasMethod_Struct_Method"@
        && written[i].rel@ != "HasMethod_Trait_Method"@ by {
        let k = choose|k: int| 0 <= k < c.len() && c[k] == #[trigger] plan[i];
        assert(not_has_method_rel(c[k].rel));
    }
    lemma_has_method_rows_append(nodes, edges, written, "HasMethod_Struct_Method"@, "Struct"@);
    lemma_has_method_rows_append(nodes, edges, written, "HasMethod_Trait_Method"@, "Trait"@);
    assert(candidate_edges(nodes, all, expansions) == c);
    lemma_new_edges_cover(c, edges);
    assert forall|i: int| 0 <= i < c.len() implies graph_has_edge(all, #[trigger] c[i])
        || (exists|j: int| 0 <= j < i && same_key(c[j], c[i])) by {
        if graph_has_edge(edges, c[i]) {
            let m = choose|m: int| 0 <= m < edges.len() && (#[trigger] edges[m]).rel@ == c[i].rel
                && edges[m].from_id@ == c[i].from && edges[m].to_id@ == c[i].to;
            assert(all[m] == edges[m]);
        } else if exists|j: int| 0 <= j < i && same_key(c[j], c[i]) {
        } else {
            let k = choose|k: int| 0 <= k < plan.len() && same_key(plan[k], c[i]);
            assert(all[edges.len() + k] == written[k]);
        }
    }
    lemma_new_edges_none(c, all);
}

} // verus!
