//! The tree-sitter grammars, reached through trusted wrappers. Each parses
//! a source text with one grammar, under a time limit, and copies the
//! resulting tree into plain values; everything that is read off the tree
//! is verified elsewhere.

use vstd::prelude::*;
use core::ops::ControlFlow;
use crate::parser::syntax::{SyntaxNode, rows_ordered};

verus! {

/// How long the parse of one file may run: five seconds, far above the
/// time a large source file takes.
pub const PARSE_TIMEOUT_MILLIS: u64 = 5000;

/// The text from byte `i` on (empty past its end), as the parser asks for it.
pub fn text_from<'a>(bytes: &'a [u8], i: usize) -> (r: &'a [u8])
    ensures
        r@ == if i < bytes@.len() { bytes@.subrange(i as int, bytes@.len() as int) } else { Seq::empty() },
{
    if i < bytes.len() {
        vstd::slice::slice_subrange(bytes, i, bytes.len())
    } else {
        let e = vstd::slice::slice_subrange(bytes, 0, 0);
        assert(e@ =~= Seq::<u8>::empty());
        e
    }
}

/// Whether a parse that has run for `elapsed_ms` milliseconds goes on: it
/// stops once the time limit has passed.
pub fn progress_after(elapsed_ms: u64) -> (r: ControlFlow<()>)
    ensures
        r matches ControlFlow::Break(_) <==> elapsed_ms >= PARSE_TIMEOUT_MILLIS,
{
    if elapsed_ms >= PARSE_TIMEOUT_MILLIS {
        ControlFlow::Break(())
    } else {
        ControlFlow::Continue(())
    }
}

/// Whether a parse begun at `start` goes on, by `progress_after` on the
/// time since `start`. What it answers depends on the clock.
pub(crate) fn parse_progress(start: &std::time::Instant) -> ControlFlow<()> {
    progress_after(crate::clock::millis_since(start))
}

#[verifier::external_type_specification]
#[verifier::external_body]
pub struct ExTree(tree_sitter::Tree);

#[verifier::external_type_specification]
#[verifier::external_body]
pub struct ExParser(tree_sitter::Parser);

/// Runs `parser`, its language set, over `source`:
/// `Parser::parse_with_options` with no old tree, the text read through
/// `text_from`, and a progress callback, `parse_progress`, that stops the
/// parse once the time limit has passed (`None` then). Nothing is stated
/// of the tree, which the callers below copy and name.
#[verifier::external_body]
fn parse_tree(parser: &mut tree_sitter::Parser, source: &str) -> Option<tree_sitter::Tree> {
    let start = crate::clock::instant_now();
    let mut progress = |_: &tree_sitter::ParseState| parse_progress(&start);
    let options = tree_sitter::ParseOptions::new().progress_callback(&mut progress);
    let bytes = source.as_bytes();
    parser.parse_with_options(&mut |i: usize, _: tree_sitter::Point| text_from(bytes, i), None, Some(options))
}

#[verifier::external_type_specification]
#[verifier::external_body]
pub struct ExTreeSitterNode<'tree>(tree_sitter::Node<'tree>);

/// Copies a tree-sitter node and its subtree: kind, the field name it has
/// under its parent, whether it is named, its source text, its start row
/// and column, its end row, its byte span, and its children in order. Nothing is stated
/// of the copy: it stands for the tree as it came.
#[verifier::external_body]
fn syntax_of(node: tree_sitter::Node, field: &str, source: &str) -> SyntaxNode {
    SyntaxNode {
        kind: node.kind().to_string(),
        field: field.to_string(),
        named: node.is_named(),
        text: source[node.byte_range()].to_string(),
        start_row: node.start_position().row as u64,
        start_col: node.start_position().column as u64,
        end_row: node.end_position().row as u64,
        start_byte: node.start_byte() as u64,
        end_byte: node.end_byte() as u64,
        children: (0..node.child_count())
            .map(|i| syntax_of(node.child(i).unwrap(), node.field_name_for_child(i).unwrap_or(""), source))
            .collect(),
    }
}

/// The tree the tree-sitter Rust grammar gives a source text when the
/// parse runs to its end (`None` when it gives none).
pub uninterp spec fn rust_syntax(source: Seq<char>) -> Option<SyntaxNode>;

/// Parses with `tree_sitter_rust::LANGUAGE` (`Parser::set_language`, then
/// `parse_tree`). When the language is refused, `Err` carries the text of
/// tree-sitter's `LanguageError`; nothing is stated of that text or of when
/// it comes (it depends on the grammar's and the library's ABI versions). A
/// parse that runs to its end depends on the text alone, so the tree it
/// gives is named `rust_syntax`; a parse stopped by the time limit gives
/// `Ok(None)`, and when that happens depends on the clock. Each node of the
/// tree ends on a row at or after its start row (tree-sitter computes a
/// node's end point as its start point plus its extent).
#[verifier::external_body]
pub fn parse_rust_syntax(source: &str) -> (r: Result<Option<SyntaxNode>, String>)
    ensures
        r matches Ok(Some(t)) ==> Some(t) == rust_syntax(source@) && rows_ordered(t),
{
    let mut parser = tree_sitter::Parser::new();
    if let Err(e) = parser.set_language(&tree_sitter_rust::LANGUAGE.into()) {
        return Err(e.to_string());
    }
    match parse_tree(&mut parser, source) {
        Some(tree) => Ok(Some(syntax_of(tree.root_node(), "", source))),
        None => Ok(None),
    }
}

/// The tree the tree-sitter Python grammar gives a source text when the
/// parse runs to its end.
pub uninterp spec fn python_syntax(source: Seq<char>) -> Option<SyntaxNode>;

/// Parses with `tree_sitter_python::LANGUAGE`, as `parse_rust_syntax` does with
/// the Rust grammar; a tree that comes back is named `python_syntax`.
#[verifier::external_body]
pub fn parse_python_syntax(source: &str) -> (r: Result<Option<SyntaxNode>, String>)
    ensures
        r matches Ok(Some(t)) ==> Some(t) == python_syntax(source@) && rows_ordered(t),
{
    let mut parser = tree_sitter::Parser::new();
    if let Err(e) = parser.set_language(&tree_sitter_python::LANGUAGE.into()) {
        return Err(e.to_string());
    }
    match parse_tree(&mut parser, source) {
        Some(tree) => Ok(Some(syntax_of(tree.root_node(), "", source))),
        None => Ok(None),
    }
}

/// The tree the tree-sitter TypeScript grammar gives a source text when the
/// parse runs to its end.
pub uninterp spec fn typescript_syntax(source: Seq<char>) -> Option<SyntaxNode>;

/// Parses with `tree_sitter_typescript::LANGUAGE_TYPESCRIPT`, as `parse_rust_syntax` does with
/// the Rust grammar; a tree that comes back is named `typescript_syntax`.
#[verifier::external_body]
pub fn parse_typescript_syntax(source: &str) -> (r: Result<Option<SyntaxNode>, String>)
    ensures
        r matches Ok(Some(t)) ==> Some(t) == typescript_syntax(source@) && rows_ordered(t),
{
    let mut parser = tree_sitter::Parser::new();
    if let Err(e) = parser.set_language(&tree_sitter_typescript::LANGUAGE_TYPESCRIPT.into()) {
        return Err(e.to_string());
    }
    match parse_tree(&mut parser, source) {
        Some(tree) => Ok(Some(syntax_of(tree.root_node(), "", source))),
        None => Ok(None),
    }
}

/// The tree the tree-sitter Go grammar gives a source text when the
/// parse runs to its end.
pub uninterp spec fn go_syntax(source: Seq<char>) -> Option<SyntaxNode>;

/// Parses with `tree_sitter_go::LANGUAGE`, as `parse_rust_syntax` does with
/// the Rust grammar; a tree that comes back is named `go_syntax`.
#[verifier::external_body]
pub fn parse_go_syntax(source: &str) -> (r: Result<Option<SyntaxNode>, String>)
    ensures
        r matches Ok(Some(t)) ==> Some(t) == go_syntax(source@) && rows_ordered(t),
{
    let mut parser = tree_sitter::Parser::new();
    if let Err(e) = parser.set_language(&tree_sitter_go::LANGUAGE.into()) {
        return Err(e.to_string());
    }
    match parse_tree(&mut parser, source) {
        Some(tree) => Ok(Some(syntax_of(tree.root_node(), "", source))),
        None => Ok(None),
    }
}

/// The tree the tree-sitter Java grammar gives a source text when the
/// parse runs to its end.
pub uninterp spec fn java_syntax(source: Seq<char>) -> Option<SyntaxNode>;

/// Parses with `tree_sitter_java::LANGUAGE`, as `parse_rust_syntax` does with
/// the Rust grammar; a tree that comes back is named `java_syntax`.
#[verifier::external_body]
pub fn parse_java_syntax(source: &str) -> (r: Result<Option<SyntaxNode>, String>)
    ensures
        r matches Ok(Some(t)) ==> Some(t) == java_syntax(source@) && rows_ordered(t),
{
    let mut parser = tree_sitter::Parser::new();
    if let Err(e) = parser.set_language(&tree_sitter_java::LANGUAGE.into()) {
        return Err(e.to_string());
    }
    match parse_tree(&mut parser, source) {
        Some(tree) => Ok(Some(syntax_of(tree.root_node(), "", source))),
        None => Ok(None),
    }
}

/// The tree the tree-sitter C grammar gives a source text when the
/// parse runs to its end.
pub uninterp spec fn c_syntax(source: Seq<char>) -> Option<SyntaxNode>;

/// Parses with `tree_sitter_c::LANGUAGE`, as `parse_rust_syntax` does with
/// the Rust grammar; a tree that comes back is named `c_syntax`.
#[verifier::external_body]
pub fn parse_c_syntax(source: &str) -> (r: Result<Option<SyntaxNode>, String>)
    ensures
        r matches Ok(Some(t)) ==> Some(t) == c_syntax(source@) && rows_ordered(t),
{
    let mut parser = tree_sitter::Parser::new();
    if let Err(e) = parser.set_language(&tree_sitter_c::LANGUAGE.into()) {
        return Err(e.to_string());
    }
    match parse_tree(&mut parser, source) {
        Some(tree) => Ok(Some(syntax_of(tree.root_node(), "", source))),
        None => Ok(None),
    }
}

/// The tree the tree-sitter C++ grammar gives a source text when the
/// parse runs to its end.
pub uninterp spec fn cpp_syntax(source: Seq<char>) -> Option<SyntaxNode>;

/// Parses with `tree_sitter_cpp::LANGUAGE`, as `parse_rust_syntax` does with
/// the Rust grammar; a tree that comes back is named `cpp_syntax`.
#[verifier::external_body]
pub fn parse_cpp_syntax(source: &str) -> (r: Result<Option<SyntaxNode>, String>)
    ensures
        r matches Ok(Some(t)) ==> Some(t) == cpp_syntax(source@) && rows_ordered(t),
{
    let mut parser = tree_sitter::Parser::new();
    if let Err(e) = parser.set_language(&tree_sitter_cpp::LANGUAGE.into()) {
        return Err(e.to_string());
    }
    match parse_tree(&mut parser, source) {
        Some(tree) => Ok(Some(syntax_of(tree.root_node(), "", source))),
        None => Ok(None),
    }
}

/// The tree the tree-sitter Kotlin grammar gives a source text when the
/// parse runs to its end.
pub uninterp spec fn kotlin_syntax(source: Seq<char>) -> Option<SyntaxNode>;

/// Parses with `tree_sitter_kotlin_ng::LANGUAGE`, as `parse_rust_syntax` does with
/// the Rust grammar; a tree that comes back is named `kotlin_syntax`.
#[verifier::external_body]
pub fn parse_kotlin_syntax(source: &str) -> (r: Result<Option<SyntaxNode>, String>)
    ensures
        r matches Ok(Some(t)) ==> Some(t) == kotlin_syntax(source@) && rows_ordered(t),
{
    let mut parser = tree_sitter::Parser::new();
    if let Err(e) = parser.set_language(&tree_sitter_kotlin_ng::LANGUAGE.into()) {
        return Err(e.to_string());
    }
    match parse_tree(&mut parser, source) {
        Some(tree) => Ok(Some(syntax_of(tree.root_node(), "", source))),
        None => Ok(None),
    }
}

/// The tree the tree-sitter Objective-C grammar gives a source text when the
/// parse runs to its end.
pub uninterp spec fn objc_syntax(source: Seq<char>) -> Option<SyntaxNode>;

/// Parses with `tree_sitter_objc::LANGUAGE`, as `parse_rust_syntax` does with
/// the Rust grammar; a tree that comes back is named `objc_syntax`.
#[verifier::external_body]
pub fn parse_objc_syntax(source: &str) -> (r: Result<Option<SyntaxNode>, String>)
    ensures
        r matches Ok(Some(t)) ==> Some(t) == objc_syntax(source@) && rows_ordered(t),
{
    let mut parser = tree_sitter::Parser::new();
    if let Err(e) = parser.set_language(&tree_sitter_objc::LANGUAGE.into()) {
        return Err(e.to_string());
    }
    match parse_tree(&mut parser, source) {
        Some(tree) => Ok(Some(syntax_of(tree.root_node(), "", source))),
        None => Ok(None),
    }
}

} // verus!
