//! The Objective-C front end: `@interface` / `@implementation` blocks (and
//! categories) with their methods, protocols, C functions, `#import` /
//! `#include` and `@import`, and calls, both C calls and message sends.
//! Declarations nested in other constructs are reached by descending into
//! any node with named children. Functions, methods and call sites share
//! one numbering (`#n`).

use vstd::prelude::*;
use crate::text::{chars_of, str_eq, str_is_empty, to_owned_string, string_from_chars, unicode_is_alphabetic,
    char_is_alphabetic, trim, spec_trim};
use crate::parser::{append_chars, qual, spec_qual, ParseResult};
use crate::parser::naming::{decimal, push_decimal};
use crate::parser::grammars::{parse_objc_syntax, objc_syntax};
use crate::parser::rust::{rf, result_out};
use crate::parser::go::{bump, exec_bump, strip_trailing, ex_strip_trailing, after_last, ex_after_last};
use crate::parser::java::{strip_prefix_all, ex_strip_prefix_all};
use crate::parser::c::{trim_char, ex_trim_char, has_named_child, ex_has_named_child, numbered};
use crate::parser::numbering::{numbered_in, numbered_names_distinct, lemma_qn_number, lemma_numbered_none,
    lemma_plain_numbered, lemma_unnumbered_labels, lemma_numbered_cat, lemma_numbered_distinct};
use crate::parser::syntax::{is_refusal, language_refused_message, SyntaxNode, Counted, Out, NodeOut, RefOut, Emitted, no_out, cat, one, spec_line, line_of,
    field_index, field_pos, kind_index, kind_pos, field_text, exec_field_text, node_out, prop_views,
    lemma_cat_assoc, lemma_cat_none, prop, mk_node, mk_ref, NO_TREE};

verus! {

/// The text of the first child of kind `identifier`, `class_name` or
/// `type_identifier`, or the empty string.
pub open spec fn first_name_child(s: Seq<SyntaxNode>) -> Seq<char>
    decreases s.len(),
{
    if s.len() == 0 {
        Seq::empty()
    } else if s[0].kind@ == "identifier"@ || s[0].kind@ == "class_name"@ || s[0].kind@ == "type_identifier"@ {
        s[0].text@
    } else {
        first_name_child(s.drop_first())
    }
}

/// The name of a declaration: its `name` field, or else its first name child.
pub open spec fn objc_name(n: SyntaxNode) -> Seq<char> {
    let f = field_text(n, "name"@);
    if f.len() > 0 { f } else { first_name_child(n.children@) }
}

/// The text of the first child of kind `unary_selector` or `selector`.
pub open spec fn selector_child(s: Seq<SyntaxNode>) -> Option<Seq<char>>
    decreases s.len(),
{
    if s.len() == 0 {
        None
    } else if s[0].kind@ == "unary_selector"@ || s[0].kind@ == "selector"@ {
        Some(s[0].text@)
    } else {
        selector_child(s.drop_first())
    }
}

/// The keywords of the `keyword_declarator` children, each followed by `:`.
pub open spec fn keyword_parts(s: Seq<SyntaxNode>) -> Seq<char>
    decreases s.len(),
{
    if s.len() == 0 {
        Seq::empty()
    } else {
        let c = s.last();
        let kw = field_text(c, "keyword"@);
        keyword_parts(s.drop_last()) + if c.kind@ == "keyword_declarator"@ && kw.len() > 0 { kw.push(':') } else { Seq::empty() }
    }
}

/// A method's selector: the text of its first selector child; else its
/// keywords joined; else its `selector` field.
pub open spec fn method_selector(n: SyntaxNode) -> Seq<char> {
    match selector_child(n.children@) {
        Some(t) => t,
        None => if keyword_parts(n.children@).len() > 0 { keyword_parts(n.children@) } else { field_text(n, "selector"@) },
    }
}

/// The body of a method or function: its `body` field, or else its first
/// `compound_statement` child.
pub open spec fn objc_body_index(n: SyntaxNode) -> Option<int> {
    match field_index(n.children@, "body"@) {
        Some(i) => Some(i),
        None => kind_index(n.children@, "compound_statement"@),
    }
}

/// The callee of a message send: its `selector` field, or else the text of
/// its first `keyword_selector` or `unary_selector` child.
pub open spec fn message_selector(n: SyntaxNode) -> Seq<char> {
    let f = field_text(n, "selector"@);
    if f.len() > 0 { f } else { sel_kind_child(n.children@) }
}

pub open spec fn sel_kind_child(s: Seq<SyntaxNode>) -> Seq<char>
    decreases s.len(),
{
    if s.len() == 0 {
        Seq::empty()
    } else if s[0].kind@ == "keyword_selector"@ || s[0].kind@ == "unary_selector"@ {
        s[0].text@
    } else {
        sel_kind_child(s.drop_first())
    }
}

/// The callee a node names: for a call, the last `.` segment of its
/// `function` without trailing `(`; for a message send, its selector;
/// nothing for other nodes.
pub open spec fn objc_callee(n: SyntaxNode) -> Seq<char> {
    if n.kind@ == "call_expression"@ {
        strip_trailing(after_last(field_text(n, "function"@), '.'), '(')
    } else if n.kind@ == "message_expression"@ {
        message_selector(n)
    } else {
        Seq::empty()
    }
}

/// The CallSite and `Calls` reference a node yields, when it names a
/// callee that starts with a letter or `_`.
pub open spec fn objc_call_here(n: SyntaxNode, caller: Seq<char>, seq: u64) -> Counted {
    let callee = objc_callee(n);
    if callee.len() > 0 && (unicode_is_alphabetic(callee[0]) || callee[0] == '_') {
        let k = bump(seq);
        let id = caller + "::call@"@ + decimal(spec_line(n.start_row) as nat) + ":"@ + decimal(spec_line(n.start_col) as nat)
            + "#"@ + decimal(k as nat);
        (one(NodeOut { label: "CallSite"@, name: callee, qn: id, start: spec_line(n.start_row), end: spec_line(n.end_row),
                vis: "public"@, props: seq![("callee_name"@, callee)] },
            rf("Calls"@, caller, callee)), k)
    } else {
        (no_out(), seq)
    }
}

/// The calls under `n`, depth first (children last to first), numbered
/// from `seq` on.
pub open spec fn objc_calls(n: SyntaxNode, caller: Seq<char>, seq: u64) -> Counted
    decreases n,
{
    let h = objc_call_here(n, caller, seq);
    let r = objc_calls_rev(n.children@, caller, h.1);
    (cat(h.0, r.0), r.1)
}

pub open spec fn objc_calls_rev(s: Seq<SyntaxNode>, caller: Seq<char>, seq: u64) -> Counted
    decreases s,
{
    if s.len() == 0 {
        (no_out(), seq)
    } else {
        let a = objc_calls(s.last(), caller, seq);
        let b = objc_calls_rev(s.drop_last(), caller, a.1);
        (cat(a.0, b.0), b.1)
    }
}

/// The calls in the body of `n`.
pub open spec fn objc_body_calls(n: SyntaxNode, caller: Seq<char>, seq: u64) -> Counted {
    match objc_body_index(n) {
        Some(i) => objc_calls(n.children@[i], caller, seq),
        None => (no_out(), seq),
    }
}

/// A method of `scope`, named by its selector and numbered, with its calls.
pub open spec fn objc_method(n: SyntaxNode, scope: Seq<char>, seq: u64) -> Counted {
    let sel = method_selector(n);
    if sel.len() == 0 {
        (no_out(), seq)
    } else {
        let k = bump(seq);
        let qn = spec_qual(scope, sel) + "#"@ + decimal(k as nat);
        let calls = objc_body_calls(n, qn, k);
        (cat(one(NodeOut { label: "Method"@, name: sel, qn, start: spec_line(n.start_row), end: spec_line(n.end_row),
                    vis: "public"@, props: seq![("receiver_type"@, scope)] },
                rf("HasMethod"@, scope, qn)), calls.0), calls.1)
    }
}

pub open spec fn is_method_kind(k: Seq<char>) -> bool {
    k == "method_declaration"@ || k == "method_definition"@
}

/// The methods among `s` (grandchildren of a class), others skipped.
pub open spec fn objc_methods_only(s: Seq<SyntaxNode>, qn: Seq<char>, seq: u64) -> Counted
    decreases s.len(),
{
    if s.len() == 0 {
        (no_out(), seq)
    } else {
        let p = objc_methods_only(s.drop_last(), qn, seq);
        let q = if is_method_kind(s.last().kind@) { objc_method(s.last(), qn, p.1) } else { (no_out(), p.1) };
        (cat(p.0, q.0), q.1)
    }
}

/// The methods of a class: its method children, and the method children of
/// its children that have named children.
pub open spec fn objc_members(s: Seq<SyntaxNode>, qn: Seq<char>, seq: u64) -> Counted
    decreases s.len(),
{
    if s.len() == 0 {
        (no_out(), seq)
    } else {
        let p = objc_members(s.drop_last(), qn, seq);
        let c = s.last();
        let q = if is_method_kind(c.kind@) {
            objc_method(c, qn, p.1)
        } else if has_named_child(c) {
            objc_methods_only(c.children@, qn, p.1)
        } else {
            (no_out(), p.1)
        };
        (cat(p.0, q.0), q.1)
    }
}

/// A class interface or implementation (a category when `is_category`),
/// as a `Struct`, with its methods.
pub open spec fn objc_class(n: SyntaxNode, scope: Seq<char>, is_category: bool, seq: u64) -> Counted {
    let name = objc_name(n);
    if name.len() == 0 {
        (no_out(), seq)
    } else {
        let qn = spec_qual(scope, name);
        let m = objc_members(n.children@, qn, seq);
        (cat(one(NodeOut { label: "Struct"@, name, qn, start: spec_line(n.start_row), end: spec_line(n.end_row),
                    vis: "public"@, props: if is_category { seq![("is_category"@, "true"@)] } else { Seq::empty() } },
                rf("Defines"@, scope, qn)), m.0), m.1)
    }
}

/// A protocol, as a trait.
pub open spec fn objc_protocol(n: SyntaxNode, scope: Seq<char>) -> Out {
    let name = objc_name(n);
    if name.len() == 0 {
        no_out()
    } else {
        let qn = spec_qual(scope, name);
        one(NodeOut { label: "Trait"@, name, qn, start: spec_line(n.start_row), end: spec_line(n.end_row),
                vis: "public"@, props: Seq::empty() },
            rf("Defines"@, scope, qn))
    }
}

/// The name of a C function: the `declarator` text of its declarator, or
/// else its name.
pub open spec fn objc_function_name(n: SyntaxNode) -> Seq<char> {
    let d = match field_index(n.children@, "declarator"@) {
        Some(i) => field_text(n.children@[i], "declarator"@),
        None => Seq::empty(),
    };
    if d.len() > 0 { d } else { objc_name(n) }
}

/// A C function, numbered, with its calls.
pub open spec fn objc_function(n: SyntaxNode, scope: Seq<char>, seq: u64) -> Counted {
    let name = objc_function_name(n);
    if name.len() == 0 {
        (no_out(), seq)
    } else {
        let k = bump(seq);
        let qn = spec_qual(scope, name) + "#"@ + decimal(k as nat);
        let calls = objc_body_calls(n, qn, k);
        (cat(one(NodeOut { label: "Function"@, name, qn, start: spec_line(n.start_row), end: spec_line(n.end_row),
                    vis: "public"@, props: Seq::empty() },
                rf("Defines"@, scope, qn)), calls.0), calls.1)
    }
}

/// The target of `#import` / `#include`, without its delimiters.
pub open spec fn objc_import_target(text: Seq<char>) -> Seq<char> {
    spec_trim(trim_char(trim_char(trim_char(spec_trim(strip_prefix_all(strip_prefix_all(spec_trim(text), "#import"@),
        "#include"@)), '<'), '>'), '"'))
}

/// The module of an `@import`.
pub open spec fn module_import_target(text: Seq<char>) -> Seq<char> {
    spec_trim(strip_trailing(strip_prefix_all(spec_trim(text), "@import"@), ';'))
}

/// An import: named by `name`, keyed `scope::import:target`.
pub open spec fn objc_import_out(n: SyntaxNode, scope: Seq<char>, cleaned: Seq<char>, name: Seq<char>) -> Out {
    if cleaned.len() == 0 {
        no_out()
    } else {
        one(NodeOut { label: "Import"@, name, qn: spec_qual(scope, "import:"@ + cleaned), start: spec_line(n.start_row),
                end: spec_line(n.end_row), vis: "public"@, props: seq![("target"@, cleaned)] },
            rf("Imports"@, scope, cleaned))
    }
}

/// What one node yields; a node of no known kind that has named children
/// is searched in turn.
pub open spec fn objc_item(n: SyntaxNode, scope: Seq<char>, seq: u64) -> Counted
    decreases n,
{
    let k = n.kind@;
    if k == "class_interface"@ || k == "class_implementation"@ {
        objc_class(n, scope, false, seq)
    } else if k == "category_interface"@ || k == "category_implementation"@ {
        objc_class(n, scope, true, seq)
    } else if k == "protocol_declaration"@ {
        (objc_protocol(n, scope), seq)
    } else if k == "function_definition"@ {
        objc_function(n, scope, seq)
    } else if k == "preproc_include"@ {
        let cleaned = objc_import_target(n.text@);
        (objc_import_out(n, scope, cleaned, after_last(cleaned, '/')), seq)
    } else if k == "module_import"@ {
        let cleaned = module_import_target(n.text@);
        (objc_import_out(n, scope, cleaned, cleaned), seq)
    } else if has_named_child(n) {
        objc_items(n.children@, scope, seq)
    } else {
        (no_out(), seq)
    }
}

pub open spec fn objc_items(s: Seq<SyntaxNode>, scope: Seq<char>, seq: u64) -> Counted
    decreases s,
{
    if s.len() == 0 {
        (no_out(), seq)
    } else {
        let p = objc_items(s.drop_last(), scope, seq);
        let q = objc_item(s.last(), scope, p.1);
        (cat(p.0, q.0), q.1)
    }
}

/// What a whole file yields.
pub open spec fn objc_file_out(root: SyntaxNode, file: Seq<char>) -> Out {
    objc_items(root.children@, file, 0).0
}

// ---------------------------------------------------------------------------
// Extraction
// ---------------------------------------------------------------------------

fn ex_first_name_child(s: &Vec<SyntaxNode>) -> (r: String)
    ensures
        r@ == first_name_child(s@),
{
    let mut i: usize = 0;
    assert(s@.skip(0) =~= s@);
    while i < s.len()
        invariant
            i <= s@.len(),
            first_name_child(s@) == first_name_child(s@.skip(i as int)),
        decreases s@.len() - i,
    {
        let c = &s[i];
        proof {
            assert(s@.skip(i as int)[0] == s@[i as int]);
            assert(s@.skip(i as int).drop_first() =~= s@.skip(i + 1));
        }
        let k = c.kind.as_str();
        if str_eq(k, "identifier") || str_eq(k, "class_name") || str_eq(k, "type_identifier") {
            return to_owned_string(c.text.as_str());
        }
        i += 1;
    }
    assert(s@.skip(i as int) =~= Seq::<SyntaxNode>::empty());
    String::new()
}

fn ex_objc_name(n: &SyntaxNode) -> (r: String)
    ensures
        r@ == objc_name(*n),
{
    let f = exec_field_text(n, "name");
    if !str_is_empty(f.as_str()) { f } else { ex_first_name_child(&n.children) }
}

fn ex_selector_child(s: &Vec<SyntaxNode>) -> (r: Option<String>)
    ensures
        match r {
            Some(t) => selector_child(s@) == Some(t@),
            None => selector_child(s@) is None,
        },
{
    let mut i: usize = 0;
    assert(s@.skip(0) =~= s@);
    while i < s.len()
        invariant
            i <= s@.len(),
            selector_child(s@) == selector_child(s@.skip(i as int)),
        decreases s@.len() - i,
    {
        let c = &s[i];
        proof {
            assert(s@.skip(i as int)[0] == s@[i as int]);
            assert(s@.skip(i as int).drop_first() =~= s@.skip(i + 1));
        }
        if str_eq(c.kind.as_str(), "unary_selector") || str_eq(c.kind.as_str(), "selector") {
            return Some(to_owned_string(c.text.as_str()));
        }
        i += 1;
    }
    assert(s@.skip(i as int) =~= Seq::<SyntaxNode>::empty());
    None
}

fn ex_keyword_parts(s: &Vec<SyntaxNode>) -> (r: Vec<char>)
    ensures
        r@ == keyword_parts(s@),
{
    let mut out: Vec<char> = Vec::new();
    let mut i: usize = 0;
    assert(s@.take(0) =~= Seq::<SyntaxNode>::empty());
    while i < s.len()
        invariant
            i <= s@.len(),
            out@ == keyword_parts(s@.take(i as int)),
        decreases s@.len() - i,
    {
        let c = &s[i];
        proof {
            let t = s@.take(i + 1);
            assert(t.drop_last() =~= s@.take(i as int));
            assert(t.last() == s@[i as int]);
        }
        let kw = exec_field_text(c, "keyword");
        if str_eq(c.kind.as_str(), "keyword_declarator") && !str_is_empty(kw.as_str()) {
            let ghost before = out@;
            append_chars(&mut out, &chars_of(kw.as_str()));
            out.push(':');
            assert(out@ =~= before + kw@.push(':'));
        } else {
            assert(out@ =~= out@ + Seq::<char>::empty());
        }
        i += 1;
    }
    assert(s@.take(s@.len() as int) =~= s@);
    out
}

fn ex_method_selector(n: &SyntaxNode) -> (r: String)
    ensures
        r@ == method_selector(*n),
{
    match ex_selector_child(&n.children) {
        Some(t) => t,
        None => {
            let parts = ex_keyword_parts(&n.children);
            if parts.len() > 0 { string_from_chars(&parts) } else { exec_field_text(n, "selector") }
        },
    }
}

fn ex_objc_body_index(n: &SyntaxNode) -> (r: Option<usize>)
    ensures
        match r {
            Some(i) => objc_body_index(*n) == Some(i as int) && i < n.children@.len(),
            None => objc_body_index(*n) is None,
        },
{
    match field_pos(n, "body") {
        Some(i) => Some(i),
        None => kind_pos(n, "compound_statement"),
    }
}

fn ex_sel_kind_child(s: &Vec<SyntaxNode>) -> (r: String)
    ensures
        r@ == sel_kind_child(s@),
{
    let mut i: usize = 0;
    assert(s@.skip(0) =~= s@);
    while i < s.len()
        invariant
            i <= s@.len(),
            sel_kind_child(s@) == sel_kind_child(s@.skip(i as int)),
        decreases s@.len() - i,
    {
        let c = &s[i];
        proof {
            assert(s@.skip(i as int)[0] == s@[i as int]);
            assert(s@.skip(i as int).drop_first() =~= s@.skip(i + 1));
        }
        if str_eq(c.kind.as_str(), "keyword_selector") || str_eq(c.kind.as_str(), "unary_selector") {
            return to_owned_string(c.text.as_str());
        }
        i += 1;
    }
    assert(s@.skip(i as int) =~= Seq::<SyntaxNode>::empty());
    String::new()
}

fn ex_objc_callee(n: &SyntaxNode) -> (r: String)
    ensures
        r@ == objc_callee(*n),
{
    if str_eq(n.kind.as_str(), "call_expression") {
        let f = exec_field_text(n, "function");
        let a = ex_after_last(&chars_of(f.as_str()), '.');
        string_from_chars(&ex_strip_trailing(a, '('))
    } else if str_eq(n.kind.as_str(), "message_expression") {
        let f = exec_field_text(n, "selector");
        if !str_is_empty(f.as_str()) { f } else { ex_sel_kind_child(&n.children) }
    } else {
        String::new()
    }
}

fn ex_objc_call_here(em: &mut Emitted, n: &SyntaxNode, caller: &str, seq: u64) -> (k: u64)
    ensures
        final(em).out() == cat(old(em).out(), objc_call_here(*n, caller@, seq).0),
        k == objc_call_here(*n, caller@, seq).1,
{
    proof { lemma_cat_none(old(em).out()); }
    let callee = ex_objc_callee(n);
    let tc = chars_of(callee.as_str());
    if tc.len() == 0 {
        return seq;
    }
    if !(char_is_alphabetic(tc[0]) || tc[0] == '_') {
        return seq;
    }
    let k = exec_bump(seq);
    let mut id = chars_of(caller);
    append_chars(&mut id, &chars_of("::call@"));
    push_decimal(&mut id, line_of(n.start_row));
    append_chars(&mut id, &chars_of(":"));
    push_decimal(&mut id, line_of(n.start_col));
    append_chars(&mut id, &chars_of("#"));
    push_decimal(&mut id, k);
    let ids = string_from_chars(&id);
    let mut props: Vec<(String, String)> = Vec::new();
    props.push(prop("callee_name", callee.as_str()));
    assert(prop_views(props@) =~= seq![("callee_name"@, callee@)]);
    let node = mk_node("CallSite", callee.as_str(), ids.as_str(), line_of(n.start_row), line_of(n.end_row), "public", props);
    em.emit(node, mk_ref("Calls", caller, callee.as_str()));
    k
}

fn ex_objc_calls(em: &mut Emitted, n: &SyntaxNode, caller: &str, seq: u64) -> (k: u64)
    ensures
        final(em).out() == cat(old(em).out(), objc_calls(*n, caller@, seq).0),
        k == objc_calls(*n, caller@, seq).1,
    decreases n,
{
    let h = ex_objc_call_here(em, n, caller, seq);
    let ghost base = em.out();
    let ghost total = objc_calls_rev(n.children@, caller@, h);
    let mut cur = h;
    let mut i: usize = n.children.len();
    assert(n.children@.take(i as int) =~= n.children@);
    while i > 0
        invariant
            i <= n.children@.len(),
            total == objc_calls_rev(n.children@, caller@, h),
            cat(em.out(), objc_calls_rev(n.children@.take(i as int), caller@, cur).0) == cat(base, total.0),
            objc_calls_rev(n.children@.take(i as int), caller@, cur).1 == total.1,
        decreases i,
    {
        i -= 1;
        let ghost before = em.out();
        let ghost before_seq = cur;
        cur = ex_objc_calls(em, &n.children[i], caller, cur);
        proof {
            let t = n.children@.take(i + 1);
            assert(t.drop_last() =~= n.children@.take(i as int));
            assert(t.last() == n.children@[i as int]);
            let a = objc_calls(n.children@[i as int], caller@, before_seq);
            lemma_cat_assoc(before, a.0, objc_calls_rev(n.children@.take(i as int), caller@, a.1).0);
        }
    }
    proof {
        assert(n.children@.take(0) =~= Seq::<SyntaxNode>::empty());
        lemma_cat_none(em.out());
        lemma_cat_assoc(old(em).out(), objc_call_here(*n, caller@, seq).0, total.0);
    }
    cur
}

fn ex_objc_body_calls(em: &mut Emitted, n: &SyntaxNode, caller: &str, seq: u64) -> (k: u64)
    ensures
        final(em).out() == cat(old(em).out(), objc_body_calls(*n, caller@, seq).0),
        k == objc_body_calls(*n, caller@, seq).1,
{
    match ex_objc_body_index(n) {
        Some(i) => ex_objc_calls(em, &n.children[i], caller, seq),
        None => {
            proof { lemma_cat_none(em.out()); }
            seq
        },
    }
}

fn ex_objc_method(em: &mut Emitted, n: &SyntaxNode, scope: &str, seq: u64) -> (k: u64)
    ensures
        final(em).out() == cat(old(em).out(), objc_method(*n, scope@, seq).0),
        k == objc_method(*n, scope@, seq).1,
{
    let sel = ex_method_selector(n);
    if str_is_empty(sel.as_str()) {
        proof { lemma_cat_none(old(em).out()); }
        return seq;
    }
    let k = exec_bump(seq);
    let qn = numbered(scope, sel.as_str(), k);
    let mut props: Vec<(String, String)> = Vec::new();
    props.push(prop("receiver_type", scope));
    assert(prop_views(props@) =~= seq![("receiver_type"@, scope@)]);
    let node = mk_node("Method", sel.as_str(), qn.as_str(), line_of(n.start_row), line_of(n.end_row), "public", props);
    let ghost e0 = em.out();
    let ghost head = one(node_out(node), RefOut { kind: "HasMethod"@, from: scope@, to: qn@ });
    em.emit(node, mk_ref("HasMethod", scope, qn.as_str()));
    let r = ex_objc_body_calls(em, n, qn.as_str(), k);
    proof { lemma_cat_assoc(e0, head, objc_body_calls(*n, qn@, k).0); }
    r
}

fn exec_is_method_kind(k: &str) -> (r: bool)
    ensures
        r == is_method_kind(k@),
{
    str_eq(k, "method_declaration") || str_eq(k, "method_definition")
}

fn ex_objc_methods_only(em: &mut Emitted, s: &Vec<SyntaxNode>, qn: &str, seq: u64) -> (k: u64)
    ensures
        final(em).out() == cat(old(em).out(), objc_methods_only(s@, qn@, seq).0),
        k == objc_methods_only(s@, qn@, seq).1,
{
    proof { lemma_cat_none(old(em).out()); }
    let mut cur = seq;
    let mut i: usize = 0;
    assert(s@.take(0) =~= Seq::<SyntaxNode>::empty());
    while i < s.len()
        invariant
            i <= s@.len(),
            em.out() == cat(old(em).out(), objc_methods_only(s@.take(i as int), qn@, seq).0),
            cur == objc_methods_only(s@.take(i as int), qn@, seq).1,
        decreases s@.len() - i,
    {
        let c = &s[i];
        let ghost before = em.out();
        let ghost before_seq = cur;
        proof {
            let t = s@.take(i + 1);
            assert(t.drop_last() =~= s@.take(i as int));
            assert(t.last() == s@[i as int]);
        }
        if exec_is_method_kind(c.kind.as_str()) {
            cur = ex_objc_method(em, c, qn, cur);
        } else {
            proof { lemma_cat_none(before); }
        }
        proof {
            let q = if is_method_kind(c.kind@) { objc_method(*c, qn@, before_seq) } else { (no_out(), before_seq) };
            lemma_cat_assoc(old(em).out(), objc_methods_only(s@.take(i as int), qn@, seq).0, q.0);
        }
        i += 1;
    }
    assert(s@.take(s@.len() as int) =~= s@);
    cur
}

fn ex_objc_members(em: &mut Emitted, s: &Vec<SyntaxNode>, qn: &str, seq: u64) -> (k: u64)
    ensures
        final(em).out() == cat(old(em).out(), objc_members(s@, qn@, seq).0),
        k == objc_members(s@, qn@, seq).1,
{
    proof { lemma_cat_none(old(em).out()); }
    let mut cur = seq;
    let mut i: usize = 0;
    assert(s@.take(0) =~= Seq::<SyntaxNode>::empty());
    while i < s.len()
        invariant
            i <= s@.len(),
            em.out() == cat(old(em).out(), objc_members(s@.take(i as int), qn@, seq).0),
            cur == objc_members(s@.take(i as int), qn@, seq).1,
        decreases s@.len() - i,
    {
        let c = &s[i];
        let ghost before = em.out();
        let ghost before_seq = cur;
        proof {
            let t = s@.take(i + 1);
            assert(t.drop_last() =~= s@.take(i as int));
            assert(t.last() == s@[i as int]);
        }
        if exec_is_method_kind(c.kind.as_str()) {
            cur = ex_objc_method(em, c, qn, cur);
        } else if ex_has_named_child(c) {
            cur = ex_objc_methods_only(em, &c.children, qn, cur);
        } else {
            proof { lemma_cat_none(before); }
        }
        proof {
            let q = if is_method_kind(c.kind@) {
                objc_method(*c, qn@, before_seq)
            } else if has_named_child(*c) {
                objc_methods_only(c.children@, qn@, before_seq)
            } else {
                (no_out(), before_seq)
            };
            lemma_cat_assoc(old(em).out(), objc_members(s@.take(i as int), qn@, seq).0, q.0);
        }
        i += 1;
    }
    assert(s@.take(s@.len() as int) =~= s@);
    cur
}

fn ex_objc_class(em: &mut Emitted, n: &SyntaxNode, scope: &str, is_category: bool, seq: u64) -> (k: u64)
    ensures
        final(em).out() == cat(old(em).out(), objc_class(*n, scope@, is_category, seq).0),
        k == objc_class(*n, scope@, is_category, seq).1,
{
    let name = ex_objc_name(n);
    if str_is_empty(name.as_str()) {
        proof { lemma_cat_none(old(em).out()); }
        return seq;
    }
    let qn = qual(scope, name.as_str());
    let mut props: Vec<(String, String)> = Vec::new();
    if is_category {
        props.push(prop("is_category", "true"));
        assert(prop_views(props@) =~= seq![("is_category"@, "true"@)]);
    } else {
        assert(prop_views(props@) =~= Seq::empty());
    }
    let node = mk_node("Struct", name.as_str(), qn.as_str(), line_of(n.start_row), line_of(n.end_row), "public", props);
    let ghost e0 = em.out();
    let ghost head = one(node_out(node), RefOut { kind: "Defines"@, from: scope@, to: qn@ });
    em.emit(node, mk_ref("Defines", scope, qn.as_str()));
    let r = ex_objc_members(em, &n.children, qn.as_str(), seq);
    proof { lemma_cat_assoc(e0, head, objc_members(n.children@, qn@, seq).0); }
    r
}

fn ex_objc_protocol(em: &mut Emitted, n: &SyntaxNode, scope: &str)
    ensures
        final(em).out() == cat(old(em).out(), objc_protocol(*n, scope@)),
{
    let name = ex_objc_name(n);
    if str_is_empty(name.as_str()) {
        proof { lemma_cat_none(old(em).out()); }
        return;
    }
    let qn = qual(scope, name.as_str());
    let props: Vec<(String, String)> = Vec::new();
    assert(prop_views(props@) =~= Seq::empty());
    let node = mk_node("Trait", name.as_str(), qn.as_str(), line_of(n.start_row), line_of(n.end_row), "public", props);
    em.emit(node, mk_ref("Defines", scope, qn.as_str()));
}

fn ex_objc_function(em: &mut Emitted, n: &SyntaxNode, scope: &str, seq: u64) -> (k: u64)
    ensures
        final(em).out() == cat(old(em).out(), objc_function(*n, scope@, seq).0),
        k == objc_function(*n, scope@, seq).1,
{
    let d = match field_pos(n, "declarator") {
        Some(i) => exec_field_text(&n.children[i], "declarator"),
        None => String::new(),
    };
    let name = if !str_is_empty(d.as_str()) { d } else { ex_objc_name(n) };
    if str_is_empty(name.as_str()) {
        proof { lemma_cat_none(old(em).out()); }
        return seq;
    }
    let k = exec_bump(seq);
    let qn = numbered(scope, name.as_str(), k);
    let props: Vec<(String, String)> = Vec::new();
    assert(prop_views(props@) =~= Seq::empty());
    let node = mk_node("Function", name.as_str(), qn.as_str(), line_of(n.start_row), line_of(n.end_row), "public", props);
    let ghost e0 = em.out();
    let ghost head = one(node_out(node), RefOut { kind: "Defines"@, from: scope@, to: qn@ });
    em.emit(node, mk_ref("Defines", scope, qn.as_str()));
    let r = ex_objc_body_calls(em, n, qn.as_str(), k);
    proof { lemma_cat_assoc(e0, head, objc_body_calls(*n, qn@, k).0); }
    r
}

fn ex_objc_import_target(text: &str) -> (r: String)
    ensures
        r@ == objc_import_target(text@),
{
    let t0 = trim(text);
    let a = ex_strip_prefix_all(chars_of(t0.as_str()), &chars_of("#import"));
    let b = ex_strip_prefix_all(a, &chars_of("#include"));
    let t1 = trim(string_from_chars(&b).as_str());
    let c = ex_trim_char(chars_of(t1.as_str()), '<');
    let d = ex_trim_char(c, '>');
    let e = ex_trim_char(d, '"');
    trim(string_from_chars(&e).as_str())
}

fn ex_module_import_target(text: &str) -> (r: String)
    ensures
        r@ == module_import_target(text@),
{
    let t0 = trim(text);
    let a = ex_strip_prefix_all(chars_of(t0.as_str()), &chars_of("@import"));
    let b = ex_strip_trailing(a, ';');
    trim(string_from_chars(&b).as_str())
}

fn ex_objc_import(em: &mut Emitted, n: &SyntaxNode, scope: &str, cleaned: &str, name: &str)
    ensures
        final(em).out() == cat(old(em).out(), objc_import_out(*n, scope@, cleaned@, name@)),
{
    if str_is_empty(cleaned) {
        proof { lemma_cat_none(old(em).out()); }
        return;
    }
    let mut key = chars_of("import:");
    append_chars(&mut key, &chars_of(cleaned));
    let qn = qual(scope, string_from_chars(&key).as_str());
    let mut props: Vec<(String, String)> = Vec::new();
    props.push(prop("target", cleaned));
    assert(prop_views(props@) =~= seq![("target"@, cleaned@)]);
    let node = mk_node("Import", name, qn.as_str(), line_of(n.start_row), line_of(n.end_row), "public", props);
    em.emit(node, mk_ref("Imports", scope, cleaned));
}

fn ex_objc_item(em: &mut Emitted, n: &SyntaxNode, scope: &str, seq: u64) -> (k: u64)
    ensures
        final(em).out() == cat(old(em).out(), objc_item(*n, scope@, seq).0),
        k == objc_item(*n, scope@, seq).1,
    decreases n, 1int,
{
    let kd = n.kind.as_str();
    if str_eq(kd, "class_interface") || str_eq(kd, "class_implementation") {
        ex_objc_class(em, n, scope, false, seq)
    } else if str_eq(kd, "category_interface") || str_eq(kd, "category_implementation") {
        ex_objc_class(em, n, scope, true, seq)
    } else if str_eq(kd, "protocol_declaration") {
        ex_objc_protocol(em, n, scope);
        seq
    } else if str_eq(kd, "function_definition") {
        ex_objc_function(em, n, scope, seq)
    } else if str_eq(kd, "preproc_include") {
        let cleaned = ex_objc_import_target(n.text.as_str());
        let name = string_from_chars(&ex_after_last(&chars_of(cleaned.as_str()), '/'));
        ex_objc_import(em, n, scope, cleaned.as_str(), name.as_str());
        seq
    } else if str_eq(kd, "module_import") {
        let cleaned = ex_module_import_target(n.text.as_str());
        ex_objc_import(em, n, scope, cleaned.as_str(), cleaned.as_str());
        seq
    } else if ex_has_named_child(n) {
        ex_objc_items(em, &n.children, scope, seq)
    } else {
        proof { lemma_cat_none(old(em).out()); }
        seq
    }
}

fn ex_objc_items(em: &mut Emitted, s: &Vec<SyntaxNode>, scope: &str, seq: u64) -> (k: u64)
    ensures
        final(em).out() == cat(old(em).out(), objc_items(s@, scope@, seq).0),
        k == objc_items(s@, scope@, seq).1,
    decreases s@, 0int,
{
    proof { lemma_cat_none(old(em).out()); }
    let mut cur = seq;
    let mut i: usize = 0;
    assert(s@.take(0) =~= Seq::<SyntaxNode>::empty());
    while i < s.len()
        invariant
            i <= s@.len(),
            em.out() == cat(old(em).out(), objc_items(s@.take(i as int), scope@, seq).0),
            cur == objc_items(s@.take(i as int), scope@, seq).1,
        decreases s@.len() - i,
    {
        proof {
            let t = s@.take(i + 1);
            assert(t.drop_last() =~= s@.take(i as int));
            assert(t.last() == s@[i as int]);
        }
        cur = ex_objc_item(em, &s[i], scope, cur);
        proof {
            let p = objc_items(s@.take(i as int), scope@, seq);
            lemma_cat_assoc(old(em).out(), p.0, objc_item(s@[i as int], scope@, p.1).0);
        }
        i += 1;
    }
    assert(s@.take(s@.len() as int) =~= s@);
    cur
}

/// The symbols and references of one Objective-C file, read off its syntax
/// tree.
pub fn extract_objc(root: &SyntaxNode, file_path: &str) -> (r: ParseResult)
    ensures
        result_out(r) == objc_file_out(*root, file_path@),
{
    let mut em = Emitted::new();
    let _ = ex_objc_items(&mut em, &root.children, file_path, 0);
    proof { lemma_cat_none(objc_items(root.children@, file_path@, 0).0); }
    ParseResult { nodes: em.nodes, refs: em.refs }
}

/// Parses one `.m` / `.mm` file and extracts its symbols and relationships.
/// The symbols are those the grammar's tree yields; when no tree comes back
/// (the parse ran past its time limit), the error; when tree-sitter
/// refuses the grammar, its message after `failed to set … language: `.
pub fn parse_objc_file(source: &str, file_path: &str) -> (r: Result<ParseResult, String>)
    ensures
        match r {
            Ok(p) => objc_syntax(source@) matches Some(t) && result_out(p) == objc_file_out(t, file_path@),
            Err(e) => e@ == NO_TREE@ || is_refusal("Objective-C "@, e@),
        },
{
    match parse_objc_syntax(source) {
        Ok(Some(tree)) => Ok(extract_objc(&tree, file_path)),
        Ok(None) => Err(to_owned_string(NO_TREE)),
        Err(detail) => Err(language_refused_message("Objective-C ", detail.as_str())),
    }
}


// ---------------------------------------------------------------------------
// Numbering
// ---------------------------------------------------------------------------

proof fn lemma_objc_call_here(n: SyntaxNode, caller: Seq<char>, seq: u64)
    requires
        objc_call_here(n, caller, seq).1 < u64::MAX,
    ensures
        seq <= objc_call_here(n, caller, seq).1,
        numbered_in(objc_call_here(n, caller, seq).0, seq as int, objc_call_here(n, caller, seq).1 as int),
{
    let callee = objc_callee(n);
    if callee.len() > 0 && (unicode_is_alphabetic(callee[0]) || callee[0] == '_') {
        let k = bump(seq);
        let p = caller + "::call@"@ + decimal(spec_line(n.start_row) as nat) + ":"@ + decimal(spec_line(n.start_col) as nat);
        lemma_qn_number(p, k as nat);
    }
}

proof fn lemma_objc_calls(n: SyntaxNode, caller: Seq<char>, seq: u64)
    requires
        objc_calls(n, caller, seq).1 < u64::MAX,
    ensures
        seq <= objc_calls(n, caller, seq).1,
        numbered_in(objc_calls(n, caller, seq).0, seq as int, objc_calls(n, caller, seq).1 as int),
    decreases n,
{
    let h = objc_call_here(n, caller, seq);
    lemma_objc_calls_rev(n.children@, caller, h.1);
    lemma_objc_call_here(n, caller, seq);
    let r = objc_calls_rev(n.children@, caller, h.1);
    lemma_numbered_cat(h.0, r.0, seq as int, h.1 as int, r.1 as int);
}

proof fn lemma_objc_calls_rev(s: Seq<SyntaxNode>, caller: Seq<char>, seq: u64)
    requires
        objc_calls_rev(s, caller, seq).1 < u64::MAX,
    ensures
        seq <= objc_calls_rev(s, caller, seq).1,
        numbered_in(objc_calls_rev(s, caller, seq).0, seq as int, objc_calls_rev(s, caller, seq).1 as int),
    decreases s,
{
    if s.len() > 0 {
        let a = objc_calls(s.last(), caller, seq);
        lemma_objc_calls_rev(s.drop_last(), caller, a.1);
        lemma_objc_calls(s.last(), caller, seq);
        let b = objc_calls_rev(s.drop_last(), caller, a.1);
        lemma_numbered_cat(a.0, b.0, seq as int, a.1 as int, b.1 as int);
    }
}

proof fn lemma_objc_body_calls(n: SyntaxNode, caller: Seq<char>, seq: u64)
    requires
        objc_body_calls(n, caller, seq).1 < u64::MAX,
    ensures
        seq <= objc_body_calls(n, caller, seq).1,
        numbered_in(objc_body_calls(n, caller, seq).0, seq as int, objc_body_calls(n, caller, seq).1 as int),
{
    match objc_body_index(n) {
        Some(i) => { lemma_objc_calls(n.children@[i], caller, seq); },
        None => { lemma_numbered_none(seq as int, seq as int); },
    }
}

proof fn lemma_objc_method(n: SyntaxNode, scope: Seq<char>, seq: u64)
    requires
        objc_method(n, scope, seq).1 < u64::MAX,
    ensures
        seq <= objc_method(n, scope, seq).1,
        numbered_in(objc_method(n, scope, seq).0, seq as int, objc_method(n, scope, seq).1 as int),
{
    let sel = method_selector(n);
    if sel.len() > 0 {
        let k = bump(seq);
        let qn = spec_qual(scope, sel) + "#"@ + decimal(k as nat);
        lemma_objc_body_calls(n, qn, k);
        lemma_qn_number(spec_qual(scope, sel), k as nat);
        let calls = objc_body_calls(n, qn, k);
        let head = one(NodeOut { label: "Method"@, name: sel, qn, start: spec_line(n.start_row), end: spec_line(n.end_row),
                vis: "public"@, props: seq![("receiver_type"@, scope)] }, rf("HasMethod"@, scope, qn));
        assert(numbered_in(head, seq as int, k as int));
        lemma_numbered_cat(head, calls.0, seq as int, k as int, calls.1 as int);
    } else {
        lemma_numbered_none(seq as int, seq as int);
    }
}

proof fn lemma_objc_methods_only(s: Seq<SyntaxNode>, qn: Seq<char>, seq: u64)
    requires
        objc_methods_only(s, qn, seq).1 < u64::MAX,
    ensures
        seq <= objc_methods_only(s, qn, seq).1,
        numbered_in(objc_methods_only(s, qn, seq).0, seq as int, objc_methods_only(s, qn, seq).1 as int),
    decreases s.len(),
{
    if s.len() == 0 {
        lemma_numbered_none(seq as int, seq as int);
    } else {
        let p = objc_methods_only(s.drop_last(), qn, seq);
        if is_method_kind(s.last().kind@) {
            lemma_objc_method(s.last(), qn, p.1);
        } else {
            lemma_numbered_none(p.1 as int, p.1 as int);
        }
        lemma_objc_methods_only(s.drop_last(), qn, seq);
        let q = if is_method_kind(s.last().kind@) { objc_method(s.last(), qn, p.1) } else { (no_out(), p.1) };
        lemma_numbered_cat(p.0, q.0, seq as int, p.1 as int, q.1 as int);
    }
}

proof fn lemma_objc_members(s: Seq<SyntaxNode>, qn: Seq<char>, seq: u64)
    requires
        objc_members(s, qn, seq).1 < u64::MAX,
    ensures
        seq <= objc_members(s, qn, seq).1,
        numbered_in(objc_members(s, qn, seq).0, seq as int, objc_members(s, qn, seq).1 as int),
    decreases s.len(),
{
    if s.len() == 0 {
        lemma_numbered_none(seq as int, seq as int);
    } else {
        let p = objc_members(s.drop_last(), qn, seq);
        let c = s.last();
        if is_method_kind(c.kind@) {
            lemma_objc_method(c, qn, p.1);
        } else if has_named_child(c) {
            lemma_objc_methods_only(c.children@, qn, p.1);
        } else {
            lemma_numbered_none(p.1 as int, p.1 as int);
        }
        lemma_objc_members(s.drop_last(), qn, seq);
        let q = if is_method_kind(c.kind@) {
            objc_method(c, qn, p.1)
        } else if has_named_child(c) {
            objc_methods_only(c.children@, qn, p.1)
        } else {
            (no_out(), p.1)
        };
        lemma_numbered_cat(p.0, q.0, seq as int, p.1 as int, q.1 as int);
    }
}

proof fn lemma_objc_item(n: SyntaxNode, scope: Seq<char>, seq: u64)
    requires
        objc_item(n, scope, seq).1 < u64::MAX,
    ensures
        seq <= objc_item(n, scope, seq).1,
        numbered_in(objc_item(n, scope, seq).0, seq as int, objc_item(n, scope, seq).1 as int),
    decreases n,
{
    lemma_unnumbered_labels();
    let k = n.kind@;
    let z = seq as int;
    if k == "class_interface"@ || k == "class_implementation"@ || k == "category_interface"@
        || k == "category_implementation"@ {
        let is_category = !(k == "class_interface"@ || k == "class_implementation"@);
        let name = objc_name(n);
        if name.len() > 0 {
            let qn = spec_qual(scope, name);
            lemma_objc_members(n.children@, qn, seq);
            let m = objc_members(n.children@, qn, seq);
            let head = one(NodeOut { label: "Struct"@, name, qn, start: spec_line(n.start_row), end: spec_line(n.end_row),
                    vis: "public"@, props: if is_category { seq![("is_category"@, "true"@)] } else { Seq::empty() } },
                rf("Defines"@, scope, qn));
            lemma_plain_numbered(head, z, z);
            lemma_numbered_cat(head, m.0, z, z, m.1 as int);
        }
    } else if k == "protocol_declaration"@ {
        lemma_plain_numbered(objc_protocol(n, scope), z, z);
    } else if k == "function_definition"@ {
        let name = objc_function_name(n);
        if name.len() > 0 {
            let kk = bump(seq);
            let qn = spec_qual(scope, name) + "#"@ + decimal(kk as nat);
            lemma_objc_body_calls(n, qn, kk);
            lemma_qn_number(spec_qual(scope, name), kk as nat);
            let calls = objc_body_calls(n, qn, kk);
            let head = one(NodeOut { label: "Function"@, name, qn, start: spec_line(n.start_row), end: spec_line(n.end_row),
                    vis: "public"@, props: Seq::empty() }, rf("Defines"@, scope, qn));
            assert(numbered_in(head, z, kk as int));
            lemma_numbered_cat(head, calls.0, z, kk as int, calls.1 as int);
        }
    } else if k == "preproc_include"@ {
        let cleaned = objc_import_target(n.text@);
        lemma_plain_numbered(objc_import_out(n, scope, cleaned, after_last(cleaned, '/')), z, z);
    } else if k == "module_import"@ {
        let cleaned = module_import_target(n.text@);
        lemma_plain_numbered(objc_import_out(n, scope, cleaned, cleaned), z, z);
    } else if has_named_child(n) {
        lemma_objc_items(n.children@, scope, seq);
    }
}

proof fn lemma_objc_items(s: Seq<SyntaxNode>, scope: Seq<char>, seq: u64)
    requires
        objc_items(s, scope, seq).1 < u64::MAX,
    ensures
        seq <= objc_items(s, scope, seq).1,
        numbered_in(objc_items(s, scope, seq).0, seq as int, objc_items(s, scope, seq).1 as int),
    decreases s,
{
    if s.len() > 0 {
        let p = objc_items(s.drop_last(), scope, seq);
        lemma_objc_item(s.last(), scope, p.1);
        lemma_objc_items(s.drop_last(), scope, seq);
        let q = objc_item(s.last(), scope, p.1);
        lemma_numbered_cat(p.0, q.0, seq as int, p.1 as int, q.1 as int);
    }
}

/// In what an Objective-C file yields, no two functions, methods or call
/// sites share a qualified name, as long as the file numbers fewer than
/// `u64::MAX` of them.
pub proof fn lemma_objc_numbered_names_distinct(root: SyntaxNode, file: Seq<char>)
    requires
        objc_items(root.children@, file, 0).1 < u64::MAX,
    ensures
        numbered_names_distinct(objc_file_out(root, file)),
{
    lemma_objc_items(root.children@, file, 0);
    lemma_numbered_distinct(objc_file_out(root, file), 0, objc_items(root.children@, file, 0).1 as int);
}

} // verus!
