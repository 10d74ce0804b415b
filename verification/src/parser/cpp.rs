//! The C++ front end: namespaces (recorded as structs marked
//! `is_namespace`), classes, structs and unions with their members, enums,
//! templates (searched through), functions and methods, member prototypes
//! and fields, typedefs, `#include`s, `using` declarations, and calls.
//! Identifiers here include field identifiers. Functions, methods,
//! prototypes and call sites share one numbering (`#n`).

use vstd::prelude::*;
use crate::text::{chars_of, str_eq, str_is_empty, to_owned_string, string_from_chars, trim, spec_trim};
use crate::parser::{append_chars, qual, spec_qual, ParseResult};
use crate::parser::naming::decimal;
use crate::parser::grammars::{parse_cpp_syntax, cpp_syntax};
use crate::parser::rust::{rf, result_out};
use crate::parser::go::{bump, exec_bump, strip_trailing, ex_strip_trailing};
use crate::parser::java::{strip_prefix_all, ex_strip_prefix_all};
use crate::parser::c::{find_ident, ex_find_ident, name_or_ident, ex_name_or_ident, declarator_name,
    ex_declarator_name, has_named_child, ex_has_named_child, c_typedef, ex_c_typedef, c_include, ex_c_include,
    c_body_calls, ex_c_body_calls, numbered, lemma_c_body_calls, lemma_c_plain_items};
use crate::parser::numbering::{numbered_in, plain, numbered_names_distinct, lemma_qn_number, lemma_numbered_none,
    lemma_plain_numbered, lemma_plain_cat, lemma_unnumbered_labels, lemma_numbered_cat, lemma_numbered_distinct};
use crate::parser::syntax::{is_refusal, language_refused_message, SyntaxNode, Counted, Out, NodeOut, RefOut, Emitted, no_out, cat, one, spec_line, line_of,
    field_index, lemma_field_index, field_pos, node_out, prop_views, lemma_cat_assoc, lemma_cat_none, prop,
    mk_node, mk_ref, NO_TREE};

verus! {

/// A reference with no symbol.
pub open spec fn ref_only(r: RefOut) -> Out {
    Out { nodes: Seq::empty(), refs: seq![r] }
}

/// Some node of the subtree at `n` (`n` included) is a `function_declarator`.
pub open spec fn has_fn_declarator(n: SyntaxNode) -> bool
    decreases n,
{
    n.kind@ == "function_declarator"@ || has_fn_declarator_any(n.children@)
}

pub open spec fn has_fn_declarator_any(s: Seq<SyntaxNode>) -> bool
    decreases s,
{
    s.len() > 0 && (has_fn_declarator(s.last()) || has_fn_declarator_any(s.drop_last()))
}

/// The `Extends` references of a class: one per `base_class_clause`
/// child of its `bases` field, to the clause's trimmed text.
pub open spec fn cpp_bases(s: Seq<SyntaxNode>, qn: Seq<char>) -> Out
    decreases s.len(),
{
    if s.len() == 0 {
        no_out()
    } else {
        let c = s.last();
        let t = spec_trim(c.text@);
        cat(cpp_bases(s.drop_last(), qn),
            if c.kind@ == "base_class_clause"@ && t.len() > 0 { ref_only(rf("Extends"@, qn, t)) } else { no_out() })
    }
}

pub open spec fn cpp_extends(n: SyntaxNode, qn: Seq<char>) -> Out {
    match field_index(n.children@, "bases"@) {
        Some(i) => cpp_bases(n.children@[i].children@, qn),
        None => no_out(),
    }
}

/// An enum (its enumerators are not recorded).
pub open spec fn cpp_enum(n: SyntaxNode, scope: Seq<char>) -> Out {
    let name = name_or_ident(n, true);
    if name.len() == 0 {
        no_out()
    } else {
        let qn = spec_qual(scope, name);
        one(NodeOut { label: "Enum"@, name, qn, start: spec_line(n.start_row), end: spec_line(n.end_row),
                vis: "public"@, props: Seq::empty() },
            rf("Defines"@, scope, qn))
    }
}

/// A member function declared in a class body: a numbered method marked
/// `is_prototype`, with its class as receiver.
pub open spec fn cpp_member_proto(n: SyntaxNode, scope: Seq<char>, seq: u64) -> Counted {
    let name = find_ident(n, true);
    if name.len() == 0 {
        (no_out(), seq)
    } else {
        let k = bump(seq);
        let qn = spec_qual(scope, name) + "#"@ + decimal(k as nat);
        (one(NodeOut { label: "Method"@, name, qn, start: spec_line(n.start_row), end: spec_line(n.end_row),
                vis: "public"@, props: seq![("is_prototype"@, "true"@), ("receiver_type"@, scope)] },
            rf("HasMethod"@, scope, qn)), k)
    }
}

/// A data member, as a constant.
pub open spec fn cpp_member_field(n: SyntaxNode, scope: Seq<char>) -> Out {
    let name = find_ident(n, true);
    if name.len() == 0 {
        no_out()
    } else {
        let qn = spec_qual(scope, name);
        one(NodeOut { label: "Constant"@, name, qn, start: spec_line(n.start_row), end: spec_line(n.end_row),
                vis: "public"@, props: Seq::empty() },
            rf("Defines"@, scope, qn))
    }
}

/// The target of a declaration introduced by the keyword `kw` (a `using`
/// declaration, an import): its text after `kw`, without the final `;`.
pub open spec fn keyword_target(text: Seq<char>, kw: Seq<char>) -> Seq<char> {
    spec_trim(strip_trailing(spec_trim(strip_prefix_all(spec_trim(text), kw)), ';'))
}

/// A `using` declaration, as an Import marked `using`.
pub open spec fn cpp_using(n: SyntaxNode, scope: Seq<char>) -> Out {
    let cleaned = keyword_target(n.text@, "using"@);
    if cleaned.len() == 0 {
        no_out()
    } else {
        one(NodeOut { label: "Import"@, name: cleaned, qn: spec_qual(scope, "using:"@ + cleaned),
                start: spec_line(n.start_row), end: spec_line(n.end_row), vis: "public"@,
                props: seq![("using"@, "true"@)] },
            rf("Imports"@, scope, cleaned))
    }
}

/// A function definition: a method of `enc` when it stands in a class
/// body, a function otherwise; numbered, with its calls.
pub open spec fn cpp_function(n: SyntaxNode, scope: Seq<char>, enc: Option<Seq<char>>, seq: u64) -> Counted {
    let name = declarator_name(n, true);
    if name.len() == 0 {
        (no_out(), seq)
    } else {
        let k = bump(seq);
        let qn = spec_qual(scope, name) + "#"@ + decimal(k as nat);
        let node = NodeOut { label: if enc is Some { "Method"@ } else { "Function"@ }, name, qn,
            start: spec_line(n.start_row), end: spec_line(n.end_row), vis: "public"@,
            props: match enc { Some(r) => seq![("receiver_type"@, r)], None => Seq::empty() } };
        let calls = c_body_calls(n, qn, k);
        (cat(one(node, rf(if enc is Some { "HasMethod"@ } else { "Defines"@ }, scope, qn)), calls.0), calls.1)
    }
}

/// The members of the `body` of `n`, read in `scope` with enclosing type
/// `enc`.
pub open spec fn cpp_body(n: SyntaxNode, scope: Seq<char>, enc: Option<Seq<char>>, seq: u64) -> Counted
    decreases n, 1int,
{
    match field_index(n.children@, "body"@) {
        Some(i) => {
            proof { lemma_field_index(n.children@, "body"@); }
            cpp_items(n.children@[i].children@, scope, enc, seq)
        },
        None => (no_out(), seq),
    }
}

/// A namespace and its body; an anonymous namespace adds no symbol and
/// keeps the scope.
pub open spec fn cpp_namespace(n: SyntaxNode, scope: Seq<char>, seq: u64) -> Counted
    decreases n, 2int,
{
    let name = name_or_ident(n, true);
    if name.len() == 0 {
        cpp_body(n, scope, None, seq)
    } else {
        let qn = spec_qual(scope, name);
        let b = cpp_body(n, qn, None, seq);
        (cat(one(NodeOut { label: "Struct"@, name, qn, start: spec_line(n.start_row), end: spec_line(n.end_row),
                    vis: "public"@, props: seq![("is_namespace"@, "true"@)] },
                rf("Defines"@, scope, qn)), b.0), b.1)
    }
}

/// A class, struct or union: a `Struct` (marked `is_class` for a class),
/// its base classes, and its members.
pub open spec fn cpp_class(n: SyntaxNode, scope: Seq<char>, is_class: bool, seq: u64) -> Counted
    decreases n, 2int,
{
    let name = name_or_ident(n, true);
    if name.len() == 0 {
        (no_out(), seq)
    } else {
        let qn = spec_qual(scope, name);
        let b = cpp_body(n, qn, Some(qn), seq);
        (cat(cat(one(NodeOut { label: "Struct"@, name, qn, start: spec_line(n.start_row), end: spec_line(n.end_row),
                    vis: "public"@, props: if is_class { seq![("is_class"@, "true"@)] } else { Seq::empty() } },
                rf("Defines"@, scope, qn)), cpp_extends(n, qn)), b.0), b.1)
    }
}

/// What one node yields in `scope` with enclosing type `enc`; a node of no
/// known kind that has named children is searched in turn.
pub open spec fn cpp_item(n: SyntaxNode, scope: Seq<char>, enc: Option<Seq<char>>, seq: u64) -> Counted
    decreases n, 3int,
{
    let k = n.kind@;
    if k == "namespace_definition"@ {
        cpp_namespace(n, scope, seq)
    } else if k == "class_specifier"@ {
        cpp_class(n, scope, true, seq)
    } else if k == "struct_specifier"@ || k == "union_specifier"@ {
        cpp_class(n, scope, false, seq)
    } else if k == "enum_specifier"@ {
        (cpp_enum(n, scope), seq)
    } else if k == "template_declaration"@ {
        cpp_items(n.children@, scope, enc, seq)
    } else if k == "function_definition"@ {
        cpp_function(n, scope, enc, seq)
    } else if k == "field_declaration"@ {
        if enc is Some {
            if has_fn_declarator(n) { cpp_member_proto(n, scope, seq) } else { (cpp_member_field(n, scope), seq) }
        } else {
            (no_out(), seq)
        }
    } else if k == "type_definition"@ {
        (c_typedef(n, scope, true), seq)
    } else if k == "preproc_include"@ {
        (c_include(n, scope), seq)
    } else if k == "using_declaration"@ {
        (cpp_using(n, scope), seq)
    } else if has_named_child(n) {
        cpp_items(n.children@, scope, enc, seq)
    } else {
        (no_out(), seq)
    }
}

pub open spec fn cpp_items(s: Seq<SyntaxNode>, scope: Seq<char>, enc: Option<Seq<char>>, seq: u64) -> Counted
    decreases s, 0int,
{
    if s.len() == 0 {
        (no_out(), seq)
    } else {
        let p = cpp_items(s.drop_last(), scope, enc, seq);
        let q = cpp_item(s.last(), scope, enc, p.1);
        (cat(p.0, q.0), q.1)
    }
}

/// What a whole file yields.
pub open spec fn cpp_file_out(root: SyntaxNode, file: Seq<char>) -> Out {
    cpp_items(root.children@, file, None, 0).0
}

// ---------------------------------------------------------------------------
// Extraction
// ---------------------------------------------------------------------------

fn ex_has_fn_declarator(n: &SyntaxNode) -> (r: bool)
    ensures
        r == has_fn_declarator(*n),
    decreases n,
{
    if str_eq(n.kind.as_str(), "function_declarator") {
        return true;
    }
    let mut i: usize = n.children.len();
    assert(n.children@.take(i as int) =~= n.children@);
    while i > 0
        invariant
            i <= n.children@.len(),
            n.kind@ != "function_declarator"@,
            has_fn_declarator_any(n.children@) == has_fn_declarator_any(n.children@.take(i as int)),
        decreases i,
    {
        i -= 1;
        proof {
            let t = n.children@.take(i + 1);
            assert(t.drop_last() =~= n.children@.take(i as int));
            assert(t.last() == n.children@[i as int]);
        }
        if ex_has_fn_declarator(&n.children[i]) {
            return true;
        }
    }
    assert(n.children@.take(0) =~= Seq::<SyntaxNode>::empty());
    false
}

fn ex_cpp_extends(em: &mut Emitted, n: &SyntaxNode, qn: &str)
    ensures
        final(em).out() == cat(old(em).out(), cpp_extends(*n, qn@)),
{
    proof { lemma_cat_none(old(em).out()); }
    let i = match field_pos(n, "bases") {
        Some(i) => i,
        None => { return; },
    };
    let s = &n.children[i].children;
    assert(s@.take(0) =~= Seq::<SyntaxNode>::empty());
    let mut j: usize = 0;
    while j < s.len()
        invariant
            j <= s@.len(),
            s@ == n.children@[i as int].children@,
            em.out() == cat(old(em).out(), cpp_bases(s@.take(j as int), qn@)),
        decreases s@.len() - j,
    {
        let c = &s[j];
        let ghost before = em.out();
        let t = trim(c.text.as_str());
        if str_eq(c.kind.as_str(), "base_class_clause") && !str_is_empty(t.as_str()) {
            em.emit_ref(mk_ref("Extends", qn, t.as_str()));
        } else {
            proof { lemma_cat_none(before); }
        }
        proof {
            let u = s@.take(j + 1);
            assert(u.drop_last() =~= s@.take(j as int));
            assert(u.last() == s@[j as int]);
            let extra = if c.kind@ == "base_class_clause"@ && t@.len() > 0 { ref_only(rf("Extends"@, qn@, t@)) } else { no_out() };
            lemma_cat_assoc(old(em).out(), cpp_bases(s@.take(j as int), qn@), extra);
        }
        j += 1;
    }
    assert(s@.take(s@.len() as int) =~= s@);
}

fn ex_cpp_enum(em: &mut Emitted, n: &SyntaxNode, scope: &str)
    ensures
        final(em).out() == cat(old(em).out(), cpp_enum(*n, scope@)),
{
    let name = ex_name_or_ident(n, true);
    if str_is_empty(name.as_str()) {
        proof { lemma_cat_none(old(em).out()); }
        return;
    }
    let qn = qual(scope, name.as_str());
    let props: Vec<(String, String)> = Vec::new();
    assert(prop_views(props@) =~= Seq::empty());
    let node = mk_node("Enum", name.as_str(), qn.as_str(), line_of(n.start_row), line_of(n.end_row), "public", props);
    em.emit(node, mk_ref("Defines", scope, qn.as_str()));
}

fn ex_cpp_member_proto(em: &mut Emitted, n: &SyntaxNode, scope: &str, seq: u64) -> (k: u64)
    ensures
        final(em).out() == cat(old(em).out(), cpp_member_proto(*n, scope@, seq).0),
        k == cpp_member_proto(*n, scope@, seq).1,
{
    let name = ex_find_ident(n, true);
    if str_is_empty(name.as_str()) {
        proof { lemma_cat_none(old(em).out()); }
        return seq;
    }
    let k = exec_bump(seq);
    let qn = numbered(scope, name.as_str(), k);
    let mut props: Vec<(String, String)> = Vec::new();
    props.push(prop("is_prototype", "true"));
    props.push(prop("receiver_type", scope));
    assert(prop_views(props@) =~= seq![("is_prototype"@, "true"@), ("receiver_type"@, scope@)]);
    let node = mk_node("Method", name.as_str(), qn.as_str(), line_of(n.start_row), line_of(n.end_row), "public", props);
    em.emit(node, mk_ref("HasMethod", scope, qn.as_str()));
    k
}

fn ex_cpp_member_field(em: &mut Emitted, n: &SyntaxNode, scope: &str)
    ensures
        final(em).out() == cat(old(em).out(), cpp_member_field(*n, scope@)),
{
    let name = ex_find_ident(n, true);
    if str_is_empty(name.as_str()) {
        proof { lemma_cat_none(old(em).out()); }
        return;
    }
    let qn = qual(scope, name.as_str());
    let props: Vec<(String, String)> = Vec::new();
    assert(prop_views(props@) =~= Seq::empty());
    let node = mk_node("Constant", name.as_str(), qn.as_str(), line_of(n.start_row), line_of(n.end_row), "public", props);
    em.emit(node, mk_ref("Defines", scope, qn.as_str()));
}

pub fn ex_keyword_target(text: &str, kw: &str) -> (r: String)
    ensures
        r@ == keyword_target(text@, kw@),
{
    let t0 = trim(text);
    let a = ex_strip_prefix_all(chars_of(t0.as_str()), &chars_of(kw));
    let t1 = trim(string_from_chars(&a).as_str());
    let b = ex_strip_trailing(chars_of(t1.as_str()), ';');
    trim(string_from_chars(&b).as_str())
}

fn ex_cpp_using(em: &mut Emitted, n: &SyntaxNode, scope: &str)
    ensures
        final(em).out() == cat(old(em).out(), cpp_using(*n, scope@)),
{
    let cleaned = ex_keyword_target(n.text.as_str(), "using");
    if str_is_empty(cleaned.as_str()) {
        proof { lemma_cat_none(old(em).out()); }
        return;
    }
    let mut key = chars_of("using:");
    append_chars(&mut key, &chars_of(cleaned.as_str()));
    let qn = qual(scope, string_from_chars(&key).as_str());
    let mut props: Vec<(String, String)> = Vec::new();
    props.push(prop("using", "true"));
    assert(prop_views(props@) =~= seq![("using"@, "true"@)]);
    let node = mk_node("Import", cleaned.as_str(), qn.as_str(), line_of(n.start_row), line_of(n.end_row), "public", props);
    em.emit(node, mk_ref("Imports", scope, cleaned.as_str()));
}

fn ex_cpp_function(em: &mut Emitted, n: &SyntaxNode, scope: &str, enc: Option<&str>, seq: u64) -> (k: u64)
    ensures
        final(em).out() == cat(old(em).out(), cpp_function(*n, scope@, opt_view(enc), seq).0),
        k == cpp_function(*n, scope@, opt_view(enc), seq).1,
{
    let name = ex_declarator_name(n, true);
    if str_is_empty(name.as_str()) {
        proof { lemma_cat_none(old(em).out()); }
        return seq;
    }
    let k = exec_bump(seq);
    let qn = numbered(scope, name.as_str(), k);
    let mut props: Vec<(String, String)> = Vec::new();
    let (label, kind) = match enc {
        Some(r) => {
            props.push(prop("receiver_type", r));
            assert(prop_views(props@) =~= seq![("receiver_type"@, r@)]);
            ("Method", "HasMethod")
        },
        None => {
            assert(prop_views(props@) =~= Seq::empty());
            ("Function", "Defines")
        },
    };
    let node = mk_node(label, name.as_str(), qn.as_str(), line_of(n.start_row), line_of(n.end_row), "public", props);
    let ghost e0 = em.out();
    let ghost head = one(node_out(node), RefOut { kind: kind@, from: scope@, to: qn@ });
    em.emit(node, mk_ref(kind, scope, qn.as_str()));
    let r = ex_c_body_calls(em, n, qn.as_str(), k);
    proof {
        lemma_cat_assoc(e0, head, c_body_calls(*n, qn@, k).0);
    }
    r
}

/// The view of an optional string.
pub open spec fn opt_view(o: Option<&str>) -> Option<Seq<char>> {
    match o {
        Some(s) => Some(s@),
        None => None,
    }
}

fn ex_cpp_body(em: &mut Emitted, n: &SyntaxNode, scope: &str, enc: Option<&str>, seq: u64) -> (k: u64)
    ensures
        final(em).out() == cat(old(em).out(), cpp_body(*n, scope@, opt_view(enc), seq).0),
        k == cpp_body(*n, scope@, opt_view(enc), seq).1,
    decreases n, 1int,
{
    match field_pos(n, "body") {
        Some(i) => ex_cpp_items(em, &n.children[i].children, scope, enc, seq),
        None => {
            proof { lemma_cat_none(em.out()); }
            seq
        },
    }
}

fn ex_cpp_namespace(em: &mut Emitted, n: &SyntaxNode, scope: &str, seq: u64) -> (k: u64)
    ensures
        final(em).out() == cat(old(em).out(), cpp_namespace(*n, scope@, seq).0),
        k == cpp_namespace(*n, scope@, seq).1,
    decreases n, 2int,
{
    let name = ex_name_or_ident(n, true);
    if str_is_empty(name.as_str()) {
        return ex_cpp_body(em, n, scope, None, seq);
    }
    let qn = qual(scope, name.as_str());
    let mut props: Vec<(String, String)> = Vec::new();
    props.push(prop("is_namespace", "true"));
    assert(prop_views(props@) =~= seq![("is_namespace"@, "true"@)]);
    let node = mk_node("Struct", name.as_str(), qn.as_str(), line_of(n.start_row), line_of(n.end_row), "public", props);
    let ghost e0 = em.out();
    let ghost head = one(node_out(node), RefOut { kind: "Defines"@, from: scope@, to: qn@ });
    em.emit(node, mk_ref("Defines", scope, qn.as_str()));
    let r = ex_cpp_body(em, n, qn.as_str(), None, seq);
    proof {
        lemma_cat_assoc(e0, head, cpp_body(*n, qn@, None, seq).0);
    }
    r
}

fn ex_cpp_class(em: &mut Emitted, n: &SyntaxNode, scope: &str, is_class: bool, seq: u64) -> (k: u64)
    ensures
        final(em).out() == cat(old(em).out(), cpp_class(*n, scope@, is_class, seq).0),
        k == cpp_class(*n, scope@, is_class, seq).1,
    decreases n, 2int,
{
    let name = ex_name_or_ident(n, true);
    if str_is_empty(name.as_str()) {
        proof { lemma_cat_none(old(em).out()); }
        return seq;
    }
    let qn = qual(scope, name.as_str());
    let mut props: Vec<(String, String)> = Vec::new();
    if is_class {
        props.push(prop("is_class", "true"));
        assert(prop_views(props@) =~= seq![("is_class"@, "true"@)]);
    } else {
        assert(prop_views(props@) =~= Seq::empty());
    }
    let node = mk_node("Struct", name.as_str(), qn.as_str(), line_of(n.start_row), line_of(n.end_row), "public", props);
    let ghost e0 = em.out();
    let ghost head = one(node_out(node), RefOut { kind: "Defines"@, from: scope@, to: qn@ });
    em.emit(node, mk_ref("Defines", scope, qn.as_str()));
    ex_cpp_extends(em, n, qn.as_str());
    let r = ex_cpp_body(em, n, qn.as_str(), Some(qn.as_str()), seq);
    proof {
        lemma_cat_assoc(e0, head, cpp_extends(*n, qn@));
        lemma_cat_assoc(e0, cat(head, cpp_extends(*n, qn@)), cpp_body(*n, qn@, Some(qn@), seq).0);
    }
    r
}

fn ex_cpp_item(em: &mut Emitted, n: &SyntaxNode, scope: &str, enc: Option<&str>, seq: u64) -> (k: u64)
    ensures
        final(em).out() == cat(old(em).out(), cpp_item(*n, scope@, opt_view(enc), seq).0),
        k == cpp_item(*n, scope@, opt_view(enc), seq).1,
    decreases n, 3int,
{
    let kd = n.kind.as_str();
    if str_eq(kd, "namespace_definition") {
        ex_cpp_namespace(em, n, scope, seq)
    } else if str_eq(kd, "class_specifier") {
        ex_cpp_class(em, n, scope, true, seq)
    } else if str_eq(kd, "struct_specifier") || str_eq(kd, "union_specifier") {
        ex_cpp_class(em, n, scope, false, seq)
    } else if str_eq(kd, "enum_specifier") {
        ex_cpp_enum(em, n, scope);
        seq
    } else if str_eq(kd, "template_declaration") {
        ex_cpp_items(em, &n.children, scope, enc, seq)
    } else if str_eq(kd, "function_definition") {
        ex_cpp_function(em, n, scope, enc, seq)
    } else if str_eq(kd, "field_declaration") {
        if enc.is_some() {
            if ex_has_fn_declarator(n) {
                ex_cpp_member_proto(em, n, scope, seq)
            } else {
                ex_cpp_member_field(em, n, scope);
                seq
            }
        } else {
            proof { lemma_cat_none(old(em).out()); }
            seq
        }
    } else if str_eq(kd, "type_definition") {
        ex_c_typedef(em, n, scope, true);
        seq
    } else if str_eq(kd, "preproc_include") {
        ex_c_include(em, n, scope);
        seq
    } else if str_eq(kd, "using_declaration") {
        ex_cpp_using(em, n, scope);
        seq
    } else if ex_has_named_child(n) {
        ex_cpp_items(em, &n.children, scope, enc, seq)
    } else {
        proof { lemma_cat_none(old(em).out()); }
        seq
    }
}

fn ex_cpp_items(em: &mut Emitted, s: &Vec<SyntaxNode>, scope: &str, enc: Option<&str>, seq: u64) -> (k: u64)
    ensures
        final(em).out() == cat(old(em).out(), cpp_items(s@, scope@, opt_view(enc), seq).0),
        k == cpp_items(s@, scope@, opt_view(enc), seq).1,
    decreases s@, 0int,
{
    proof { lemma_cat_none(old(em).out()); }
    let mut cur = seq;
    let mut i: usize = 0;
    assert(s@.take(0) =~= Seq::<SyntaxNode>::empty());
    while i < s.len()
        invariant
            i <= s@.len(),
            em.out() == cat(old(em).out(), cpp_items(s@.take(i as int), scope@, opt_view(enc), seq).0),
            cur == cpp_items(s@.take(i as int), scope@, opt_view(enc), seq).1,
        decreases s@.len() - i,
    {
        proof {
            let t = s@.take(i + 1);
            assert(t.drop_last() =~= s@.take(i as int));
            assert(t.last() == s@[i as int]);
        }
        cur = ex_cpp_item(em, &s[i], scope, enc, cur);
        proof {
            let p = cpp_items(s@.take(i as int), scope@, opt_view(enc), seq);
            lemma_cat_assoc(old(em).out(), p.0, cpp_item(s@[i as int], scope@, opt_view(enc), p.1).0);
        }
        i += 1;
    }
    assert(s@.take(s@.len() as int) =~= s@);
    cur
}

/// The symbols and references of one C++ file, read off its syntax tree.
pub fn extract_cpp(root: &SyntaxNode, file_path: &str) -> (r: ParseResult)
    ensures
        result_out(r) == cpp_file_out(*root, file_path@),
{
    let mut em = Emitted::new();
    let _ = ex_cpp_items(&mut em, &root.children, file_path, None, 0);
    proof { lemma_cat_none(cpp_items(root.children@, file_path@, None, 0).0); }
    ParseResult { nodes: em.nodes, refs: em.refs }
}

/// Parses one C++ source or header file and extracts its symbols and
/// relationships.
/// The symbols are those the grammar's tree yields; when no tree comes back
/// (the parse ran past its time limit), the error; when tree-sitter
/// refuses the grammar, its message after `failed to set … language: `.
pub fn parse_cpp_file(source: &str, file_path: &str) -> (r: Result<ParseResult, String>)
    ensures
        match r {
            Ok(p) => cpp_syntax(source@) matches Some(t) && result_out(p) == cpp_file_out(t, file_path@),
            Err(e) => e@ == NO_TREE@ || is_refusal("C++ "@, e@),
        },
{
    match parse_cpp_syntax(source) {
        Ok(Some(tree)) => Ok(extract_cpp(&tree, file_path)),
        Ok(None) => Err(to_owned_string(NO_TREE)),
        Err(detail) => Err(language_refused_message("C++ ", detail.as_str())),
    }
}


// ---------------------------------------------------------------------------
// Numbering
// ---------------------------------------------------------------------------

proof fn lemma_cpp_bases_plain(s: Seq<SyntaxNode>, qn: Seq<char>)
    ensures
        plain(cpp_bases(s, qn)),
    decreases s.len(),
{
    if s.len() > 0 {
        lemma_cpp_bases_plain(s.drop_last(), qn);
        let c = s.last();
        let t = spec_trim(c.text@);
        let extra = if c.kind@ == "base_class_clause"@ && t.len() > 0 { ref_only(rf("Extends"@, qn, t)) } else { no_out() };
        lemma_plain_cat(cpp_bases(s.drop_last(), qn), extra);
    }
}

proof fn lemma_cpp_function(n: SyntaxNode, scope: Seq<char>, enc: Option<Seq<char>>, seq: u64)
    requires
        cpp_function(n, scope, enc, seq).1 < u64::MAX,
    ensures
        seq <= cpp_function(n, scope, enc, seq).1,
        numbered_in(cpp_function(n, scope, enc, seq).0, seq as int, cpp_function(n, scope, enc, seq).1 as int),
{
    let name = declarator_name(n, true);
    if name.len() > 0 {
        let k = bump(seq);
        let qn = spec_qual(scope, name) + "#"@ + decimal(k as nat);
        lemma_c_body_calls(n, qn, k);
        lemma_qn_number(spec_qual(scope, name), k as nat);
        let node = NodeOut { label: if enc is Some { "Method"@ } else { "Function"@ }, name, qn,
            start: spec_line(n.start_row), end: spec_line(n.end_row), vis: "public"@,
            props: match enc { Some(r) => seq![("receiver_type"@, r)], None => Seq::empty() } };
        let head = one(node, rf(if enc is Some { "HasMethod"@ } else { "Defines"@ }, scope, qn));
        let calls = c_body_calls(n, qn, k);
        assert(numbered_in(head, seq as int, k as int));
        lemma_numbered_cat(head, calls.0, seq as int, k as int, calls.1 as int);
    }
}

proof fn lemma_cpp_body(n: SyntaxNode, scope: Seq<char>, enc: Option<Seq<char>>, seq: u64)
    requires
        cpp_body(n, scope, enc, seq).1 < u64::MAX,
    ensures
        seq <= cpp_body(n, scope, enc, seq).1,
        numbered_in(cpp_body(n, scope, enc, seq).0, seq as int, cpp_body(n, scope, enc, seq).1 as int),
    decreases n, 1int,
{
    lemma_field_index(n.children@, "body"@);
    match field_index(n.children@, "body"@) {
        Some(i) => { lemma_cpp_items(n.children@[i].children@, scope, enc, seq); },
        None => { lemma_numbered_none(seq as int, seq as int); },
    }
}

proof fn lemma_cpp_namespace(n: SyntaxNode, scope: Seq<char>, seq: u64)
    requires
        cpp_namespace(n, scope, seq).1 < u64::MAX,
    ensures
        seq <= cpp_namespace(n, scope, seq).1,
        numbered_in(cpp_namespace(n, scope, seq).0, seq as int, cpp_namespace(n, scope, seq).1 as int),
    decreases n, 2int,
{
    lemma_unnumbered_labels();
    let name = name_or_ident(n, true);
    if name.len() == 0 {
        lemma_cpp_body(n, scope, None, seq);
    } else {
        let qn = spec_qual(scope, name);
        lemma_cpp_body(n, qn, None, seq);
        let b = cpp_body(n, qn, None, seq);
        let head = one(NodeOut { label: "Struct"@, name, qn, start: spec_line(n.start_row), end: spec_line(n.end_row),
                vis: "public"@, props: seq![("is_namespace"@, "true"@)] }, rf("Defines"@, scope, qn));
        lemma_plain_numbered(head, seq as int, seq as int);
        lemma_numbered_cat(head, b.0, seq as int, seq as int, b.1 as int);
    }
}

proof fn lemma_cpp_class(n: SyntaxNode, scope: Seq<char>, is_class: bool, seq: u64)
    requires
        cpp_class(n, scope, is_class, seq).1 < u64::MAX,
    ensures
        seq <= cpp_class(n, scope, is_class, seq).1,
        numbered_in(cpp_class(n, scope, is_class, seq).0, seq as int, cpp_class(n, scope, is_class, seq).1 as int),
    decreases n, 2int,
{
    lemma_unnumbered_labels();
    let name = name_or_ident(n, true);
    if name.len() > 0 {
        let qn = spec_qual(scope, name);
        lemma_cpp_body(n, qn, Some(qn), seq);
        let b = cpp_body(n, qn, Some(qn), seq);
        let one_node = one(NodeOut { label: "Struct"@, name, qn, start: spec_line(n.start_row), end: spec_line(n.end_row),
                vis: "public"@, props: if is_class { seq![("is_class"@, "true"@)] } else { Seq::empty() } },
            rf("Defines"@, scope, qn));
        match field_index(n.children@, "bases"@) {
            Some(i) => { lemma_cpp_bases_plain(n.children@[i].children@, qn); },
            None => {},
        }
        lemma_plain_cat(one_node, cpp_extends(n, qn));
        let head = cat(one_node, cpp_extends(n, qn));
        lemma_plain_numbered(head, seq as int, seq as int);
        lemma_numbered_cat(head, b.0, seq as int, seq as int, b.1 as int);
    } else {
        lemma_numbered_none(seq as int, seq as int);
    }
}

proof fn lemma_cpp_item(n: SyntaxNode, scope: Seq<char>, enc: Option<Seq<char>>, seq: u64)
    requires
        cpp_item(n, scope, enc, seq).1 < u64::MAX,
    ensures
        seq <= cpp_item(n, scope, enc, seq).1,
        numbered_in(cpp_item(n, scope, enc, seq).0, seq as int, cpp_item(n, scope, enc, seq).1 as int),
    decreases n, 3int,
{
    lemma_unnumbered_labels();
    let k = n.kind@;
    let z = seq as int;
    if k == "namespace_definition"@ {
        lemma_cpp_namespace(n, scope, seq);
    } else if k == "class_specifier"@ {
        lemma_cpp_class(n, scope, true, seq);
    } else if k == "struct_specifier"@ || k == "union_specifier"@ {
        lemma_cpp_class(n, scope, false, seq);
    } else if k == "enum_specifier"@ {
        lemma_plain_numbered(cpp_enum(n, scope), z, z);
    } else if k == "template_declaration"@ {
        lemma_cpp_items(n.children@, scope, enc, seq);
    } else if k == "function_definition"@ {
        lemma_cpp_function(n, scope, enc, seq);
    } else if k == "field_declaration"@ {
        if enc is Some {
            if has_fn_declarator(n) {
                let name = find_ident(n, true);
                if name.len() > 0 {
                    lemma_qn_number(spec_qual(scope, name), bump(seq) as nat);
                }
            } else {
                lemma_plain_numbered(cpp_member_field(n, scope), z, z);
            }
        }
    } else if k == "type_definition"@ {
        lemma_c_plain_items(n, scope, true);
        lemma_plain_numbered(c_typedef(n, scope, true), z, z);
    } else if k == "preproc_include"@ {
        lemma_c_plain_items(n, scope, true);
        lemma_plain_numbered(c_include(n, scope), z, z);
    } else if k == "using_declaration"@ {
        lemma_plain_numbered(cpp_using(n, scope), z, z);
    } else if has_named_child(n) {
        lemma_cpp_items(n.children@, scope, enc, seq);
    }
}

proof fn lemma_cpp_items(s: Seq<SyntaxNode>, scope: Seq<char>, enc: Option<Seq<char>>, seq: u64)
    requires
        cpp_items(s, scope, enc, seq).1 < u64::MAX,
    ensures
        seq <= cpp_items(s, scope, enc, seq).1,
        numbered_in(cpp_items(s, scope, enc, seq).0, seq as int, cpp_items(s, scope, enc, seq).1 as int),
    decreases s, 0int,
{
    if s.len() > 0 {
        let p = cpp_items(s.drop_last(), scope, enc, seq);
        lemma_cpp_item(s.last(), scope, enc, p.1);
        lemma_cpp_items(s.drop_last(), scope, enc, seq);
        let q = cpp_item(s.last(), scope, enc, p.1);
        lemma_numbered_cat(p.0, q.0, seq as int, p.1 as int, q.1 as int);
    }
}

/// In what a C++ file yields, no two functions, methods or call sites share
/// a qualified name, as long as the file numbers fewer than `u64::MAX` of
/// them.
pub proof fn lemma_cpp_numbered_names_distinct(root: SyntaxNode, file: Seq<char>)
    requires
        cpp_items(root.children@, file, None, 0).1 < u64::MAX,
    ensures
        numbered_names_distinct(cpp_file_out(root, file)),
{
    lemma_cpp_items(root.children@, file, None, 0);
    lemma_numbered_distinct(cpp_file_out(root, file), 0, cpp_items(root.children@, file, None, 0).1 as int);
}

} // verus!
