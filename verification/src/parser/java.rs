//! The Java front end: classes and records (structs), interfaces and
//! annotation types (traits), enums, methods and constructors, fields,
//! imports and calls (method invocations and `new`). Methods and call
//! sites are numbered in the order they are met (`#n`).

use vstd::prelude::*;
use crate::text::{chars_of, str_eq, str_is_empty, to_owned_string, string_from_chars, slice_to_vec,
    seq_contains_seq, contains_seq, seq_starts_with, starts_with, seq_ends_with, ends_with, trim, spec_trim};
use crate::parser::{append_chars, qual, spec_qual, ParseResult};
use crate::parser::naming::{decimal, push_decimal};
use crate::parser::grammars::{parse_java_syntax, java_syntax};
use crate::parser::rust::{rf, result_out, extends_refs};
use crate::parser::go::{bump, exec_bump, strip_trailing, ex_strip_trailing, after_last, ex_after_last};
use crate::parser::numbering::{numbered_label, numbered_in, plain, numbered_names_distinct, lemma_qn_number,
    lemma_numbered_none, lemma_plain_numbered, lemma_plain_cat, lemma_unnumbered_labels, lemma_numbered_cat,
    lemma_numbered_distinct};
use crate::parser::syntax::{is_refusal, language_refused_message, SyntaxNode, Counted, Out, NodeOut, RefOut, Emitted, no_out, cat, one, spec_line, line_of,
    field_index, lemma_field_index, field_pos, field_text, exec_field_text, node_out, prop_views,
    lemma_cat_assoc, lemma_cat_none, prop, mk_node, mk_ref, NO_TREE};

verus! {

/// The visibility keyword a `modifiers` text holds, if any.
pub open spec fn modifier_vis(t: Seq<char>) -> Option<Seq<char>> {
    if seq_contains_seq(t, "public"@) {
        Some("public"@)
    } else if seq_contains_seq(t, "private"@) {
        Some("private"@)
    } else if seq_contains_seq(t, "protected"@) {
        Some("protected"@)
    } else {
        None
    }
}

/// The visibility of a declaration: from its first `modifiers` child that
/// names one, else package-private.
pub open spec fn vis_from(s: Seq<SyntaxNode>) -> Seq<char>
    decreases s.len(),
{
    if s.len() == 0 {
        "package"@
    } else if s[0].kind@ == "modifiers"@ && modifier_vis(s[0].text@) is Some {
        modifier_vis(s[0].text@).unwrap()
    } else {
        vis_from(s.drop_first())
    }
}

/// `s` with every leading `p` removed.
pub open spec fn strip_prefix_all(s: Seq<char>, p: Seq<char>) -> Seq<char>
    decreases s.len(),
{
    if p.len() > 0 && seq_starts_with(s, p) { strip_prefix_all(s.skip(p.len() as int), p) } else { s }
}

/// The names in an `interfaces` clause.
pub open spec fn iface_names(s: Seq<SyntaxNode>) -> Seq<Seq<char>>
    decreases s.len(),
{
    if s.len() == 0 {
        Seq::empty()
    } else {
        let c = s.last();
        if (c.kind@ == "type_identifier"@ || c.kind@ == "scoped_type_identifier"@) && c.text@.len() > 0 {
            iface_names(s.drop_last()).push(c.text@)
        } else {
            iface_names(s.drop_last())
        }
    }
}

pub open spec fn implements_refs(qn: Seq<char>, names: Seq<Seq<char>>) -> Out {
    Out { nodes: Seq::empty(), refs: names.map_values(|s: Seq<char>| rf("Implements"@, qn, s)) }
}

/// The superclass a class names, or empty.
pub open spec fn superclass(n: SyntaxNode) -> Seq<char> {
    match field_index(n.children@, "superclass"@) {
        Some(i) => spec_trim(strip_prefix_all(n.children@[i].text@, "extends"@)),
        None => Seq::empty(),
    }
}

/// The heritage references of a class-like declaration.
pub open spec fn heritage(n: SyntaxNode, qn: Seq<char>) -> Out {
    let sup = superclass(n);
    cat(if sup.len() > 0 { extends_refs(qn, seq![sup]) } else { no_out() },
        match field_index(n.children@, "interfaces"@) {
            Some(i) => implements_refs(qn, iface_names(n.children@[i].children@)),
            None => no_out(),
        })
}

/// A call or `new` expression: its callee (`name`, else `type`).
pub open spec fn java_callee(n: SyntaxNode) -> Seq<char> {
    if field_text(n, "name"@).len() > 0 { field_text(n, "name"@) } else { field_text(n, "type"@) }
}

pub open spec fn java_call_here(n: SyntaxNode, caller: Seq<char>, seq: u64) -> Counted {
    let callee = java_callee(n);
    if (n.kind@ == "method_invocation"@ || n.kind@ == "object_creation_expression"@) && callee.len() > 0 {
        let k = bump(seq);
        let id = caller + "::call@"@ + decimal(spec_line(n.start_row) as nat) + ":"@ + decimal(spec_line(n.start_col) as nat)
            + "#"@ + decimal(k as nat);
        (one(NodeOut { label: "CallSite"@, name: callee, qn: id, start: spec_line(n.start_row), end: spec_line(n.end_row),
                vis: "package"@, props: seq![("callee_name"@, callee)] },
            rf("Calls"@, caller, callee)), k)
    } else {
        (no_out(), seq)
    }
}

pub open spec fn java_calls(n: SyntaxNode, caller: Seq<char>, seq: u64) -> Counted
    decreases n,
{
    let h = java_call_here(n, caller, seq);
    let r = java_calls_rev(n.children@, caller, h.1);
    (cat(h.0, r.0), r.1)
}

pub open spec fn java_calls_rev(s: Seq<SyntaxNode>, caller: Seq<char>, seq: u64) -> Counted
    decreases s,
{
    if s.len() == 0 {
        (no_out(), seq)
    } else {
        let a = java_calls(s.last(), caller, seq);
        let b = java_calls_rev(s.drop_last(), caller, a.1);
        (cat(a.0, b.0), b.1)
    }
}

/// A method or constructor: numbered, a Method of the enclosing type or
/// a Function, with its calls.
pub open spec fn java_method(n: SyntaxNode, scope: Seq<char>, enclosing: Option<Seq<char>>, seq: u64) -> Counted {
    let name = field_text(n, "name"@);
    if name.len() == 0 {
        (no_out(), seq)
    } else {
        let k = bump(seq);
        let qn = spec_qual(scope, name) + "#"@ + decimal(k as nat);
        let node = NodeOut { label: if enclosing is Some { "Method"@ } else { "Function"@ }, name, qn,
            start: spec_line(n.start_row), end: spec_line(n.end_row), vis: vis_from(n.children@),
            props: match enclosing { Some(t) => seq![("receiver_type"@, t)], None => Seq::empty() } };
        let calls = match field_index(n.children@, "body"@) {
            Some(i) => java_calls(n.children@[i], qn, k),
            None => (no_out(), k),
        };
        (cat(one(node, rf(if enclosing is Some { "HasMethod"@ } else { "Defines"@ }, scope, qn)), calls.0), calls.1)
    }
}

/// The variables of a field declaration, as constants.
pub open spec fn java_fields(s: Seq<SyntaxNode>, scope: Seq<char>, vis: Seq<char>) -> Out
    decreases s.len(),
{
    if s.len() == 0 {
        no_out()
    } else {
        let c = s.last();
        let name = field_text(c, "name"@);
        cat(java_fields(s.drop_last(), scope, vis),
            if c.kind@ == "variable_declarator"@ && name.len() > 0 {
                one(NodeOut { label: "Constant"@, name, qn: spec_qual(scope, name), start: spec_line(c.start_row),
                        end: spec_line(c.end_row), vis, props: Seq::empty() },
                    rf("Defines"@, scope, spec_qual(scope, name)))
            } else {
                no_out()
            })
    }
}

/// The imported name of an import declaration.
pub open spec fn import_target(t: Seq<char>) -> Seq<char> {
    spec_trim(strip_trailing(spec_trim(strip_prefix_all(spec_trim(strip_prefix_all(spec_trim(t), "import"@)), "static"@)), ';'))
}

pub open spec fn java_import(n: SyntaxNode, scope: Seq<char>) -> Out {
    let cleaned = import_target(n.text@);
    if cleaned.len() == 0 {
        no_out()
    } else {
        one(NodeOut { label: "Import"@, name: after_last(cleaned, '.'), qn: spec_qual(scope, "import:"@ + cleaned),
                start: spec_line(n.start_row), end: spec_line(n.end_row), vis: "package"@, props: seq![("target"@, cleaned)] },
            rf("Imports"@, scope, cleaned))
    }
}

/// `k` ends with `_body`.
pub open spec fn is_body_kind(k: Seq<char>) -> bool {
    seq_ends_with(k, "_body"@)
}

/// A class-like declaration recorded under `label`, with its heritage and
/// its members.
pub open spec fn java_class(n: SyntaxNode, scope: Seq<char>, label: Seq<char>, seq: u64) -> Counted
    decreases n, 0int,
{
    let name = field_text(n, "name"@);
    if name.len() == 0 {
        (no_out(), seq)
    } else {
        let qn = spec_qual(scope, name);
        let head = cat(one(NodeOut { label, name, qn, start: spec_line(n.start_row), end: spec_line(n.end_row),
                vis: vis_from(n.children@), props: Seq::empty() }, rf("Defines"@, scope, qn)),
            heritage(n, qn));
        match field_index(n.children@, "body"@) {
            Some(i) => {
                proof { lemma_field_index(n.children@, "body"@); }
                let b = java_list(n.children@[i].children@, qn, Some(qn), seq);
                (cat(head, b.0), b.1)
            },
            None => (head, seq),
        }
    }
}

/// What one member or top-level declaration yields.
pub open spec fn java_item(n: SyntaxNode, scope: Seq<char>, enclosing: Option<Seq<char>>, seq: u64) -> Counted
    decreases n, 1int,
{
    let k = n.kind@;
    if k == "class_declaration"@ || k == "record_declaration"@ {
        java_class(n, scope, "Struct"@, seq)
    } else if k == "interface_declaration"@ || k == "annotation_type_declaration"@ {
        java_class(n, scope, "Trait"@, seq)
    } else if k == "enum_declaration"@ {
        java_class(n, scope, "Enum"@, seq)
    } else if k == "method_declaration"@ || k == "constructor_declaration"@ {
        java_method(n, scope, enclosing, seq)
    } else if k == "field_declaration"@ {
        (java_fields(n.children@, scope, vis_from(n.children@)), seq)
    } else if k == "import_declaration"@ {
        (java_import(n, scope), seq)
    } else if is_body_kind(k) {
        java_list(n.children@, scope, enclosing, seq)
    } else {
        (no_out(), seq)
    }
}

pub open spec fn java_list(s: Seq<SyntaxNode>, scope: Seq<char>, enclosing: Option<Seq<char>>, seq: u64) -> Counted
    decreases s, 0int,
{
    if s.len() == 0 {
        (no_out(), seq)
    } else {
        let p = java_list(s.drop_last(), scope, enclosing, seq);
        let q = java_item(s.last(), scope, enclosing, p.1);
        (cat(p.0, q.0), q.1)
    }
}

/// What a whole file yields.
pub open spec fn java_file_out(root: SyntaxNode, file: Seq<char>) -> Out {
    java_list(root.children@, file, None, 0).0
}

// ---------------------------------------------------------------------------
// Extraction
// ---------------------------------------------------------------------------

fn ex_modifier_vis(t: &str) -> (r: Option<&'static str>)
    ensures
        match r {
            Some(v) => modifier_vis(t@) == Some(v@),
            None => modifier_vis(t@) is None,
        },
{
    let cs = chars_of(t);
    if contains_seq(&cs, &chars_of("public")) {
        Some("public")
    } else if contains_seq(&cs, &chars_of("private")) {
        Some("private")
    } else if contains_seq(&cs, &chars_of("protected")) {
        Some("protected")
    } else {
        None
    }
}

pub fn ex_vis_from(s: &Vec<SyntaxNode>) -> (r: String)
    ensures
        r@ == vis_from(s@),
{
    let mut i: usize = 0;
    assert(s@.skip(0) =~= s@);
    while i < s.len()
        invariant
            i <= s@.len(),
            vis_from(s@) == vis_from(s@.skip(i as int)),
        decreases s@.len() - i,
    {
        proof {
            assert(s@.skip(i as int)[0] == s@[i as int]);
            assert(s@.skip(i as int).drop_first() =~= s@.skip(i + 1));
        }
        if str_eq(s[i].kind.as_str(), "modifiers") {
            match ex_modifier_vis(s[i].text.as_str()) {
                Some(v) => return to_owned_string(v),
                None => {},
            }
        }
        i += 1;
    }
    to_owned_string("package")
}

pub fn ex_strip_prefix_all(v: Vec<char>, p: &Vec<char>) -> (r: Vec<char>)
    ensures
        r@ == strip_prefix_all(v@, p@),
{
    let mut cur = v;
    while p.len() > 0 && starts_with(&cur, p)
        invariant
            strip_prefix_all(cur@, p@) == strip_prefix_all(v@, p@),
        decreases cur@.len(),
    {
        let next = slice_to_vec(&cur, p.len(), cur.len());
        assert(next@ =~= cur@.skip(p@.len() as int));
        cur = next;
    }
    cur
}

fn ex_superclass(n: &SyntaxNode) -> (r: String)
    ensures
        r@ == superclass(*n),
{
    match field_pos(n, "superclass") {
        Some(i) => {
            let a = ex_strip_prefix_all(chars_of(n.children[i].text.as_str()), &chars_of("extends"));
            let s = string_from_chars(&a);
            trim(s.as_str())
        },
        None => String::new(),
    }
}

proof fn lemma_refs_append(a: Out, r: Seq<RefOut>, x: RefOut)
    ensures
        cat(cat(a, Out { nodes: Seq::empty(), refs: r }), Out { nodes: Seq::empty(), refs: seq![x] })
            == cat(a, Out { nodes: Seq::empty(), refs: r.push(x) }),
        cat(a, Out { nodes: Seq::empty(), refs: Seq::empty() }) == a,
{
    assert(cat(cat(a, Out { nodes: Seq::empty(), refs: r }), Out { nodes: Seq::empty(), refs: seq![x] }).nodes
        =~= cat(a, Out { nodes: Seq::empty(), refs: r.push(x) }).nodes);
    assert(cat(cat(a, Out { nodes: Seq::empty(), refs: r }), Out { nodes: Seq::empty(), refs: seq![x] }).refs
        =~= cat(a, Out { nodes: Seq::empty(), refs: r.push(x) }).refs);
    assert(cat(a, Out { nodes: Seq::empty(), refs: Seq::empty() }).nodes =~= a.nodes);
    assert(cat(a, Out { nodes: Seq::empty(), refs: Seq::empty() }).refs =~= a.refs);
}

fn ex_heritage(em: &mut Emitted, n: &SyntaxNode, qn: &str)
    ensures
        final(em).out() == cat(old(em).out(), heritage(*n, qn@)),
{
    let sup = ex_superclass(n);
    let ghost e0 = em.out();
    if !str_is_empty(sup.as_str()) {
        em.emit_ref(mk_ref("Extends", qn, sup.as_str()));
        proof {
            assert(em.out() == cat(e0, extends_refs(qn@, seq![sup@]))) by {
                assert(extends_refs(qn@, seq![sup@]).refs =~= seq![rf("Extends"@, qn@, sup@)]);
                assert(extends_refs(qn@, seq![sup@]).nodes =~= Seq::<NodeOut>::empty());
            }
        }
    } else {
        proof { lemma_cat_none(e0); }
    }
    let ghost e1 = em.out();
    let ghost head = if sup@.len() > 0 { extends_refs(qn@, seq![sup@]) } else { no_out() };
    match field_pos(n, "interfaces") {
        Some(i) => {
            let s = &n.children[i].children;
            let mut j: usize = 0;
            assert(s@.take(0) =~= Seq::<SyntaxNode>::empty());
            proof { lemma_refs_append(e1, Seq::empty(), rf("x"@, qn@, qn@)); }
            assert(implements_refs(qn@, iface_names(s@.take(0))).refs =~= Seq::<RefOut>::empty());
            while j < s.len()
                invariant
                    j <= s@.len(),
                    em.out() == cat(e1, implements_refs(qn@, iface_names(s@.take(j as int)))),
                decreases s@.len() - j,
            {
                let c = &s[j];
                proof {
                    let t = s@.take(j + 1);
                    assert(t.drop_last() =~= s@.take(j as int));
                    assert(t.last() == s@[j as int]);
                }
                if (str_eq(c.kind.as_str(), "type_identifier") || str_eq(c.kind.as_str(), "scoped_type_identifier"))
                    && !str_is_empty(c.text.as_str())
                {
                    let ghost before = em.out();
                    em.emit_ref(mk_ref("Implements", qn, c.text.as_str()));
                    proof {
                        let r0 = implements_refs(qn@, iface_names(s@.take(j as int))).refs;
                        lemma_refs_append(e1, r0, rf("Implements"@, qn@, c.text@));
                        assert(implements_refs(qn@, iface_names(s@.take(j + 1))).refs =~= r0.push(rf("Implements"@, qn@, c.text@)));
                    }
                } else {
                    assert(implements_refs(qn@, iface_names(s@.take(j + 1))).refs =~= implements_refs(qn@, iface_names(s@.take(j as int))).refs);
                }
                j += 1;
            }
            assert(s@.take(s@.len() as int) =~= s@);
        },
        None => {
            proof { lemma_cat_none(e1); }
        },
    }
    proof {
        let tail = match field_index(n.children@, "interfaces"@) {
            Some(i) => implements_refs(qn@, iface_names(n.children@[i].children@)),
            None => no_out(),
        };
        lemma_cat_assoc(e0, head, tail);
    }
}

fn ex_java_call_here(em: &mut Emitted, n: &SyntaxNode, caller: &str, seq: u64) -> (k: u64)
    ensures
        final(em).out() == cat(old(em).out(), java_call_here(*n, caller@, seq).0),
        k == java_call_here(*n, caller@, seq).1,
{
    proof { lemma_cat_none(old(em).out()); }
    if !(str_eq(n.kind.as_str(), "method_invocation") || str_eq(n.kind.as_str(), "object_creation_expression")) {
        return seq;
    }
    let name = exec_field_text(n, "name");
    let callee = if !str_is_empty(name.as_str()) { name } else { exec_field_text(n, "type") };
    if str_is_empty(callee.as_str()) {
        return seq;
    }
    let k = exec_bump(seq);
    let mut id = chars_of(caller);
    append_chars(&mut id, &chars_of("::call@"));
    push_decimal(&mut id, line_of(n.start_row));
    append_chars(&mut id, &chars_of(":"));
    push_decimal(&mut id, line_of(n.start_col));
    append_chars(&mut id, &chars_of("#"));
    push_decimal(&mut id, k);
    let ids = string_from_chars(&id);
    let mut props: Vec<(String, String)> = Vec::new();
    props.push(prop("callee_name", callee.as_str()));
    assert(prop_views(props@) =~= seq![("callee_name"@, callee@)]);
    let node = mk_node("CallSite", callee.as_str(), ids.as_str(), line_of(n.start_row), line_of(n.end_row), "package", props);
    em.emit(node, mk_ref("Calls", caller, callee.as_str()));
    k
}

fn ex_java_calls(em: &mut Emitted, n: &SyntaxNode, caller: &str, seq: u64) -> (k: u64)
    ensures
        final(em).out() == cat(old(em).out(), java_calls(*n, caller@, seq).0),
        k == java_calls(*n, caller@, seq).1,
    decreases n,
{
    let h = ex_java_call_here(em, n, caller, seq);
    let ghost base = em.out();
    let ghost total = java_calls_rev(n.children@, caller@, h);
    let mut cur = h;
    let mut i: usize = n.children.len();
    assert(n.children@.take(i as int) =~= n.children@);
    while i > 0
        invariant
            i <= n.children@.len(),
            total == java_calls_rev(n.children@, caller@, h),
            cat(em.out(), java_calls_rev(n.children@.take(i as int), caller@, cur).0) == cat(base, total.0),
            java_calls_rev(n.children@.take(i as int), caller@, cur).1 == total.1,
        decreases i,
    {
        i -= 1;
        let ghost before = em.out();
        let ghost before_seq = cur;
        cur = ex_java_calls(em, &n.children[i], caller, cur);
        proof {
            let t = n.children@.take(i + 1);
            assert(t.drop_last() =~= n.children@.take(i as int));
            assert(t.last() == n.children@[i as int]);
            let a = java_calls(n.children@[i as int], caller@, before_seq);
            lemma_cat_assoc(before, a.0, java_calls_rev(n.children@.take(i as int), caller@, a.1).0);
        }
    }
    proof {
        assert(n.children@.take(0) =~= Seq::<SyntaxNode>::empty());
        lemma_cat_none(em.out());
        lemma_cat_assoc(old(em).out(), java_call_here(*n, caller@, seq).0, total.0);
    }
    cur
}

pub open spec fn opt_str_view(o: Option<&str>) -> Option<Seq<char>> {
    match o {
        Some(c) => Some(c@),
        None => None,
    }
}

fn ex_java_method(em: &mut Emitted, n: &SyntaxNode, scope: &str, enclosing: Option<&str>, seq: u64) -> (k: u64)
    ensures
        final(em).out() == cat(old(em).out(), java_method(*n, scope@, opt_str_view(enclosing), seq).0),
        k == java_method(*n, scope@, opt_str_view(enclosing), seq).1,
{
    let name = exec_field_text(n, "name");
    if str_is_empty(name.as_str()) {
        proof { lemma_cat_none(old(em).out()); }
        return seq;
    }
    let k = exec_bump(seq);
    let mut q = chars_of(qual(scope, name.as_str()).as_str());
    append_chars(&mut q, &chars_of("#"));
    push_decimal(&mut q, k);
    let qn = string_from_chars(&q);
    let mut props: Vec<(String, String)> = Vec::new();
    match enclosing {
        Some(t) => {
            props.push(prop("receiver_type", t));
            assert(prop_views(props@) =~= seq![("receiver_type"@, t@)]);
        },
        None => {
            assert(prop_views(props@) =~= Seq::empty());
        },
    }
    let vis = ex_vis_from(&n.children);
    let label = if enclosing.is_some() { "Method" } else { "Function" };
    let kind = if enclosing.is_some() { "HasMethod" } else { "Defines" };
    let node = mk_node(label, name.as_str(), qn.as_str(), line_of(n.start_row), line_of(n.end_row), vis.as_str(), props);
    let ghost e0 = em.out();
    em.emit(node, mk_ref(kind, scope, qn.as_str()));
    let r = match field_pos(n, "body") {
        Some(i) => ex_java_calls(em, &n.children[i], qn.as_str(), k),
        None => {
            proof { lemma_cat_none(em.out()); }
            k
        },
    };
    proof {
        let calls = match field_index(n.children@, "body"@) {
            Some(i) => java_calls(n.children@[i], qn@, k),
            None => (no_out(), k),
        };
        lemma_cat_assoc(e0, one(node_out(node), RefOut { kind: kind@, from: scope@, to: qn@ }), calls.0);
    }
    r
}

fn ex_java_fields(em: &mut Emitted, s: &Vec<SyntaxNode>, scope: &str, vis: &str)
    ensures
        final(em).out() == cat(old(em).out(), java_fields(s@, scope@, vis@)),
{
    proof { lemma_cat_none(old(em).out()); }
    assert(s@.take(0) =~= Seq::<SyntaxNode>::empty());
    let mut i: usize = 0;
    while i < s.len()
        invariant
            i <= s@.len(),
            em.out() == cat(old(em).out(), java_fields(s@.take(i as int), scope@, vis@)),
        decreases s@.len() - i,
    {
        let c = &s[i];
        let ghost before = em.out();
        let name = exec_field_text(c, "name");
        if str_eq(c.kind.as_str(), "variable_declarator") && !str_is_empty(name.as_str()) {
            let qn = qual(scope, name.as_str());
            let props: Vec<(String, String)> = Vec::new();
            assert(prop_views(props@) =~= Seq::empty());
            let node = mk_node("Constant", name.as_str(), qn.as_str(), line_of(c.start_row), line_of(c.end_row), vis, props);
            em.emit(node, mk_ref("Defines", scope, qn.as_str()));
        } else {
            proof { lemma_cat_none(before); }
        }
        proof {
            let t = s@.take(i + 1);
            assert(t.drop_last() =~= s@.take(i as int));
            assert(t.last() == s@[i as int]);
            let extra = if c.kind@ == "variable_declarator"@ && field_text(*c, "name"@).len() > 0 {
                one(NodeOut { label: "Constant"@, name: field_text(*c, "name"@), qn: spec_qual(scope@, field_text(*c, "name"@)),
                        start: spec_line(c.start_row), end: spec_line(c.end_row), vis: vis@, props: Seq::empty() },
                    rf("Defines"@, scope@, spec_qual(scope@, field_text(*c, "name"@))))
            } else {
                no_out()
            };
            lemma_cat_assoc(old(em).out(), java_fields(s@.take(i as int), scope@, vis@), extra);
        }
        i += 1;
    }
    assert(s@.take(s@.len() as int) =~= s@);
}

fn ex_java_import(em: &mut Emitted, n: &SyntaxNode, scope: &str)
    ensures
        final(em).out() == cat(old(em).out(), java_import(*n, scope@)),
{
    let t0 = trim(n.text.as_str());
    let a = ex_strip_prefix_all(chars_of(t0.as_str()), &chars_of("import"));
    let t1 = trim(string_from_chars(&a).as_str());
    let b = ex_strip_prefix_all(chars_of(t1.as_str()), &chars_of("static"));
    let t2 = trim(string_from_chars(&b).as_str());
    let c = ex_strip_trailing(chars_of(t2.as_str()), ';');
    let cleaned = trim(string_from_chars(&c).as_str());
    if str_is_empty(cleaned.as_str()) {
        proof { lemma_cat_none(old(em).out()); }
        return;
    }
    let cs = chars_of(cleaned.as_str());
    let name = string_from_chars(&ex_after_last(&cs, '.'));
    let mut key = chars_of("import:");
    append_chars(&mut key, &cs);
    let qn = qual(scope, string_from_chars(&key).as_str());
    let mut props: Vec<(String, String)> = Vec::new();
    props.push(prop("target", cleaned.as_str()));
    assert(prop_views(props@) =~= seq![("target"@, cleaned@)]);
    let node = mk_node("Import", name.as_str(), qn.as_str(), line_of(n.start_row), line_of(n.end_row), "package", props);
    em.emit(node, mk_ref("Imports", scope, cleaned.as_str()));
}

fn ex_is_body_kind(k: &str) -> (r: bool)
    ensures
        r == is_body_kind(k@),
{
    let cs = chars_of(k);
    let suffix = chars_of("_body");
    ends_with(&cs, &suffix)
}

fn ex_java_class(em: &mut Emitted, n: &SyntaxNode, scope: &str, label: &str, seq: u64) -> (k: u64)
    ensures
        final(em).out() == cat(old(em).out(), java_class(*n, scope@, label@, seq).0),
        k == java_class(*n, scope@, label@, seq).1,
    decreases n, 0int,
{
    let name = exec_field_text(n, "name");
    if str_is_empty(name.as_str()) {
        proof { lemma_cat_none(old(em).out()); }
        return seq;
    }
    let qn = qual(scope, name.as_str());
    let vis = ex_vis_from(&n.children);
    let props: Vec<(String, String)> = Vec::new();
    assert(prop_views(props@) =~= Seq::empty());
    let node = mk_node(label, name.as_str(), qn.as_str(), line_of(n.start_row), line_of(n.end_row), vis.as_str(), props);
    let ghost e0 = em.out();
    em.emit(node, mk_ref("Defines", scope, qn.as_str()));
    ex_heritage(em, n, qn.as_str());
    let ghost head = cat(one(node_out(node), RefOut { kind: "Defines"@, from: scope@, to: qn@ }), heritage(*n, qn@));
    proof { lemma_cat_assoc(e0, one(node_out(node), RefOut { kind: "Defines"@, from: scope@, to: qn@ }), heritage(*n, qn@)); }
    match field_pos(n, "body") {
        Some(i) => {
            let r = ex_java_list(em, &n.children[i].children, qn.as_str(), Some(qn.as_str()), seq);
            proof {
                let b = java_list(n.children@[i as int].children@, qn@, Some(qn@), seq);
                lemma_cat_assoc(e0, head, b.0);
            }
            r
        },
        None => seq,
    }
}

fn ex_java_item(em: &mut Emitted, n: &SyntaxNode, scope: &str, enclosing: Option<&str>, seq: u64) -> (k: u64)
    ensures
        final(em).out() == cat(old(em).out(), java_item(*n, scope@, opt_str_view(enclosing), seq).0),
        k == java_item(*n, scope@, opt_str_view(enclosing), seq).1,
    decreases n, 1int,
{
    let k = n.kind.as_str();
    if str_eq(k, "class_declaration") || str_eq(k, "record_declaration") {
        ex_java_class(em, n, scope, "Struct", seq)
    } else if str_eq(k, "interface_declaration") || str_eq(k, "annotation_type_declaration") {
        ex_java_class(em, n, scope, "Trait", seq)
    } else if str_eq(k, "enum_declaration") {
        ex_java_class(em, n, scope, "Enum", seq)
    } else if str_eq(k, "method_declaration") || str_eq(k, "constructor_declaration") {
        ex_java_method(em, n, scope, enclosing, seq)
    } else if str_eq(k, "field_declaration") {
        let vis = ex_vis_from(&n.children);
        ex_java_fields(em, &n.children, scope, vis.as_str());
        seq
    } else if str_eq(k, "import_declaration") {
        ex_java_import(em, n, scope);
        seq
    } else if ex_is_body_kind(k) {
        ex_java_list(em, &n.children, scope, enclosing, seq)
    } else {
        proof { lemma_cat_none(old(em).out()); }
        seq
    }
}

fn ex_java_list(em: &mut Emitted, s: &Vec<SyntaxNode>, scope: &str, enclosing: Option<&str>, seq: u64) -> (k: u64)
    ensures
        final(em).out() == cat(old(em).out(), java_list(s@, scope@, opt_str_view(enclosing), seq).0),
        k == java_list(s@, scope@, opt_str_view(enclosing), seq).1,
    decreases s, 0int,
{
    proof { lemma_cat_none(old(em).out()); }
    assert(s@.take(0) =~= Seq::<SyntaxNode>::empty());
    let mut cur = seq;
    let mut i: usize = 0;
    while i < s.len()
        invariant
            i <= s@.len(),
            em.out() == cat(old(em).out(), java_list(s@.take(i as int), scope@, opt_str_view(enclosing), seq).0),
            cur == java_list(s@.take(i as int), scope@, opt_str_view(enclosing), seq).1,
        decreases s@.len() - i,
    {
        let ghost before_seq = cur;
        cur = ex_java_item(em, &s[i], scope, enclosing, cur);
        proof {
            let t = s@.take(i + 1);
            assert(t.drop_last() =~= s@.take(i as int));
            assert(t.last() == s@[i as int]);
            let p = java_list(s@.take(i as int), scope@, opt_str_view(enclosing), seq);
            let q = java_item(s@[i as int], scope@, opt_str_view(enclosing), p.1);
            lemma_cat_assoc(old(em).out(), p.0, q.0);
        }
        i += 1;
    }
    assert(s@.take(s@.len() as int) =~= s@);
    cur
}

/// The symbols and references of one Java file, read off its syntax tree.
pub fn extract_java(root: &SyntaxNode, file_path: &str) -> (r: ParseResult)
    ensures
        result_out(r) == java_file_out(*root, file_path@),
{
    let mut em = Emitted::new();
    let _ = ex_java_list(&mut em, &root.children, file_path, None, 0);
    proof { lemma_cat_none(java_file_out(*root, file_path@)); }
    ParseResult { nodes: em.nodes, refs: em.refs }
}

/// Parses one `.java` file and extracts its symbols and relationships.
/// The symbols are those the grammar's tree yields; when no tree comes back
/// (the parse ran past its time limit), the error; when tree-sitter
/// refuses the grammar, its message after `failed to set … language: `.
pub fn parse_java_file(source: &str, file_path: &str) -> (r: Result<ParseResult, String>)
    ensures
        match r {
            Ok(p) => java_syntax(source@) matches Some(t) && result_out(p) == java_file_out(t, file_path@),
            Err(e) => e@ == NO_TREE@ || is_refusal("Java "@, e@),
        },
{
    match parse_java_syntax(source) {
        Ok(Some(tree)) => Ok(extract_java(&tree, file_path)),
        Ok(None) => Err(to_owned_string(NO_TREE)),
        Err(detail) => Err(language_refused_message("Java ", detail.as_str())),
    }
}


// ---------------------------------------------------------------------------
// Numbering
// ---------------------------------------------------------------------------

proof fn lemma_java_call_here(n: SyntaxNode, caller: Seq<char>, seq: u64)
    requires
        java_call_here(n, caller, seq).1 < u64::MAX,
    ensures
        seq <= java_call_here(n, caller, seq).1,
        numbered_in(java_call_here(n, caller, seq).0, seq as int, java_call_here(n, caller, seq).1 as int),
{
    let callee = java_callee(n);
    if (n.kind@ == "method_invocation"@ || n.kind@ == "object_creation_expression"@) && callee.len() > 0 {
        let k = bump(seq);
        let p = caller + "::call@"@ + decimal(spec_line(n.start_row) as nat) + ":"@ + decimal(spec_line(n.start_col) as nat);
        lemma_qn_number(p, k as nat);
    }
}

proof fn lemma_java_calls(n: SyntaxNode, caller: Seq<char>, seq: u64)
    requires
        java_calls(n, caller, seq).1 < u64::MAX,
    ensures
        seq <= java_calls(n, caller, seq).1,
        numbered_in(java_calls(n, caller, seq).0, seq as int, java_calls(n, caller, seq).1 as int),
    decreases n,
{
    let h = java_call_here(n, caller, seq);
    lemma_java_calls_rev(n.children@, caller, h.1);
    lemma_java_call_here(n, caller, seq);
    let r = java_calls_rev(n.children@, caller, h.1);
    lemma_numbered_cat(h.0, r.0, seq as int, h.1 as int, r.1 as int);
}

proof fn lemma_java_calls_rev(s: Seq<SyntaxNode>, caller: Seq<char>, seq: u64)
    requires
        java_calls_rev(s, caller, seq).1 < u64::MAX,
    ensures
        seq <= java_calls_rev(s, caller, seq).1,
        numbered_in(java_calls_rev(s, caller, seq).0, seq as int, java_calls_rev(s, caller, seq).1 as int),
    decreases s,
{
    if s.len() > 0 {
        let a = java_calls(s.last(), caller, seq);
        lemma_java_calls_rev(s.drop_last(), caller, a.1);
        lemma_java_calls(s.last(), caller, seq);
        let b = java_calls_rev(s.drop_last(), caller, a.1);
        lemma_numbered_cat(a.0, b.0, seq as int, a.1 as int, b.1 as int);
    }
}

proof fn lemma_java_method(n: SyntaxNode, scope: Seq<char>, enclosing: Option<Seq<char>>, seq: u64)
    requires
        java_method(n, scope, enclosing, seq).1 < u64::MAX,
    ensures
        seq <= java_method(n, scope, enclosing, seq).1,
        numbered_in(java_method(n, scope, enclosing, seq).0, seq as int, java_method(n, scope, enclosing, seq).1 as int),
{
    let name = field_text(n, "name"@);
    if name.len() > 0 {
        let k = bump(seq);
        let qn = spec_qual(scope, name) + "#"@ + decimal(k as nat);
        match field_index(n.children@, "body"@) {
            Some(i) => { lemma_java_calls(n.children@[i], qn, k); },
            None => { lemma_numbered_none(k as int, k as int); },
        }
        lemma_qn_number(spec_qual(scope, name), k as nat);
        let node = NodeOut { label: if enclosing is Some { "Method"@ } else { "Function"@ }, name, qn,
            start: spec_line(n.start_row), end: spec_line(n.end_row), vis: vis_from(n.children@),
            props: match enclosing { Some(t) => seq![("receiver_type"@, t)], None => Seq::empty() } };
        let head = one(node, rf(if enclosing is Some { "HasMethod"@ } else { "Defines"@ }, scope, qn));
        let calls = match field_index(n.children@, "body"@) {
            Some(i) => java_calls(n.children@[i], qn, k),
            None => (no_out(), k),
        };
        assert(numbered_in(head, seq as int, k as int));
        lemma_numbered_cat(head, calls.0, seq as int, k as int, calls.1 as int);
    }
}

proof fn lemma_java_fields_plain(s: Seq<SyntaxNode>, scope: Seq<char>, vis: Seq<char>)
    ensures
        plain(java_fields(s, scope, vis)),
    decreases s.len(),
{
    lemma_unnumbered_labels();
    if s.len() > 0 {
        lemma_java_fields_plain(s.drop_last(), scope, vis);
        let c = s.last();
        let name = field_text(c, "name"@);
        let extra = if c.kind@ == "variable_declarator"@ && name.len() > 0 {
            one(NodeOut { label: "Constant"@, name, qn: spec_qual(scope, name), start: spec_line(c.start_row),
                    end: spec_line(c.end_row), vis, props: Seq::empty() },
                rf("Defines"@, scope, spec_qual(scope, name)))
        } else {
            no_out()
        };
        lemma_plain_cat(java_fields(s.drop_last(), scope, vis), extra);
    }
}

proof fn lemma_java_class(n: SyntaxNode, scope: Seq<char>, label: Seq<char>, seq: u64)
    requires
        java_class(n, scope, label, seq).1 < u64::MAX,
        !numbered_label(label),
    ensures
        seq <= java_class(n, scope, label, seq).1,
        numbered_in(java_class(n, scope, label, seq).0, seq as int, java_class(n, scope, label, seq).1 as int),
    decreases n, 0int,
{
    let name = field_text(n, "name"@);
    if name.len() > 0 {
        let qn = spec_qual(scope, name);
        let one_node = one(NodeOut { label, name, qn, start: spec_line(n.start_row), end: spec_line(n.end_row),
                vis: vis_from(n.children@), props: Seq::empty() }, rf("Defines"@, scope, qn));
        let sup = superclass(n);
        let ext = if sup.len() > 0 { extends_refs(qn, seq![sup]) } else { no_out() };
        let imp = match field_index(n.children@, "interfaces"@) {
            Some(i) => implements_refs(qn, iface_names(n.children@[i].children@)),
            None => no_out(),
        };
        lemma_plain_cat(ext, imp);
        lemma_plain_cat(one_node, heritage(n, qn));
        let head = cat(one_node, heritage(n, qn));
        lemma_plain_numbered(head, seq as int, seq as int);
        lemma_field_index(n.children@, "body"@);
        match field_index(n.children@, "body"@) {
            Some(i) => {
                lemma_java_list(n.children@[i].children@, qn, Some(qn), seq);
                let b = java_list(n.children@[i].children@, qn, Some(qn), seq);
                lemma_numbered_cat(head, b.0, seq as int, seq as int, b.1 as int);
            },
            None => {},
        }
    } else {
        lemma_numbered_none(seq as int, seq as int);
    }
}

proof fn lemma_java_item(n: SyntaxNode, scope: Seq<char>, enclosing: Option<Seq<char>>, seq: u64)
    requires
        java_item(n, scope, enclosing, seq).1 < u64::MAX,
    ensures
        seq <= java_item(n, scope, enclosing, seq).1,
        numbered_in(java_item(n, scope, enclosing, seq).0, seq as int, java_item(n, scope, enclosing, seq).1 as int),
    decreases n, 1int,
{
    lemma_unnumbered_labels();
    let k = n.kind@;
    let z = seq as int;
    if k == "class_declaration"@ || k == "record_declaration"@ {
        lemma_java_class(n, scope, "Struct"@, seq);
    } else if k == "interface_declaration"@ || k == "annotation_type_declaration"@ {
        lemma_java_class(n, scope, "Trait"@, seq);
    } else if k == "enum_declaration"@ {
        lemma_java_class(n, scope, "Enum"@, seq);
    } else if k == "method_declaration"@ || k == "constructor_declaration"@ {
        lemma_java_method(n, scope, enclosing, seq);
    } else if k == "field_declaration"@ {
        lemma_java_fields_plain(n.children@, scope, vis_from(n.children@));
        lemma_plain_numbered(java_fields(n.children@, scope, vis_from(n.children@)), z, z);
    } else if k == "import_declaration"@ {
        lemma_plain_numbered(java_import(n, scope), z, z);
    } else if is_body_kind(k) {
        lemma_java_list(n.children@, scope, enclosing, seq);
    }
}

proof fn lemma_java_list(s: Seq<SyntaxNode>, scope: Seq<char>, enclosing: Option<Seq<char>>, seq: u64)
    requires
        java_list(s, scope, enclosing, seq).1 < u64::MAX,
    ensures
        seq <= java_list(s, scope, enclosing, seq).1,
        numbered_in(java_list(s, scope, enclosing, seq).0, seq as int, java_list(s, scope, enclosing, seq).1 as int),
    decreases s, 0int,
{
    if s.len() > 0 {
        let p = java_list(s.drop_last(), scope, enclosing, seq);
        lemma_java_item(s.last(), scope, enclosing, p.1);
        lemma_java_list(s.drop_last(), scope, enclosing, seq);
        let q = java_item(s.last(), scope, enclosing, p.1);
        lemma_numbered_cat(p.0, q.0, seq as int, p.1 as int, q.1 as int);
    }
}

/// In what a Java file yields, no two methods, functions or call sites
/// share a qualified name (overloads included), as long as the file
/// numbers fewer than `u64::MAX` of them.
pub proof fn lemma_java_numbered_names_distinct(root: SyntaxNode, file: Seq<char>)
    requires
        java_list(root.children@, file, None, 0).1 < u64::MAX,
    ensures
        numbered_names_distinct(java_file_out(root, file)),
{
    lemma_java_list(root.children@, file, None, 0);
    lemma_numbered_distinct(java_file_out(root, file), 0, java_list(root.children@, file, None, 0).1 as int);
}

} // verus!
