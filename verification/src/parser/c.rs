//! The C front end: `#include`s, structs and unions, enums with their
//! enumerators, typedefs, function definitions and prototypes, and calls.
//! Declarations nested in other constructs (preprocessor conditionals,
//! linkage blocks) are reached by descending into any node with named
//! children. Functions and call sites are numbered in the order they are
//! met (`#n`). The identifier search, the include target and the call
//! walk are shared with the C++ front end.

use vstd::prelude::*;
use crate::text::{chars_of, str_eq, str_is_empty, to_owned_string, string_from_chars, slice_to_vec,
    unicode_is_alphabetic, char_is_alphabetic, trim, spec_trim};
use crate::parser::{append_chars, qual, spec_qual, ParseResult};
use crate::parser::naming::{decimal, push_decimal};
use crate::parser::grammars::{parse_c_syntax, c_syntax};
use crate::parser::rust::{rf, result_out};
use crate::parser::python::strip_leading;
use crate::parser::go::{bump, exec_bump, strip_trailing, ex_strip_leading, ex_strip_trailing, after_last,
    ex_after_last};
use crate::parser::java::{strip_prefix_all, ex_strip_prefix_all};
use crate::parser::numbering::{numbered_in, plain, numbered_names_distinct, lemma_qn_number, lemma_numbered_none,
    lemma_plain_numbered, lemma_plain_cat, lemma_unnumbered_labels, lemma_numbered_cat, lemma_numbered_distinct};
use crate::parser::syntax::{is_refusal, language_refused_message, SyntaxNode, Counted, Out, NodeOut, RefOut, Emitted, no_out, cat, one, spec_line, line_of,
    field_index, field_pos, field_text, exec_field_text, has_child_kind, exec_has_child_kind, node_out, prop_views,
    lemma_cat_assoc, lemma_cat_none, prop, mk_node, mk_ref, NO_TREE};

verus! {

/// The kinds that carry a name: identifiers and type identifiers, and
/// (when `fields` holds) field identifiers.
pub open spec fn is_ident_kind(k: Seq<char>, fields: bool) -> bool {
    k == "identifier"@ || k == "type_identifier"@ || (fields && k == "field_identifier"@)
}

/// The text of the first identifier met in a depth-first walk of `n`
/// that visits the children of a node last to first.
pub open spec fn first_ident(n: SyntaxNode, fields: bool) -> Option<Seq<char>>
    decreases n,
{
    if is_ident_kind(n.kind@, fields) { Some(n.text@) } else { first_ident_rev(n.children@, fields) }
}

pub open spec fn first_ident_rev(s: Seq<SyntaxNode>, fields: bool) -> Option<Seq<char>>
    decreases s,
{
    if s.len() == 0 {
        None
    } else {
        match first_ident(s.last(), fields) {
            Some(t) => Some(t),
            None => first_ident_rev(s.drop_last(), fields),
        }
    }
}

/// That identifier's text, or the empty string.
pub open spec fn find_ident(n: SyntaxNode, fields: bool) -> Seq<char> {
    match first_ident(n, fields) {
        Some(t) => t,
        None => Seq::empty(),
    }
}

/// The `name` field's text, or else the first identifier.
pub open spec fn name_or_ident(n: SyntaxNode, fields: bool) -> Seq<char> {
    let f = field_text(n, "name"@);
    if f.len() > 0 { f } else { find_ident(n, fields) }
}

/// `s` with every leading and trailing `c` removed.
pub open spec fn trim_char(s: Seq<char>, c: char) -> Seq<char> {
    strip_trailing(strip_leading(s, c), c)
}

/// The target of an include directive: the text after `#include`,
/// without its `<`, `>` and `"` delimiters.
pub open spec fn include_target(text: Seq<char>) -> Seq<char> {
    spec_trim(trim_char(trim_char(trim_char(spec_trim(strip_prefix_all(spec_trim(text), "#include"@)), '<'), '>'), '"'))
}

/// The separators before a callee's own name: `.`, `->` and `::`.
pub open spec fn is_call_sep(c: char) -> bool {
    c == '.' || c == '>' || c == ':'
}

/// The part of `s` after its last separator (all of `s` when it has none).
pub open spec fn after_last_sep(s: Seq<char>) -> Seq<char>
    decreases s.len(),
{
    if s.len() == 0 || is_call_sep(s.last()) { Seq::empty() } else { after_last_sep(s.drop_last()).push(s.last()) }
}

/// The callee name of a call: the last segment after `.`, `>` or `:`,
/// trailing `(` and white space removed.
pub open spec fn c_call_tail(callee: Seq<char>) -> Seq<char> {
    spec_trim(strip_trailing(after_last_sep(callee), '('))
}

/// Some child of `n` is named.
pub open spec fn has_named_child(n: SyntaxNode) -> bool {
    exists|i: int| 0 <= i < n.children@.len() && (#[trigger] n.children@[i]).named
}

/// A declaration that declares a function: a child `function_declarator`,
/// or one under a child `init_declarator`.
pub open spec fn is_prototype(n: SyntaxNode) -> bool {
    exists|i: int| 0 <= i < n.children@.len() && ((#[trigger] n.children@[i]).kind@ == "function_declarator"@
        || (n.children@[i].kind@ == "init_declarator"@ && has_child_kind(n.children@[i], "function_declarator"@)))
}

/// A struct or union: a `Struct` named by its name or first identifier.
pub open spec fn c_struct(n: SyntaxNode, scope: Seq<char>) -> Out {
    let name = name_or_ident(n, false);
    if name.len() == 0 {
        no_out()
    } else {
        let qn = spec_qual(scope, name);
        one(NodeOut { label: "Struct"@, name, qn, start: spec_line(n.start_row), end: spec_line(n.end_row),
                vis: "public"@, props: Seq::empty() },
            rf("Defines"@, scope, qn))
    }
}

/// One enumerator of an enum body, as a constant under the enum.
pub open spec fn c_enumerator(c: SyntaxNode, owner: Seq<char>) -> Out {
    let en = find_ident(c, false);
    if c.kind@ != "enumerator"@ || en.len() == 0 {
        no_out()
    } else {
        let eqn = spec_qual(owner, en);
        one(NodeOut { label: "Constant"@, name: en, qn: eqn, start: spec_line(c.start_row), end: spec_line(c.end_row),
                vis: "public"@, props: seq![("enum_entry"@, "true"@)] },
            rf("Defines"@, owner, eqn))
    }
}

pub open spec fn c_enumerators(s: Seq<SyntaxNode>, owner: Seq<char>) -> Out
    decreases s.len(),
{
    if s.len() == 0 { no_out() } else { cat(c_enumerators(s.drop_last(), owner), c_enumerator(s.last(), owner)) }
}

/// An enum and its enumerators.
pub open spec fn c_enum(n: SyntaxNode, scope: Seq<char>) -> Out {
    let name = name_or_ident(n, false);
    if name.len() == 0 {
        no_out()
    } else {
        let qn = spec_qual(scope, name);
        cat(one(NodeOut { label: "Enum"@, name, qn, start: spec_line(n.start_row), end: spec_line(n.end_row),
                    vis: "public"@, props: Seq::empty() },
                rf("Defines"@, scope, qn)),
            match field_index(n.children@, "body"@) {
                Some(i) => c_enumerators(n.children@[i].children@, qn),
                None => no_out(),
            })
    }
}

/// A typedef, as a constant marked `typedef`.
pub open spec fn c_typedef(n: SyntaxNode, scope: Seq<char>, fields: bool) -> Out {
    let name = find_ident(n, fields);
    if name.len() == 0 {
        no_out()
    } else {
        let qn = spec_qual(scope, name);
        one(NodeOut { label: "Constant"@, name, qn, start: spec_line(n.start_row), end: spec_line(n.end_row),
                vis: "public"@, props: seq![("typedef"@, "true"@)] },
            rf("Defines"@, scope, qn))
    }
}

/// An include: an Import named by the target's last path segment, keyed
/// `scope::include:target`.
pub open spec fn c_include(n: SyntaxNode, scope: Seq<char>) -> Out {
    let cleaned = include_target(n.text@);
    if cleaned.len() == 0 {
        no_out()
    } else {
        one(NodeOut { label: "Import"@, name: after_last(cleaned, '/'), qn: spec_qual(scope, "include:"@ + cleaned),
                start: spec_line(n.start_row), end: spec_line(n.end_row), vis: "public"@,
                props: seq![("target"@, cleaned)] },
            rf("Imports"@, scope, cleaned))
    }
}

/// The CallSite and `Calls` reference a call expression yields, when its
/// callee name starts with a letter or `_`.
pub open spec fn c_call_here(n: SyntaxNode, caller: Seq<char>, seq: u64) -> Counted {
    let tail = c_call_tail(field_text(n, "function"@));
    if n.kind@ == "call_expression"@ && tail.len() > 0 && (unicode_is_alphabetic(tail[0]) || tail[0] == '_') {
        let k = bump(seq);
        let id = caller + "::call@"@ + decimal(spec_line(n.start_row) as nat) + ":"@ + decimal(spec_line(n.start_col) as nat)
            + "#"@ + decimal(k as nat);
        (one(NodeOut { label: "CallSite"@, name: tail, qn: id, start: spec_line(n.start_row), end: spec_line(n.end_row),
                vis: "public"@, props: seq![("callee_name"@, tail)] },
            rf("Calls"@, caller, tail)), k)
    } else {
        (no_out(), seq)
    }
}

/// The calls under `n`, depth first (children last to first), numbered
/// from `seq` on.
pub open spec fn c_calls(n: SyntaxNode, caller: Seq<char>, seq: u64) -> Counted
    decreases n,
{
    let h = c_call_here(n, caller, seq);
    let r = c_calls_rev(n.children@, caller, h.1);
    (cat(h.0, r.0), r.1)
}

pub open spec fn c_calls_rev(s: Seq<SyntaxNode>, caller: Seq<char>, seq: u64) -> Counted
    decreases s,
{
    if s.len() == 0 {
        (no_out(), seq)
    } else {
        let a = c_calls(s.last(), caller, seq);
        let b = c_calls_rev(s.drop_last(), caller, a.1);
        (cat(a.0, b.0), b.1)
    }
}

/// The calls in the `body` of `n`.
pub open spec fn c_body_calls(n: SyntaxNode, caller: Seq<char>, seq: u64) -> Counted {
    match field_index(n.children@, "body"@) {
        Some(i) => c_calls(n.children@[i], caller, seq),
        None => (no_out(), seq),
    }
}

/// The name of a function definition: the first identifier of its
/// declarator.
pub open spec fn declarator_name(n: SyntaxNode, fields: bool) -> Seq<char> {
    match field_index(n.children@, "declarator"@) {
        Some(i) => find_ident(n.children@[i], fields),
        None => Seq::empty(),
    }
}

/// A function definition, numbered, with its calls.
pub open spec fn c_function(n: SyntaxNode, scope: Seq<char>, seq: u64) -> Counted {
    let name = declarator_name(n, false);
    if name.len() == 0 {
        (no_out(), seq)
    } else {
        let k = bump(seq);
        let qn = spec_qual(scope, name) + "#"@ + decimal(k as nat);
        let calls = c_body_calls(n, qn, k);
        (cat(one(NodeOut { label: "Function"@, name, qn, start: spec_line(n.start_row), end: spec_line(n.end_row),
                    vis: "public"@, props: Seq::empty() },
                rf("Defines"@, scope, qn)), calls.0), calls.1)
    }
}

/// A function prototype, numbered and marked `is_prototype`.
pub open spec fn c_prototype(n: SyntaxNode, scope: Seq<char>, seq: u64) -> Counted {
    let name = find_ident(n, false);
    if name.len() == 0 {
        (no_out(), seq)
    } else {
        let k = bump(seq);
        let qn = spec_qual(scope, name) + "#"@ + decimal(k as nat);
        (one(NodeOut { label: "Function"@, name, qn, start: spec_line(n.start_row), end: spec_line(n.end_row),
                vis: "public"@, props: seq![("is_prototype"@, "true"@)] },
            rf("Defines"@, scope, qn)), k)
    }
}

/// What one node among the top-level items yields; a node of no known
/// kind that has named children is searched in turn.
pub open spec fn c_item(n: SyntaxNode, scope: Seq<char>, seq: u64) -> Counted
    decreases n,
{
    let k = n.kind@;
    if k == "struct_specifier"@ || k == "union_specifier"@ {
        (c_struct(n, scope), seq)
    } else if k == "enum_specifier"@ {
        (c_enum(n, scope), seq)
    } else if k == "type_definition"@ {
        (c_typedef(n, scope, false), seq)
    } else if k == "function_definition"@ {
        c_function(n, scope, seq)
    } else if k == "preproc_include"@ {
        (c_include(n, scope), seq)
    } else if k == "declaration"@ {
        if is_prototype(n) { c_prototype(n, scope, seq) } else { (no_out(), seq) }
    } else if has_named_child(n) {
        c_items(n.children@, scope, seq)
    } else {
        (no_out(), seq)
    }
}

pub open spec fn c_items(s: Seq<SyntaxNode>, scope: Seq<char>, seq: u64) -> Counted
    decreases s,
{
    if s.len() == 0 {
        (no_out(), seq)
    } else {
        let p = c_items(s.drop_last(), scope, seq);
        let q = c_item(s.last(), scope, p.1);
        (cat(p.0, q.0), q.1)
    }
}

/// What a whole file yields.
pub open spec fn c_file_out(root: SyntaxNode, file: Seq<char>) -> Out {
    c_items(root.children@, file, 0).0
}

// ---------------------------------------------------------------------------
// Extraction
// ---------------------------------------------------------------------------

fn exec_is_ident_kind(k: &str, fields: bool) -> (r: bool)
    ensures
        r == is_ident_kind(k@, fields),
{
    str_eq(k, "identifier") || str_eq(k, "type_identifier") || (fields && str_eq(k, "field_identifier"))
}

fn ex_first_ident(n: &SyntaxNode, fields: bool) -> (r: Option<String>)
    ensures
        match r {
            Some(t) => first_ident(*n, fields) == Some(t@),
            None => first_ident(*n, fields) is None,
        },
    decreases n,
{
    if exec_is_ident_kind(n.kind.as_str(), fields) {
        return Some(to_owned_string(n.text.as_str()));
    }
    let mut i: usize = n.children.len();
    assert(n.children@.take(i as int) =~= n.children@);
    while i > 0
        invariant
            i <= n.children@.len(),
            !is_ident_kind(n.kind@, fields),
            first_ident_rev(n.children@, fields) == first_ident_rev(n.children@.take(i as int), fields),
        decreases i,
    {
        i -= 1;
        proof {
            let t = n.children@.take(i + 1);
            assert(t.drop_last() =~= n.children@.take(i as int));
            assert(t.last() == n.children@[i as int]);
        }
        match ex_first_ident(&n.children[i], fields) {
            Some(t) => {
                return Some(t);
            },
            None => {},
        }
    }
    assert(n.children@.take(0) =~= Seq::<SyntaxNode>::empty());
    None
}

/// The first identifier's text (see `find_ident`).
pub fn ex_find_ident(n: &SyntaxNode, fields: bool) -> (r: String)
    ensures
        r@ == find_ident(*n, fields),
{
    match ex_first_ident(n, fields) {
        Some(t) => t,
        None => String::new(),
    }
}

pub fn ex_name_or_ident(n: &SyntaxNode, fields: bool) -> (r: String)
    ensures
        r@ == name_or_ident(*n, fields),
{
    let f = exec_field_text(n, "name");
    if !str_is_empty(f.as_str()) { f } else { ex_find_ident(n, fields) }
}

pub fn ex_trim_char(v: Vec<char>, c: char) -> (r: Vec<char>)
    ensures
        r@ == trim_char(v@, c),
{
    let a = ex_strip_leading(v, c);
    ex_strip_trailing(a, c)
}

fn ex_include_target(text: &str) -> (r: String)
    ensures
        r@ == include_target(text@),
{
    let t0 = trim(text);
    let a = ex_strip_prefix_all(chars_of(t0.as_str()), &chars_of("#include"));
    let t1 = trim(string_from_chars(&a).as_str());
    let b = ex_trim_char(chars_of(t1.as_str()), '<');
    let c = ex_trim_char(b, '>');
    let d = ex_trim_char(c, '"');
    trim(string_from_chars(&d).as_str())
}

fn exec_is_call_sep(c: char) -> (r: bool)
    ensures
        r == is_call_sep(c),
{
    c == '.' || c == '>' || c == ':'
}

fn ex_after_last_sep(v: &Vec<char>) -> (r: Vec<char>)
    ensures
        r@ == after_last_sep(v@),
{
    let mut b: usize = v.len();
    assert(v@.take(b as int) =~= v@);
    while b > 0 && !exec_is_call_sep(v[b - 1])
        invariant
            b <= v@.len(),
            after_last_sep(v@) == after_last_sep(v@.take(b as int)) + v@.subrange(b as int, v@.len() as int),
        decreases b,
    {
        proof {
            let t = v@.take(b as int);
            assert(t.last() == v@[b - 1]);
            assert(t.drop_last() =~= v@.take(b - 1));
            assert(after_last_sep(t) == after_last_sep(v@.take(b - 1)).push(v@[b - 1]));
            assert(after_last_sep(v@.take(b - 1)).push(v@[b - 1]) + v@.subrange(b as int, v@.len() as int)
                =~= after_last_sep(v@.take(b - 1)) + v@.subrange(b - 1, v@.len() as int));
        }
        b -= 1;
    }
    proof {
        assert(after_last_sep(v@.take(b as int)) =~= Seq::<char>::empty());
        assert(Seq::<char>::empty() + v@.subrange(b as int, v@.len() as int) =~= v@.subrange(b as int, v@.len() as int));
    }
    slice_to_vec(v, b, v.len())
}

fn ex_c_call_tail(callee: &str) -> (r: String)
    ensures
        r@ == c_call_tail(callee@),
{
    let a = ex_after_last_sep(&chars_of(callee));
    let b = ex_strip_trailing(a, '(');
    trim(string_from_chars(&b).as_str())
}

pub fn ex_has_named_child(n: &SyntaxNode) -> (r: bool)
    ensures
        r == has_named_child(*n),
{
    let mut i: usize = 0;
    while i < n.children.len()
        invariant
            i <= n.children@.len(),
            forall|j: int| 0 <= j < i ==> !(#[trigger] n.children@[j]).named,
        decreases n.children@.len() - i,
    {
        if n.children[i].named {
            assert(n.children@[i as int].named);
            return true;
        }
        i += 1;
    }
    false
}

fn ex_is_prototype(n: &SyntaxNode) -> (r: bool)
    ensures
        r == is_prototype(*n),
{
    let mut i: usize = 0;
    while i < n.children.len()
        invariant
            i <= n.children@.len(),
            forall|j: int| 0 <= j < i ==> !((#[trigger] n.children@[j]).kind@ == "function_declarator"@
                || (n.children@[j].kind@ == "init_declarator"@ && has_child_kind(n.children@[j], "function_declarator"@))),
        decreases n.children@.len() - i,
    {
        let c = &n.children[i];
        if str_eq(c.kind.as_str(), "function_declarator") {
            assert(n.children@[i as int].kind@ == "function_declarator"@);
            return true;
        }
        if str_eq(c.kind.as_str(), "init_declarator") && exec_has_child_kind(c, "function_declarator") {
            assert(n.children@[i as int].kind@ == "init_declarator"@);
            return true;
        }
        i += 1;
    }
    false
}

fn ex_c_struct(em: &mut Emitted, n: &SyntaxNode, scope: &str)
    ensures
        final(em).out() == cat(old(em).out(), c_struct(*n, scope@)),
{
    let name = ex_name_or_ident(n, false);
    if str_is_empty(name.as_str()) {
        proof { lemma_cat_none(old(em).out()); }
        return;
    }
    let qn = qual(scope, name.as_str());
    let props: Vec<(String, String)> = Vec::new();
    assert(prop_views(props@) =~= Seq::empty());
    let node = mk_node("Struct", name.as_str(), qn.as_str(), line_of(n.start_row), line_of(n.end_row), "public", props);
    em.emit(node, mk_ref("Defines", scope, qn.as_str()));
}

fn ex_c_enumerators(em: &mut Emitted, s: &Vec<SyntaxNode>, owner: &str)
    ensures
        final(em).out() == cat(old(em).out(), c_enumerators(s@, owner@)),
{
    proof { lemma_cat_none(old(em).out()); }
    assert(s@.take(0) =~= Seq::<SyntaxNode>::empty());
    let mut i: usize = 0;
    while i < s.len()
        invariant
            i <= s@.len(),
            em.out() == cat(old(em).out(), c_enumerators(s@.take(i as int), owner@)),
        decreases s@.len() - i,
    {
        let c = &s[i];
        let ghost before = em.out();
        let en = ex_find_ident(c, false);
        if str_eq(c.kind.as_str(), "enumerator") && !str_is_empty(en.as_str()) {
            let eqn = qual(owner, en.as_str());
            let mut props: Vec<(String, String)> = Vec::new();
            props.push(prop("enum_entry", "true"));
            assert(prop_views(props@) =~= seq![("enum_entry"@, "true"@)]);
            let node = mk_node("Constant", en.as_str(), eqn.as_str(), line_of(c.start_row), line_of(c.end_row), "public", props);
            em.emit(node, mk_ref("Defines", owner, eqn.as_str()));
        } else {
            proof { lemma_cat_none(before); }
        }
        proof {
            let t = s@.take(i + 1);
            assert(t.drop_last() =~= s@.take(i as int));
            assert(t.last() == s@[i as int]);
            lemma_cat_assoc(old(em).out(), c_enumerators(s@.take(i as int), owner@), c_enumerator(s@[i as int], owner@));
        }
        i += 1;
    }
    assert(s@.take(s@.len() as int) =~= s@);
}

fn ex_c_enum(em: &mut Emitted, n: &SyntaxNode, scope: &str)
    ensures
        final(em).out() == cat(old(em).out(), c_enum(*n, scope@)),
{
    let name = ex_name_or_ident(n, false);
    if str_is_empty(name.as_str()) {
        proof { lemma_cat_none(old(em).out()); }
        return;
    }
    let qn = qual(scope, name.as_str());
    let props: Vec<(String, String)> = Vec::new();
    assert(prop_views(props@) =~= Seq::empty());
    let node = mk_node("Enum", name.as_str(), qn.as_str(), line_of(n.start_row), line_of(n.end_row), "public", props);
    let ghost e0 = em.out();
    let r = mk_ref("Defines", scope, qn.as_str());
    let ghost head = one(node_out(node), RefOut { kind: "Defines"@, from: scope@, to: qn@ });
    em.emit(node, r);
    match field_pos(n, "body") {
        Some(i) => ex_c_enumerators(em, &n.children[i].children, qn.as_str()),
        None => {
            proof { lemma_cat_none(em.out()); }
        },
    }
    proof {
        let tail = match field_index(n.children@, "body"@) {
            Some(i) => c_enumerators(n.children@[i].children@, qn@),
            None => no_out(),
        };
        lemma_cat_assoc(e0, head, tail);
    }
}

pub fn ex_c_typedef(em: &mut Emitted, n: &SyntaxNode, scope: &str, fields: bool)
    ensures
        final(em).out() == cat(old(em).out(), c_typedef(*n, scope@, fields)),
{
    let name = ex_find_ident(n, fields);
    if str_is_empty(name.as_str()) {
        proof { lemma_cat_none(old(em).out()); }
        return;
    }
    let qn = qual(scope, name.as_str());
    let mut props: Vec<(String, String)> = Vec::new();
    props.push(prop("typedef", "true"));
    assert(prop_views(props@) =~= seq![("typedef"@, "true"@)]);
    let node = mk_node("Constant", name.as_str(), qn.as_str(), line_of(n.start_row), line_of(n.end_row), "public", props);
    em.emit(node, mk_ref("Defines", scope, qn.as_str()));
}

pub fn ex_c_include(em: &mut Emitted, n: &SyntaxNode, scope: &str)
    ensures
        final(em).out() == cat(old(em).out(), c_include(*n, scope@)),
{
    let cleaned = ex_include_target(n.text.as_str());
    if str_is_empty(cleaned.as_str()) {
        proof { lemma_cat_none(old(em).out()); }
        return;
    }
    let cs = chars_of(cleaned.as_str());
    let name = string_from_chars(&ex_after_last(&cs, '/'));
    let mut key = chars_of("include:");
    append_chars(&mut key, &cs);
    let qn = qual(scope, string_from_chars(&key).as_str());
    let mut props: Vec<(String, String)> = Vec::new();
    props.push(prop("target", cleaned.as_str()));
    assert(prop_views(props@) =~= seq![("target"@, cleaned@)]);
    let node = mk_node("Import", name.as_str(), qn.as_str(), line_of(n.start_row), line_of(n.end_row), "public", props);
    em.emit(node, mk_ref("Imports", scope, cleaned.as_str()));
}

fn ex_c_call_here(em: &mut Emitted, n: &SyntaxNode, caller: &str, seq: u64) -> (k: u64)
    ensures
        final(em).out() == cat(old(em).out(), c_call_here(*n, caller@, seq).0),
        k == c_call_here(*n, caller@, seq).1,
{
    proof { lemma_cat_none(old(em).out()); }
    if !str_eq(n.kind.as_str(), "call_expression") {
        return seq;
    }
    let callee = exec_field_text(n, "function");
    let tail = ex_c_call_tail(callee.as_str());
    let tc = chars_of(tail.as_str());
    if tc.len() == 0 {
        return seq;
    }
    if !(char_is_alphabetic(tc[0]) || tc[0] == '_') {
        return seq;
    }
    let k = exec_bump(seq);
    let mut id = chars_of(caller);
    append_chars(&mut id, &chars_of("::call@"));
    push_decimal(&mut id, line_of(n.start_row));
    append_chars(&mut id, &chars_of(":"));
    push_decimal(&mut id, line_of(n.start_col));
    append_chars(&mut id, &chars_of("#"));
    push_decimal(&mut id, k);
    let ids = string_from_chars(&id);
    let mut props: Vec<(String, String)> = Vec::new();
    props.push(prop("callee_name", tail.as_str()));
    assert(prop_views(props@) =~= seq![("callee_name"@, tail@)]);
    let node = mk_node("CallSite", tail.as_str(), ids.as_str(), line_of(n.start_row), line_of(n.end_row), "public", props);
    em.emit(node, mk_ref("Calls", caller, tail.as_str()));
    k
}

/// Emits the calls under `n` (see `c_calls`) and returns the last number
/// given out.
pub fn ex_c_calls(em: &mut Emitted, n: &SyntaxNode, caller: &str, seq: u64) -> (k: u64)
    ensures
        final(em).out() == cat(old(em).out(), c_calls(*n, caller@, seq).0),
        k == c_calls(*n, caller@, seq).1,
    decreases n,
{
    let h = ex_c_call_here(em, n, caller, seq);
    let ghost base = em.out();
    let ghost total = c_calls_rev(n.children@, caller@, h);
    let mut cur = h;
    let mut i: usize = n.children.len();
    assert(n.children@.take(i as int) =~= n.children@);
    while i > 0
        invariant
            i <= n.children@.len(),
            total == c_calls_rev(n.children@, caller@, h),
            cat(em.out(), c_calls_rev(n.children@.take(i as int), caller@, cur).0) == cat(base, total.0),
            c_calls_rev(n.children@.take(i as int), caller@, cur).1 == total.1,
        decreases i,
    {
        i -= 1;
        let ghost before = em.out();
        let ghost before_seq = cur;
        cur = ex_c_calls(em, &n.children[i], caller, cur);
        proof {
            let t = n.children@.take(i + 1);
            assert(t.drop_last() =~= n.children@.take(i as int));
            assert(t.last() == n.children@[i as int]);
            let a = c_calls(n.children@[i as int], caller@, before_seq);
            lemma_cat_assoc(before, a.0, c_calls_rev(n.children@.take(i as int), caller@, a.1).0);
        }
    }
    proof {
        assert(n.children@.take(0) =~= Seq::<SyntaxNode>::empty());
        lemma_cat_none(em.out());
        lemma_cat_assoc(old(em).out(), c_call_here(*n, caller@, seq).0, total.0);
    }
    cur
}

/// Emits the calls in the `body` of `n`.
pub fn ex_c_body_calls(em: &mut Emitted, n: &SyntaxNode, caller: &str, seq: u64) -> (k: u64)
    ensures
        final(em).out() == cat(old(em).out(), c_body_calls(*n, caller@, seq).0),
        k == c_body_calls(*n, caller@, seq).1,
{
    match field_pos(n, "body") {
        Some(i) => ex_c_calls(em, &n.children[i], caller, seq),
        None => {
            proof { lemma_cat_none(em.out()); }
            seq
        },
    }
}

pub fn ex_declarator_name(n: &SyntaxNode, fields: bool) -> (r: String)
    ensures
        r@ == declarator_name(*n, fields),
{
    match field_pos(n, "declarator") {
        Some(i) => ex_find_ident(&n.children[i], fields),
        None => String::new(),
    }
}

/// `scope::name#k`.
pub fn numbered(scope: &str, name: &str, k: u64) -> (r: String)
    ensures
        r@ == spec_qual(scope@, name@) + "#"@ + decimal(k as nat),
{
    let mut q = chars_of(qual(scope, name).as_str());
    append_chars(&mut q, &chars_of("#"));
    push_decimal(&mut q, k);
    string_from_chars(&q)
}

fn ex_c_function(em: &mut Emitted, n: &SyntaxNode, scope: &str, seq: u64) -> (k: u64)
    ensures
        final(em).out() == cat(old(em).out(), c_function(*n, scope@, seq).0),
        k == c_function(*n, scope@, seq).1,
{
    let name = ex_declarator_name(n, false);
    if str_is_empty(name.as_str()) {
        proof { lemma_cat_none(old(em).out()); }
        return seq;
    }
    let k = exec_bump(seq);
    let qn = numbered(scope, name.as_str(), k);
    let props: Vec<(String, String)> = Vec::new();
    assert(prop_views(props@) =~= Seq::empty());
    let node = mk_node("Function", name.as_str(), qn.as_str(), line_of(n.start_row), line_of(n.end_row), "public", props);
    let ghost e0 = em.out();
    let ghost head = one(node_out(node), RefOut { kind: "Defines"@, from: scope@, to: qn@ });
    em.emit(node, mk_ref("Defines", scope, qn.as_str()));
    let r = ex_c_body_calls(em, n, qn.as_str(), k);
    proof {
        lemma_cat_assoc(e0, head, c_body_calls(*n, qn@, k).0);
    }
    r
}

fn ex_c_prototype(em: &mut Emitted, n: &SyntaxNode, scope: &str, seq: u64) -> (k: u64)
    ensures
        final(em).out() == cat(old(em).out(), c_prototype(*n, scope@, seq).0),
        k == c_prototype(*n, scope@, seq).1,
{
    let name = ex_find_ident(n, false);
    if str_is_empty(name.as_str()) {
        proof { lemma_cat_none(old(em).out()); }
        return seq;
    }
    let k = exec_bump(seq);
    let qn = numbered(scope, name.as_str(), k);
    let mut props: Vec<(String, String)> = Vec::new();
    props.push(prop("is_prototype", "true"));
    assert(prop_views(props@) =~= seq![("is_prototype"@, "true"@)]);
    let node = mk_node("Function", name.as_str(), qn.as_str(), line_of(n.start_row), line_of(n.end_row), "public", props);
    em.emit(node, mk_ref("Defines", scope, qn.as_str()));
    k
}

fn ex_c_item(em: &mut Emitted, n: &SyntaxNode, scope: &str, seq: u64) -> (k: u64)
    ensures
        final(em).out() == cat(old(em).out(), c_item(*n, scope@, seq).0),
        k == c_item(*n, scope@, seq).1,
    decreases n, 1int,
{
    let kd = n.kind.as_str();
    if str_eq(kd, "struct_specifier") || str_eq(kd, "union_specifier") {
        ex_c_struct(em, n, scope);
        seq
    } else if str_eq(kd, "enum_specifier") {
        ex_c_enum(em, n, scope);
        seq
    } else if str_eq(kd, "type_definition") {
        ex_c_typedef(em, n, scope, false);
        seq
    } else if str_eq(kd, "function_definition") {
        ex_c_function(em, n, scope, seq)
    } else if str_eq(kd, "preproc_include") {
        ex_c_include(em, n, scope);
        seq
    } else if str_eq(kd, "declaration") {
        if ex_is_prototype(n) {
            ex_c_prototype(em, n, scope, seq)
        } else {
            proof { lemma_cat_none(old(em).out()); }
            seq
        }
    } else if ex_has_named_child(n) {
        ex_c_items(em, &n.children, scope, seq)
    } else {
        proof { lemma_cat_none(old(em).out()); }
        seq
    }
}

fn ex_c_items(em: &mut Emitted, s: &Vec<SyntaxNode>, scope: &str, seq: u64) -> (k: u64)
    ensures
        final(em).out() == cat(old(em).out(), c_items(s@, scope@, seq).0),
        k == c_items(s@, scope@, seq).1,
    decreases s@, 0int,
{
    proof { lemma_cat_none(old(em).out()); }
    let mut cur = seq;
    let mut i: usize = 0;
    assert(s@.take(0) =~= Seq::<SyntaxNode>::empty());
    while i < s.len()
        invariant
            i <= s@.len(),
            em.out() == cat(old(em).out(), c_items(s@.take(i as int), scope@, seq).0),
            cur == c_items(s@.take(i as int), scope@, seq).1,
        decreases s@.len() - i,
    {
        let ghost before = em.out();
        proof {
            let t = s@.take(i + 1);
            assert(t.drop_last() =~= s@.take(i as int));
            assert(t.last() == s@[i as int]);
        }
        cur = ex_c_item(em, &s[i], scope, cur);
        proof {
            let p = c_items(s@.take(i as int), scope@, seq);
            lemma_cat_assoc(old(em).out(), p.0, c_item(s@[i as int], scope@, p.1).0);
        }
        i += 1;
    }
    assert(s@.take(s@.len() as int) =~= s@);
    cur
}

/// The symbols and references of one C file, read off its syntax tree.
pub fn extract_c(root: &SyntaxNode, file_path: &str) -> (r: ParseResult)
    ensures
        result_out(r) == c_file_out(*root, file_path@),
{
    let mut em = Emitted::new();
    let _ = ex_c_items(&mut em, &root.children, file_path, 0);
    proof { lemma_cat_none(c_items(root.children@, file_path@, 0).0); }
    ParseResult { nodes: em.nodes, refs: em.refs }
}

/// Parses one C source or header file and extracts its symbols and
/// relationships.
/// The symbols are those the grammar's tree yields; when no tree comes back
/// (the parse ran past its time limit), the error; when tree-sitter
/// refuses the grammar, its message after `failed to set … language: `.
pub fn parse_c_file(source: &str, file_path: &str) -> (r: Result<ParseResult, String>)
    ensures
        match r {
            Ok(p) => c_syntax(source@) matches Some(t) && result_out(p) == c_file_out(t, file_path@),
            Err(e) => e@ == NO_TREE@ || is_refusal("C "@, e@),
        },
{
    match parse_c_syntax(source) {
        Ok(Some(tree)) => Ok(extract_c(&tree, file_path)),
        Ok(None) => Err(to_owned_string(NO_TREE)),
        Err(detail) => Err(language_refused_message("C ", detail.as_str())),
    }
}


// ---------------------------------------------------------------------------
// Numbering
// ---------------------------------------------------------------------------

proof fn lemma_c_call_here(n: SyntaxNode, caller: Seq<char>, seq: u64)
    requires
        c_call_here(n, caller, seq).1 < u64::MAX,
    ensures
        seq <= c_call_here(n, caller, seq).1,
        numbered_in(c_call_here(n, caller, seq).0, seq as int, c_call_here(n, caller, seq).1 as int),
{
    let tail = c_call_tail(field_text(n, "function"@));
    if n.kind@ == "call_expression"@ && tail.len() > 0 && (unicode_is_alphabetic(tail[0]) || tail[0] == '_') {
        let k = bump(seq);
        let p = caller + "::call@"@ + decimal(spec_line(n.start_row) as nat) + ":"@ + decimal(spec_line(n.start_col) as nat);
        lemma_qn_number(p, k as nat);
    }
}

/// The calls under `n` carry the numbers after `seq`, rising.
pub proof fn lemma_c_calls(n: SyntaxNode, caller: Seq<char>, seq: u64)
    requires
        c_calls(n, caller, seq).1 < u64::MAX,
    ensures
        seq <= c_calls(n, caller, seq).1,
        numbered_in(c_calls(n, caller, seq).0, seq as int, c_calls(n, caller, seq).1 as int),
    decreases n,
{
    let h = c_call_here(n, caller, seq);
    lemma_c_calls_rev(n.children@, caller, h.1);
    lemma_c_call_here(n, caller, seq);
    let r = c_calls_rev(n.children@, caller, h.1);
    lemma_numbered_cat(h.0, r.0, seq as int, h.1 as int, r.1 as int);
}

proof fn lemma_c_calls_rev(s: Seq<SyntaxNode>, caller: Seq<char>, seq: u64)
    requires
        c_calls_rev(s, caller, seq).1 < u64::MAX,
    ensures
        seq <= c_calls_rev(s, caller, seq).1,
        numbered_in(c_calls_rev(s, caller, seq).0, seq as int, c_calls_rev(s, caller, seq).1 as int),
    decreases s,
{
    if s.len() > 0 {
        let a = c_calls(s.last(), caller, seq);
        lemma_c_calls_rev(s.drop_last(), caller, a.1);
        lemma_c_calls(s.last(), caller, seq);
        let b = c_calls_rev(s.drop_last(), caller, a.1);
        lemma_numbered_cat(a.0, b.0, seq as int, a.1 as int, b.1 as int);
    }
}

/// The same for the calls in the body of `n`.
pub proof fn lemma_c_body_calls(n: SyntaxNode, caller: Seq<char>, seq: u64)
    requires
        c_body_calls(n, caller, seq).1 < u64::MAX,
    ensures
        seq <= c_body_calls(n, caller, seq).1,
        numbered_in(c_body_calls(n, caller, seq).0, seq as int, c_body_calls(n, caller, seq).1 as int),
{
    match field_index(n.children@, "body"@) {
        Some(i) => { lemma_c_calls(n.children@[i], caller, seq); },
        None => { lemma_numbered_none(seq as int, seq as int); },
    }
}

proof fn lemma_c_enumerators_plain(s: Seq<SyntaxNode>, owner: Seq<char>)
    ensures
        plain(c_enumerators(s, owner)),
    decreases s.len(),
{
    lemma_unnumbered_labels();
    if s.len() > 0 {
        lemma_c_enumerators_plain(s.drop_last(), owner);
        lemma_plain_cat(c_enumerators(s.drop_last(), owner), c_enumerator(s.last(), owner));
    }
}

/// Typedefs and includes add no numbered symbol.
pub proof fn lemma_c_plain_items(n: SyntaxNode, scope: Seq<char>, fields: bool)
    ensures
        plain(c_typedef(n, scope, fields)),
        plain(c_include(n, scope)),
{
    lemma_unnumbered_labels();
}

proof fn lemma_c_function(n: SyntaxNode, scope: Seq<char>, seq: u64)
    requires
        c_function(n, scope, seq).1 < u64::MAX,
    ensures
        seq <= c_function(n, scope, seq).1,
        numbered_in(c_function(n, scope, seq).0, seq as int, c_function(n, scope, seq).1 as int),
{
    let name = declarator_name(n, false);
    if name.len() > 0 {
        let k = bump(seq);
        let qn = spec_qual(scope, name) + "#"@ + decimal(k as nat);
        lemma_c_body_calls(n, qn, k);
        lemma_qn_number(spec_qual(scope, name), k as nat);
        let calls = c_body_calls(n, qn, k);
        let head = one(NodeOut { label: "Function"@, name, qn, start: spec_line(n.start_row), end: spec_line(n.end_row),
                vis: "public"@, props: Seq::empty() }, rf("Defines"@, scope, qn));
        assert(numbered_in(head, seq as int, k as int));
        lemma_numbered_cat(head, calls.0, seq as int, k as int, calls.1 as int);
    }
}

proof fn lemma_c_item(n: SyntaxNode, scope: Seq<char>, seq: u64)
    requires
        c_item(n, scope, seq).1 < u64::MAX,
    ensures
        seq <= c_item(n, scope, seq).1,
        numbered_in(c_item(n, scope, seq).0, seq as int, c_item(n, scope, seq).1 as int),
    decreases n,
{
    lemma_unnumbered_labels();
    let k = n.kind@;
    let z = seq as int;
    if k == "struct_specifier"@ || k == "union_specifier"@ {
        lemma_plain_numbered(c_struct(n, scope), z, z);
    } else if k == "enum_specifier"@ {
        let name = name_or_ident(n, false);
        if name.len() > 0 {
            let qn = spec_qual(scope, name);
            let tail = match field_index(n.children@, "body"@) {
                Some(i) => c_enumerators(n.children@[i].children@, qn),
                None => no_out(),
            };
            match field_index(n.children@, "body"@) {
                Some(i) => { lemma_c_enumerators_plain(n.children@[i].children@, qn); },
                None => {},
            }
            lemma_plain_cat(one(NodeOut { label: "Enum"@, name, qn, start: spec_line(n.start_row), end: spec_line(n.end_row),
                    vis: "public"@, props: Seq::empty() }, rf("Defines"@, scope, qn)), tail);
        }
        lemma_plain_numbered(c_enum(n, scope), z, z);
    } else if k == "type_definition"@ {
        lemma_c_plain_items(n, scope, false);
        lemma_plain_numbered(c_typedef(n, scope, false), z, z);
    } else if k == "function_definition"@ {
        lemma_c_function(n, scope, seq);
    } else if k == "preproc_include"@ {
        lemma_c_plain_items(n, scope, false);
        lemma_plain_numbered(c_include(n, scope), z, z);
    } else if k == "declaration"@ {
        if is_prototype(n) {
            let name = find_ident(n, false);
            if name.len() > 0 {
                lemma_qn_number(spec_qual(scope, name), bump(seq) as nat);
            }
        }
    } else if has_named_child(n) {
        lemma_c_items(n.children@, scope, seq);
    }
}

proof fn lemma_c_items(s: Seq<SyntaxNode>, scope: Seq<char>, seq: u64)
    requires
        c_items(s, scope, seq).1 < u64::MAX,
    ensures
        seq <= c_items(s, scope, seq).1,
        numbered_in(c_items(s, scope, seq).0, seq as int, c_items(s, scope, seq).1 as int),
    decreases s,
{
    if s.len() > 0 {
        let p = c_items(s.drop_last(), scope, seq);
        lemma_c_item(s.last(), scope, p.1);
        lemma_c_items(s.drop_last(), scope, seq);
        let q = c_item(s.last(), scope, p.1);
        lemma_numbered_cat(p.0, q.0, seq as int, p.1 as int, q.1 as int);
    }
}

/// In what a C file yields, no two functions or call sites share a
/// qualified name, as long as the file numbers fewer than `u64::MAX` of
/// them.
pub proof fn lemma_c_numbered_names_distinct(root: SyntaxNode, file: Seq<char>)
    requires
        c_items(root.children@, file, 0).1 < u64::MAX,
    ensures
        numbered_names_distinct(c_file_out(root, file)),
{
    lemma_c_items(root.children@, file, 0);
    lemma_numbered_distinct(c_file_out(root, file), 0, c_items(root.children@, file, 0).1 as int);
}

} // verus!
