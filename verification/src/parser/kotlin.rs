//! The Kotlin front end: classes, interfaces, enums and objects with their
//! members, functions and methods, properties, enum entries, imports, and
//! calls. Only the node kinds named below are read, and only where they
//! stand directly in the file or in a class or object body. Functions,
//! methods and call sites share one numbering (`#n`).

use vstd::prelude::*;
use crate::text::{chars_of, str_eq, str_is_empty, to_owned_string, string_from_chars, slice_to_vec, chars_eq,
    seq_contains_seq, contains_seq, seq_ends_with, ends_with, unicode_is_alphabetic, char_is_alphabetic, trim,
    spec_trim, Sep, split_pieces, split_nonempty};
use crate::parser::{append_chars, qual, spec_qual, ParseResult};
use crate::parser::naming::{decimal, push_decimal};
use crate::parser::grammars::{parse_kotlin_syntax, kotlin_syntax};
use crate::parser::rust::{rf, result_out};
use crate::parser::go::{bump, exec_bump, strip_trailing, ex_strip_trailing, after_last, ex_after_last};
use crate::parser::c::numbered;
use crate::parser::cpp::{ref_only, opt_view, keyword_target, ex_keyword_target};
use crate::parser::numbering::{numbered_label, numbered_in, plain, numbered_names_distinct, lemma_qn_number,
    lemma_numbered_none, lemma_plain_numbered, lemma_plain_cat, lemma_unnumbered_labels, lemma_numbered_cat,
    lemma_numbered_distinct};
use crate::parser::syntax::{is_refusal, language_refused_message, SyntaxNode, Counted, Out, NodeOut, RefOut, Emitted, no_out, cat, one, spec_line, line_of,
    field_index, lemma_field_index, field_pos, field_text, exec_field_text, node_out, prop_views, lemma_cat_assoc,
    lemma_cat_none, prop, mk_node, mk_ref, NO_TREE};

verus! {

/// The label of a class-like declaration, decided by its first child that
/// is the keyword `interface` (a trait), the keyword `enum`, or a
/// `modifiers` node whose text contains `enum` (an enum); a struct when
/// none is.
pub open spec fn kt_classify(s: Seq<SyntaxNode>) -> Seq<char>
    decreases s.len(),
{
    if s.len() == 0 {
        "Struct"@
    } else if s[0].kind@ == "interface"@ {
        "Trait"@
    } else if s[0].kind@ == "enum"@ {
        "Enum"@
    } else if s[0].kind@ == "modifiers"@ && seq_contains_seq(s[0].text@, "enum"@) {
        "Enum"@
    } else {
        kt_classify(s.drop_first())
    }
}

/// `w` is one of the white-space-separated words of `t`.
pub open spec fn has_word(t: Seq<char>, w: Seq<char>) -> bool {
    split_pieces(t, Sep::Whitespace).contains(w)
}

/// The visibility word among the words of a modifier list, checked in the
/// order `public`, `private`, `protected`, `internal`.
pub open spec fn modifier_vis(t: Seq<char>) -> Option<Seq<char>> {
    if has_word(t, "public"@) {
        Some("public"@)
    } else if has_word(t, "private"@) {
        Some("private"@)
    } else if has_word(t, "protected"@) {
        Some("protected"@)
    } else if has_word(t, "internal"@) {
        Some("internal"@)
    } else {
        None
    }
}

/// The visibility of a declaration: that of its first `modifiers` child
/// that names one; `public` (Kotlin's default) when none does.
pub open spec fn kt_vis(s: Seq<SyntaxNode>) -> Seq<char>
    decreases s.len(),
{
    if s.len() == 0 {
        "public"@
    } else if s[0].kind@ == "modifiers"@ && modifier_vis(s[0].text@) is Some {
        modifier_vis(s[0].text@)->0
    } else {
        kt_vis(s.drop_first())
    }
}

/// The text of the first child of kind `simple_identifier` or
/// `identifier`, or the empty string.
pub open spec fn first_identifier(s: Seq<SyntaxNode>) -> Seq<char>
    decreases s.len(),
{
    if s.len() == 0 {
        Seq::empty()
    } else if s[0].kind@ == "simple_identifier"@ || s[0].kind@ == "identifier"@ {
        s[0].text@
    } else {
        first_identifier(s.drop_first())
    }
}

/// The `name` field's text, or else the first identifier child.
pub open spec fn kt_name(n: SyntaxNode) -> Seq<char> {
    let f = field_text(n, "name"@);
    if f.len() > 0 { f } else { first_identifier(n.children@) }
}

/// The pieces of `t` between commas, empty ones included (one more piece
/// than there are commas).
pub open spec fn comma_pieces(t: Seq<char>) -> Seq<Seq<char>>
    decreases t.len(),
{
    if t.len() == 0 {
        seq![Seq::empty()]
    } else {
        let p = comma_pieces(t.drop_last());
        if t.last() == ',' { p.push(Seq::empty()) } else { p.update(p.len() - 1, p.last().push(t.last())) }
    }
}

/// `s` with every trailing `p` removed.
pub open spec fn strip_suffix_all(s: Seq<char>, p: Seq<char>) -> Seq<char>
    decreases s.len(),
{
    if p.len() > 0 && seq_ends_with(s, p) { strip_suffix_all(s.take(s.len() - p.len()), p) } else { s }
}

/// A supertype's name: the trimmed piece without its trailing `()`s.
pub open spec fn super_name(piece: Seq<char>) -> Seq<char> {
    strip_suffix_all(spec_trim(piece), "()"@)
}

/// One `Extends` reference per non-empty supertype name.
pub open spec fn kt_supers(ps: Seq<Seq<char>>, qn: Seq<char>) -> Out
    decreases ps.len(),
{
    if ps.len() == 0 {
        no_out()
    } else {
        let t = super_name(ps.last());
        cat(kt_supers(ps.drop_last(), qn), if t.len() > 0 { ref_only(rf("Extends"@, qn, t)) } else { no_out() })
    }
}

/// The supertypes of a class, read off its `delegation_specifiers` field.
pub open spec fn kt_extends(n: SyntaxNode, qn: Seq<char>) -> Out {
    match field_index(n.children@, "delegation_specifiers"@) {
        Some(i) => kt_supers(comma_pieces(n.children@[i].text@), qn),
        None => no_out(),
    }
}

/// The index of the first child of kind `class_body` or `object_body`.
pub open spec fn body_kind_index(s: Seq<SyntaxNode>) -> Option<int>
    decreases s.len(),
{
    if s.len() == 0 {
        None
    } else {
        match body_kind_index(s.drop_last()) {
            Some(i) => Some(i),
            None => if s.last().kind@ == "class_body"@ || s.last().kind@ == "object_body"@ { Some(s.len() - 1) } else { None },
        }
    }
}

/// The body of a class: its `body` field, or else its first class or
/// object body child.
pub open spec fn kt_body_index(n: SyntaxNode) -> Option<int> {
    match field_index(n.children@, "body"@) {
        Some(i) => Some(i),
        None => body_kind_index(n.children@),
    }
}

/// The callee text of a call: its `callee` field, or else its first child.
pub open spec fn kt_callee(n: SyntaxNode) -> Seq<char> {
    match field_index(n.children@, "callee"@) {
        Some(i) => n.children@[i].text@,
        None => if n.children@.len() > 0 { n.children@[0].text@ } else { Seq::empty() },
    }
}

/// The callee name of a call: the last `.` segment without trailing `(`.
pub open spec fn kt_call_tail(callee: Seq<char>) -> Seq<char> {
    strip_trailing(after_last(callee, '.'), '(')
}

/// The CallSite and `Calls` reference a call expression yields, when its
/// callee name starts with a letter or `_`.
pub open spec fn kt_call_here(n: SyntaxNode, caller: Seq<char>, seq: u64) -> Counted {
    let tail = kt_call_tail(kt_callee(n));
    if n.kind@ == "call_expression"@ && tail.len() > 0 && (unicode_is_alphabetic(tail[0]) || tail[0] == '_') {
        let k = bump(seq);
        let id = caller + "::call@"@ + decimal(spec_line(n.start_row) as nat) + ":"@ + decimal(spec_line(n.start_col) as nat)
            + "#"@ + decimal(k as nat);
        (one(NodeOut { label: "CallSite"@, name: tail, qn: id, start: spec_line(n.start_row), end: spec_line(n.end_row),
                vis: "public"@, props: seq![("callee_name"@, tail)] },
            rf("Calls"@, caller, tail)), k)
    } else {
        (no_out(), seq)
    }
}

/// The calls under `n`, depth first (children last to first), numbered
/// from `seq` on.
pub open spec fn kt_calls(n: SyntaxNode, caller: Seq<char>, seq: u64) -> Counted
    decreases n,
{
    let h = kt_call_here(n, caller, seq);
    let r = kt_calls_rev(n.children@, caller, h.1);
    (cat(h.0, r.0), r.1)
}

pub open spec fn kt_calls_rev(s: Seq<SyntaxNode>, caller: Seq<char>, seq: u64) -> Counted
    decreases s,
{
    if s.len() == 0 {
        (no_out(), seq)
    } else {
        let a = kt_calls(s.last(), caller, seq);
        let b = kt_calls_rev(s.drop_last(), caller, a.1);
        (cat(a.0, b.0), b.1)
    }
}

/// The properties of a function: its receiver type inside a class, and the
/// text of its `receiver` field when it has one.
pub open spec fn kt_fn_props(n: SyntaxNode, enc: Option<Seq<char>>) -> Seq<(Seq<char>, Seq<char>)> {
    let a = match enc {
        Some(r) => seq![("receiver_type"@, r)],
        None => Seq::empty(),
    };
    match field_index(n.children@, "receiver"@) {
        Some(i) => a.push(("extension_receiver"@, n.children@[i].text@)),
        None => a,
    }
}

/// A function (a method inside a class or object), numbered, with the
/// calls of its `body` field, or of the whole declaration when it has none.
pub open spec fn kt_function(n: SyntaxNode, scope: Seq<char>, enc: Option<Seq<char>>, seq: u64) -> Counted {
    let name = kt_name(n);
    if name.len() == 0 {
        (no_out(), seq)
    } else {
        let k = bump(seq);
        let qn = spec_qual(scope, name) + "#"@ + decimal(k as nat);
        let node = NodeOut { label: if enc is Some { "Method"@ } else { "Function"@ }, name, qn,
            start: spec_line(n.start_row), end: spec_line(n.end_row), vis: kt_vis(n.children@),
            props: kt_fn_props(n, enc) };
        let calls = match field_index(n.children@, "body"@) {
            Some(i) => kt_calls(n.children@[i], qn, k),
            None => kt_calls(n, qn, k),
        };
        (cat(one(node, rf(if enc is Some { "HasMethod"@ } else { "Defines"@ }, scope, qn)), calls.0), calls.1)
    }
}

/// A property, as a constant named by its first identifier child.
pub open spec fn kt_property(n: SyntaxNode, scope: Seq<char>) -> Out {
    let name = first_identifier(n.children@);
    if name.len() == 0 {
        no_out()
    } else {
        let qn = spec_qual(scope, name);
        one(NodeOut { label: "Constant"@, name, qn, start: spec_line(n.start_row), end: spec_line(n.end_row),
                vis: kt_vis(n.children@), props: Seq::empty() },
            rf("Defines"@, scope, qn))
    }
}

/// An import header: an Import named by the last `.` segment without a
/// trailing `*`.
pub open spec fn kt_import(n: SyntaxNode, scope: Seq<char>) -> Out {
    let cleaned = keyword_target(n.text@, "import"@);
    if cleaned.len() == 0 {
        no_out()
    } else {
        one(NodeOut { label: "Import"@, name: strip_trailing(after_last(cleaned, '.'), '*'),
                qn: spec_qual(scope, "import:"@ + cleaned), start: spec_line(n.start_row), end: spec_line(n.end_row),
                vis: "public"@, props: seq![("target"@, cleaned)] },
            rf("Imports"@, scope, cleaned))
    }
}

/// An enum entry, as a constant of the enclosing scope.
pub open spec fn kt_enum_entry(n: SyntaxNode, scope: Seq<char>) -> Out {
    let f = field_text(n, "simple_identifier"@);
    let name = if f.len() > 0 { f } else { first_identifier(n.children@) };
    if name.len() == 0 {
        no_out()
    } else {
        let qn = spec_qual(scope, name);
        one(NodeOut { label: "Constant"@, name, qn, start: spec_line(n.start_row), end: spec_line(n.end_row),
                vis: "public"@, props: seq![("enum_entry"@, "true"@)] },
            rf("Defines"@, scope, qn))
    }
}

/// A class, interface, enum or object, its supertypes, and the members of
/// its body.
pub open spec fn kt_class(n: SyntaxNode, scope: Seq<char>, seq: u64) -> Counted
    decreases n, 1int,
{
    let name = kt_name(n);
    if name.len() == 0 {
        (no_out(), seq)
    } else {
        let qn = spec_qual(scope, name);
        let head = cat(one(NodeOut { label: kt_classify(n.children@), name, qn, start: spec_line(n.start_row),
                    end: spec_line(n.end_row), vis: kt_vis(n.children@), props: Seq::empty() },
                rf("Defines"@, scope, qn)), kt_extends(n, qn));
        match kt_body_index(n) {
            Some(i) => {
                proof { lemma_kt_body_index(n); }
                let b = kt_items(n.children@[i].children@, qn, Some(qn), seq);
                (cat(head, b.0), b.1)
            },
            None => (head, seq),
        }
    }
}

/// What one node yields in `scope` with enclosing type `enc`.
pub open spec fn kt_item(n: SyntaxNode, scope: Seq<char>, enc: Option<Seq<char>>, seq: u64) -> Counted
    decreases n, 2int,
{
    let k = n.kind@;
    if k == "class_declaration"@ || k == "object_declaration"@ {
        kt_class(n, scope, seq)
    } else if k == "function_declaration"@ {
        kt_function(n, scope, enc, seq)
    } else if k == "property_declaration"@ {
        (kt_property(n, scope), seq)
    } else if k == "import_header"@ {
        (kt_import(n, scope), seq)
    } else if k == "enum_entry"@ {
        (kt_enum_entry(n, scope), seq)
    } else if k == "class_body"@ || k == "object_body"@ {
        kt_items(n.children@, scope, enc, seq)
    } else {
        (no_out(), seq)
    }
}

pub open spec fn kt_items(s: Seq<SyntaxNode>, scope: Seq<char>, enc: Option<Seq<char>>, seq: u64) -> Counted
    decreases s, 0int,
{
    if s.len() == 0 {
        (no_out(), seq)
    } else {
        let p = kt_items(s.drop_last(), scope, enc, seq);
        let q = kt_item(s.last(), scope, enc, p.1);
        (cat(p.0, q.0), q.1)
    }
}

/// What a whole file yields.
pub open spec fn kotlin_file_out(root: SyntaxNode, file: Seq<char>) -> Out {
    kt_items(root.children@, file, None, 0).0
}

pub proof fn lemma_body_kind_index(s: Seq<SyntaxNode>)
    ensures
        match body_kind_index(s) {
            Some(i) => 0 <= i < s.len() && (s[i].kind@ == "class_body"@ || s[i].kind@ == "object_body"@)
                && forall|j: int| 0 <= j < i ==> !((#[trigger] s[j]).kind@ == "class_body"@ || s[j].kind@ == "object_body"@),
            None => forall|j: int| 0 <= j < s.len() ==> !((#[trigger] s[j]).kind@ == "class_body"@ || s[j].kind@ == "object_body"@),
        },
    decreases s.len(),
{
    if s.len() > 0 {
        let p = s.drop_last();
        lemma_body_kind_index(p);
        assert forall|j: int| 0 <= j < p.len() implies p[j] == s[j] by {}
    }
}

pub proof fn lemma_kt_body_index(n: SyntaxNode)
    ensures
        match kt_body_index(n) {
            Some(i) => 0 <= i < n.children@.len(),
            None => true,
        },
{
    lemma_field_index(n.children@, "body"@);
    lemma_body_kind_index(n.children@);
}

proof fn lemma_comma_pieces_len(t: Seq<char>)
    ensures
        comma_pieces(t).len() >= 1,
    decreases t.len(),
{
    if t.len() > 0 {
        lemma_comma_pieces_len(t.drop_last());
    }
}

// ---------------------------------------------------------------------------
// Extraction
// ---------------------------------------------------------------------------

fn ex_kt_classify(s: &Vec<SyntaxNode>) -> (r: &'static str)
    ensures
        r@ == kt_classify(s@),
{
    let mut i: usize = 0;
    assert(s@.skip(0) =~= s@);
    while i < s.len()
        invariant
            i <= s@.len(),
            kt_classify(s@) == kt_classify(s@.skip(i as int)),
        decreases s@.len() - i,
    {
        let c = &s[i];
        proof {
            assert(s@.skip(i as int)[0] == s@[i as int]);
            assert(s@.skip(i as int).drop_first() =~= s@.skip(i + 1));
        }
        if str_eq(c.kind.as_str(), "interface") {
            return "Trait";
        }
        if str_eq(c.kind.as_str(), "enum") {
            return "Enum";
        }
        if str_eq(c.kind.as_str(), "modifiers") && contains_seq(&chars_of(c.text.as_str()), &chars_of("enum")) {
            return "Enum";
        }
        i += 1;
    }
    assert(s@.skip(i as int) =~= Seq::<SyntaxNode>::empty());
    "Struct"
}

fn ex_has_word(t: &str, w: &str) -> (r: bool)
    ensures
        r == has_word(t@, w@),
{
    let words = split_nonempty(&chars_of(t), Sep::Whitespace);
    let wc = chars_of(w);
    let mut i: usize = 0;
    while i < words.len()
        invariant
            i <= words@.len(),
            wc@ == w@,
            words@.len() == split_pieces(t@, Sep::Whitespace).len(),
            forall|j: int| 0 <= j < words@.len() ==> (#[trigger] words@[j])@ == split_pieces(t@, Sep::Whitespace)[j],
            forall|j: int| 0 <= j < i ==> split_pieces(t@, Sep::Whitespace)[j] != w@,
        decreases words@.len() - i,
    {
        let ghost wi = words@[i as int]@;
        assert(wi == split_pieces(t@, Sep::Whitespace)[i as int]);
        let eq = chars_eq(words[i].as_slice(), wc.as_slice());
        if eq {
            assert(split_pieces(t@, Sep::Whitespace)[i as int] == w@);
            return true;
        }
        i += 1;
    }
    false
}

fn ex_modifier_vis(t: &str) -> (r: Option<&'static str>)
    ensures
        opt_view(r) == modifier_vis(t@),
{
    if ex_has_word(t, "public") {
        Some("public")
    } else if ex_has_word(t, "private") {
        Some("private")
    } else if ex_has_word(t, "protected") {
        Some("protected")
    } else if ex_has_word(t, "internal") {
        Some("internal")
    } else {
        None
    }
}

fn ex_kt_vis(s: &Vec<SyntaxNode>) -> (r: &'static str)
    ensures
        r@ == kt_vis(s@),
{
    let mut i: usize = 0;
    assert(s@.skip(0) =~= s@);
    while i < s.len()
        invariant
            i <= s@.len(),
            kt_vis(s@) == kt_vis(s@.skip(i as int)),
        decreases s@.len() - i,
    {
        let c = &s[i];
        proof {
            assert(s@.skip(i as int)[0] == s@[i as int]);
            assert(s@.skip(i as int).drop_first() =~= s@.skip(i + 1));
        }
        if str_eq(c.kind.as_str(), "modifiers") {
            match ex_modifier_vis(c.text.as_str()) {
                Some(v) => {
                    return v;
                },
                None => {},
            }
        }
        i += 1;
    }
    assert(s@.skip(i as int) =~= Seq::<SyntaxNode>::empty());
    "public"
}

fn ex_first_identifier(s: &Vec<SyntaxNode>) -> (r: String)
    ensures
        r@ == first_identifier(s@),
{
    let mut i: usize = 0;
    assert(s@.skip(0) =~= s@);
    while i < s.len()
        invariant
            i <= s@.len(),
            first_identifier(s@) == first_identifier(s@.skip(i as int)),
        decreases s@.len() - i,
    {
        let c = &s[i];
        proof {
            assert(s@.skip(i as int)[0] == s@[i as int]);
            assert(s@.skip(i as int).drop_first() =~= s@.skip(i + 1));
        }
        if str_eq(c.kind.as_str(), "simple_identifier") || str_eq(c.kind.as_str(), "identifier") {
            return to_owned_string(c.text.as_str());
        }
        i += 1;
    }
    assert(s@.skip(i as int) =~= Seq::<SyntaxNode>::empty());
    String::new()
}

fn ex_kt_name(n: &SyntaxNode) -> (r: String)
    ensures
        r@ == kt_name(*n),
{
    let f = exec_field_text(n, "name");
    if !str_is_empty(f.as_str()) { f } else { ex_first_identifier(&n.children) }
}

fn ex_strip_suffix_all(v: Vec<char>, p: &Vec<char>) -> (r: Vec<char>)
    ensures
        r@ == strip_suffix_all(v@, p@),
{
    let mut cur = v;
    while p.len() > 0 && ends_with(&cur, p)
        invariant
            strip_suffix_all(cur@, p@) == strip_suffix_all(v@, p@),
        decreases cur@.len(),
    {
        let next = slice_to_vec(&cur, 0, cur.len() - p.len());
        assert(next@ =~= cur@.take(cur@.len() - p@.len()));
        cur = next;
    }
    cur
}

fn ex_super_name(piece: &str) -> (r: String)
    ensures
        r@ == super_name(piece@),
{
    let t = trim(piece);
    let a = ex_strip_suffix_all(chars_of(t.as_str()), &chars_of("()"));
    string_from_chars(&a)
}

fn ex_kt_super(em: &mut Emitted, piece: &[char], qn: &str)
    ensures
        final(em).out() == cat(old(em).out(), if super_name(piece@).len() > 0 {
            ref_only(rf("Extends"@, qn@, super_name(piece@)))
        } else {
            no_out()
        }),
{
    let t = ex_super_name(string_from_chars(piece).as_str());
    if !str_is_empty(t.as_str()) {
        em.emit_ref(mk_ref("Extends", qn, t.as_str()));
    } else {
        proof { lemma_cat_none(old(em).out()); }
    }
}

fn ex_kt_extends(em: &mut Emitted, n: &SyntaxNode, qn: &str)
    ensures
        final(em).out() == cat(old(em).out(), kt_extends(*n, qn@)),
{
    let i = match field_pos(n, "delegation_specifiers") {
        Some(i) => i,
        None => {
            proof { lemma_cat_none(old(em).out()); }
            return;
        },
    };
    let t = chars_of(n.children[i].text.as_str());
    let ghost ps = comma_pieces(t@);
    let mut start: usize = 0;
    let mut j: usize = 0;
    proof {
        assert(t@.take(0) =~= Seq::<char>::empty());
        assert(t@.subrange(0, 0) =~= Seq::<char>::empty());
        lemma_cat_none(old(em).out());
    }
    while j < t.len()
        invariant
            start <= j <= t@.len(),
            comma_pieces(t@.take(j as int)).len() >= 1,
            comma_pieces(t@.take(j as int)).last() == t@.subrange(start as int, j as int),
            em.out() == cat(old(em).out(), kt_supers(comma_pieces(t@.take(j as int)).drop_last(), qn@)),
        decreases t@.len() - j,
    {
        let ghost p = comma_pieces(t@.take(j as int));
        proof {
            let u = t@.take(j + 1);
            assert(u.drop_last() =~= t@.take(j as int));
            assert(u.last() == t@[j as int]);
        }
        if t[j] == ',' {
            let ghost before = em.out();
            let piece = slice_to_vec(&t, start, j);
            ex_kt_super(em, &piece, qn);
            proof {
                let q = comma_pieces(t@.take(j + 1));
                assert(q == p.push(Seq::<char>::empty()));
                assert(q.drop_last() =~= p);
                assert(p.drop_last().push(p.last()) =~= p);
                let tt = super_name(p.last());
                lemma_cat_assoc(old(em).out(), kt_supers(p.drop_last(), qn@),
                    if tt.len() > 0 { ref_only(rf("Extends"@, qn@, tt)) } else { no_out() });
                assert(t@.subrange(j + 1, j + 1) =~= Seq::<char>::empty());
            }
            start = j + 1;
        } else {
            proof {
                let q = comma_pieces(t@.take(j + 1));
                assert(q == p.update(p.len() - 1, p.last().push(t@[j as int])));
                assert(q.drop_last() =~= p.drop_last());
                assert(t@.subrange(start as int, j + 1) =~= t@.subrange(start as int, j as int).push(t@[j as int]));
            }
        }
        j += 1;
    }
    proof {
        assert(t@.take(t@.len() as int) =~= t@);
    }
    let ghost before = em.out();
    let last = slice_to_vec(&t, start, t.len());
    ex_kt_super(em, &last, qn);
    proof {
        let p = comma_pieces(t@);
        assert(p.drop_last().push(p.last()) =~= p);
        let tt = super_name(p.last());
        assert(p.drop_last() == p.drop_last().push(p.last()).drop_last());
        lemma_cat_assoc(old(em).out(), kt_supers(p.drop_last(), qn@),
            if tt.len() > 0 { ref_only(rf("Extends"@, qn@, tt)) } else { no_out() });
    }
}

fn ex_kt_body_index(n: &SyntaxNode) -> (r: Option<usize>)
    ensures
        match r {
            Some(i) => kt_body_index(*n) == Some(i as int) && i < n.children@.len(),
            None => kt_body_index(*n) is None,
        },
{
    match field_pos(n, "body") {
        Some(i) => { return Some(i); },
        None => {},
    }
    let mut i: usize = 0;
    while i < n.children.len()
        invariant
            i <= n.children@.len(),
            field_index(n.children@, "body"@) is None,
            body_kind_index(n.children@.take(i as int)) is None,
        decreases n.children@.len() - i,
    {
        proof {
            assert(n.children@.take(i + 1).drop_last() =~= n.children@.take(i as int));
        }
        if str_eq(n.children[i].kind.as_str(), "class_body") || str_eq(n.children[i].kind.as_str(), "object_body") {
            proof {
                lemma_body_kind_index(n.children@.take(i as int));
                lemma_body_kind_index(n.children@);
                match body_kind_index(n.children@) {
                    Some(j) => {
                        if j < i {
                            assert(n.children@.take(i as int)[j] == n.children@[j]);
                        }
                    },
                    None => {},
                }
            }
            return Some(i);
        }
        i += 1;
    }
    assert(n.children@.take(i as int) =~= n.children@);
    None
}

fn ex_kt_callee(n: &SyntaxNode) -> (r: String)
    ensures
        r@ == kt_callee(*n),
{
    match field_pos(n, "callee") {
        Some(i) => to_owned_string(n.children[i].text.as_str()),
        None => if n.children.len() > 0 { to_owned_string(n.children[0].text.as_str()) } else { String::new() },
    }
}

fn ex_kt_call_here(em: &mut Emitted, n: &SyntaxNode, caller: &str, seq: u64) -> (k: u64)
    ensures
        final(em).out() == cat(old(em).out(), kt_call_here(*n, caller@, seq).0),
        k == kt_call_here(*n, caller@, seq).1,
{
    proof { lemma_cat_none(old(em).out()); }
    if !str_eq(n.kind.as_str(), "call_expression") {
        return seq;
    }
    let callee = ex_kt_callee(n);
    let a = ex_after_last(&chars_of(callee.as_str()), '.');
    let tc = ex_strip_trailing(a, '(');
    if tc.len() == 0 {
        return seq;
    }
    if !(char_is_alphabetic(tc[0]) || tc[0] == '_') {
        return seq;
    }
    let tail = string_from_chars(&tc);
    let k = exec_bump(seq);
    let mut id = chars_of(caller);
    append_chars(&mut id, &chars_of("::call@"));
    push_decimal(&mut id, line_of(n.start_row));
    append_chars(&mut id, &chars_of(":"));
    push_decimal(&mut id, line_of(n.start_col));
    append_chars(&mut id, &chars_of("#"));
    push_decimal(&mut id, k);
    let ids = string_from_chars(&id);
    let mut props: Vec<(String, String)> = Vec::new();
    props.push(prop("callee_name", tail.as_str()));
    assert(prop_views(props@) =~= seq![("callee_name"@, tail@)]);
    let node = mk_node("CallSite", tail.as_str(), ids.as_str(), line_of(n.start_row), line_of(n.end_row), "public", props);
    em.emit(node, mk_ref("Calls", caller, tail.as_str()));
    k
}

fn ex_kt_calls(em: &mut Emitted, n: &SyntaxNode, caller: &str, seq: u64) -> (k: u64)
    ensures
        final(em).out() == cat(old(em).out(), kt_calls(*n, caller@, seq).0),
        k == kt_calls(*n, caller@, seq).1,
    decreases n,
{
    let h = ex_kt_call_here(em, n, caller, seq);
    let ghost base = em.out();
    let ghost total = kt_calls_rev(n.children@, caller@, h);
    let mut cur = h;
    let mut i: usize = n.children.len();
    assert(n.children@.take(i as int) =~= n.children@);
    while i > 0
        invariant
            i <= n.children@.len(),
            total == kt_calls_rev(n.children@, caller@, h),
            cat(em.out(), kt_calls_rev(n.children@.take(i as int), caller@, cur).0) == cat(base, total.0),
            kt_calls_rev(n.children@.take(i as int), caller@, cur).1 == total.1,
        decreases i,
    {
        i -= 1;
        let ghost before = em.out();
        let ghost before_seq = cur;
        cur = ex_kt_calls(em, &n.children[i], caller, cur);
        proof {
            let t = n.children@.take(i + 1);
            assert(t.drop_last() =~= n.children@.take(i as int));
            assert(t.last() == n.children@[i as int]);
            let a = kt_calls(n.children@[i as int], caller@, before_seq);
            lemma_cat_assoc(before, a.0, kt_calls_rev(n.children@.take(i as int), caller@, a.1).0);
        }
    }
    proof {
        assert(n.children@.take(0) =~= Seq::<SyntaxNode>::empty());
        lemma_cat_none(em.out());
        lemma_cat_assoc(old(em).out(), kt_call_here(*n, caller@, seq).0, total.0);
    }
    cur
}

fn ex_kt_function(em: &mut Emitted, n: &SyntaxNode, scope: &str, enc: Option<&str>, seq: u64) -> (k: u64)
    ensures
        final(em).out() == cat(old(em).out(), kt_function(*n, scope@, opt_view(enc), seq).0),
        k == kt_function(*n, scope@, opt_view(enc), seq).1,
{
    let name = ex_kt_name(n);
    if str_is_empty(name.as_str()) {
        proof { lemma_cat_none(old(em).out()); }
        return seq;
    }
    let k = exec_bump(seq);
    let qn = numbered(scope, name.as_str(), k);
    let mut props: Vec<(String, String)> = Vec::new();
    let (label, kind) = match enc {
        Some(r) => {
            props.push(prop("receiver_type", r));
            ("Method", "HasMethod")
        },
        None => ("Function", "Defines"),
    };
    let ghost a = prop_views(props@);
    assert(a =~= match opt_view(enc) { Some(r) => seq![("receiver_type"@, r)], None => Seq::empty() });
    match field_pos(n, "receiver") {
        Some(i) => {
            props.push(prop("extension_receiver", n.children[i].text.as_str()));
            assert(prop_views(props@) =~= a.push(("extension_receiver"@, n.children@[i as int].text@)));
        },
        None => {},
    }
    assert(prop_views(props@) == kt_fn_props(*n, opt_view(enc)));
    let vis = ex_kt_vis(&n.children);
    let node = mk_node(label, name.as_str(), qn.as_str(), line_of(n.start_row), line_of(n.end_row), vis, props);
    let ghost e0 = em.out();
    let ghost head = one(node_out(node), RefOut { kind: kind@, from: scope@, to: qn@ });
    em.emit(node, mk_ref(kind, scope, qn.as_str()));
    let r = match field_pos(n, "body") {
        Some(i) => ex_kt_calls(em, &n.children[i], qn.as_str(), k),
        None => ex_kt_calls(em, n, qn.as_str(), k),
    };
    proof {
        let calls = match field_index(n.children@, "body"@) {
            Some(i) => kt_calls(n.children@[i], qn@, k),
            None => kt_calls(*n, qn@, k),
        };
        lemma_cat_assoc(e0, head, calls.0);
    }
    r
}

fn ex_kt_property(em: &mut Emitted, n: &SyntaxNode, scope: &str)
    ensures
        final(em).out() == cat(old(em).out(), kt_property(*n, scope@)),
{
    let name = ex_first_identifier(&n.children);
    if str_is_empty(name.as_str()) {
        proof { lemma_cat_none(old(em).out()); }
        return;
    }
    let qn = qual(scope, name.as_str());
    let props: Vec<(String, String)> = Vec::new();
    assert(prop_views(props@) =~= Seq::empty());
    let vis = ex_kt_vis(&n.children);
    let node = mk_node("Constant", name.as_str(), qn.as_str(), line_of(n.start_row), line_of(n.end_row), vis, props);
    em.emit(node, mk_ref("Defines", scope, qn.as_str()));
}

fn ex_kt_import(em: &mut Emitted, n: &SyntaxNode, scope: &str)
    ensures
        final(em).out() == cat(old(em).out(), kt_import(*n, scope@)),
{
    let cleaned = ex_keyword_target(n.text.as_str(), "import");
    if str_is_empty(cleaned.as_str()) {
        proof { lemma_cat_none(old(em).out()); }
        return;
    }
    let cs = chars_of(cleaned.as_str());
    let name = string_from_chars(&ex_strip_trailing(ex_after_last(&cs, '.'), '*'));
    let mut key = chars_of("import:");
    append_chars(&mut key, &cs);
    let qn = qual(scope, string_from_chars(&key).as_str());
    let mut props: Vec<(String, String)> = Vec::new();
    props.push(prop("target", cleaned.as_str()));
    assert(prop_views(props@) =~= seq![("target"@, cleaned@)]);
    let node = mk_node("Import", name.as_str(), qn.as_str(), line_of(n.start_row), line_of(n.end_row), "public", props);
    em.emit(node, mk_ref("Imports", scope, cleaned.as_str()));
}

fn ex_kt_enum_entry(em: &mut Emitted, n: &SyntaxNode, scope: &str)
    ensures
        final(em).out() == cat(old(em).out(), kt_enum_entry(*n, scope@)),
{
    let f = exec_field_text(n, "simple_identifier");
    let name = if !str_is_empty(f.as_str()) { f } else { ex_first_identifier(&n.children) };
    if str_is_empty(name.as_str()) {
        proof { lemma_cat_none(old(em).out()); }
        return;
    }
    let qn = qual(scope, name.as_str());
    let mut props: Vec<(String, String)> = Vec::new();
    props.push(prop("enum_entry", "true"));
    assert(prop_views(props@) =~= seq![("enum_entry"@, "true"@)]);
    let node = mk_node("Constant", name.as_str(), qn.as_str(), line_of(n.start_row), line_of(n.end_row), "public", props);
    em.emit(node, mk_ref("Defines", scope, qn.as_str()));
}

fn ex_kt_class(em: &mut Emitted, n: &SyntaxNode, scope: &str, seq: u64) -> (k: u64)
    ensures
        final(em).out() == cat(old(em).out(), kt_class(*n, scope@, seq).0),
        k == kt_class(*n, scope@, seq).1,
    decreases n, 1int,
{
    let name = ex_kt_name(n);
    if str_is_empty(name.as_str()) {
        proof { lemma_cat_none(old(em).out()); }
        return seq;
    }
    let qn = qual(scope, name.as_str());
    let props: Vec<(String, String)> = Vec::new();
    assert(prop_views(props@) =~= Seq::empty());
    let label = ex_kt_classify(&n.children);
    let vis = ex_kt_vis(&n.children);
    let node = mk_node(label, name.as_str(), qn.as_str(), line_of(n.start_row), line_of(n.end_row), vis, props);
    let ghost e0 = em.out();
    let ghost h1 = one(node_out(node), RefOut { kind: "Defines"@, from: scope@, to: qn@ });
    em.emit(node, mk_ref("Defines", scope, qn.as_str()));
    ex_kt_extends(em, n, qn.as_str());
    proof { lemma_cat_assoc(e0, h1, kt_extends(*n, qn@)); }
    match ex_kt_body_index(n) {
        Some(i) => {
            let r = ex_kt_items(em, &n.children[i].children, qn.as_str(), Some(qn.as_str()), seq);
            proof {
                lemma_cat_assoc(e0, cat(h1, kt_extends(*n, qn@)),
                    kt_items(n.children@[i as int].children@, qn@, Some(qn@), seq).0);
            }
            r
        },
        None => seq,
    }
}

fn ex_kt_item(em: &mut Emitted, n: &SyntaxNode, scope: &str, enc: Option<&str>, seq: u64) -> (k: u64)
    ensures
        final(em).out() == cat(old(em).out(), kt_item(*n, scope@, opt_view(enc), seq).0),
        k == kt_item(*n, scope@, opt_view(enc), seq).1,
    decreases n, 2int,
{
    let kd = n.kind.as_str();
    if str_eq(kd, "class_declaration") || str_eq(kd, "object_declaration") {
        ex_kt_class(em, n, scope, seq)
    } else if str_eq(kd, "function_declaration") {
        ex_kt_function(em, n, scope, enc, seq)
    } else if str_eq(kd, "property_declaration") {
        ex_kt_property(em, n, scope);
        seq
    } else if str_eq(kd, "import_header") {
        ex_kt_import(em, n, scope);
        seq
    } else if str_eq(kd, "enum_entry") {
        ex_kt_enum_entry(em, n, scope);
        seq
    } else if str_eq(kd, "class_body") || str_eq(kd, "object_body") {
        ex_kt_items(em, &n.children, scope, enc, seq)
    } else {
        proof { lemma_cat_none(old(em).out()); }
        seq
    }
}

fn ex_kt_items(em: &mut Emitted, s: &Vec<SyntaxNode>, scope: &str, enc: Option<&str>, seq: u64) -> (k: u64)
    ensures
        final(em).out() == cat(old(em).out(), kt_items(s@, scope@, opt_view(enc), seq).0),
        k == kt_items(s@, scope@, opt_view(enc), seq).1,
    decreases s@, 0int,
{
    proof { lemma_cat_none(old(em).out()); }
    let mut cur = seq;
    let mut i: usize = 0;
    assert(s@.take(0) =~= Seq::<SyntaxNode>::empty());
    while i < s.len()
        invariant
            i <= s@.len(),
            em.out() == cat(old(em).out(), kt_items(s@.take(i as int), scope@, opt_view(enc), seq).0),
            cur == kt_items(s@.take(i as int), scope@, opt_view(enc), seq).1,
        decreases s@.len() - i,
    {
        proof {
            let t = s@.take(i + 1);
            assert(t.drop_last() =~= s@.take(i as int));
            assert(t.last() == s@[i as int]);
        }
        cur = ex_kt_item(em, &s[i], scope, enc, cur);
        proof {
            let p = kt_items(s@.take(i as int), scope@, opt_view(enc), seq);
            lemma_cat_assoc(old(em).out(), p.0, kt_item(s@[i as int], scope@, opt_view(enc), p.1).0);
        }
        i += 1;
    }
    assert(s@.take(s@.len() as int) =~= s@);
    cur
}

/// The symbols and references of one Kotlin file, read off its syntax tree.
pub fn extract_kotlin(root: &SyntaxNode, file_path: &str) -> (r: ParseResult)
    ensures
        result_out(r) == kotlin_file_out(*root, file_path@),
{
    let mut em = Emitted::new();
    let _ = ex_kt_items(&mut em, &root.children, file_path, None, 0);
    proof { lemma_cat_none(kt_items(root.children@, file_path@, None, 0).0); }
    ParseResult { nodes: em.nodes, refs: em.refs }
}

/// Parses one `.kt` / `.kts` file and extracts its symbols and
/// relationships.
/// The symbols are those the grammar's tree yields; when no tree comes back
/// (the parse ran past its time limit), the error; when tree-sitter
/// refuses the grammar, its message after `failed to set … language: `.
pub fn parse_kotlin_file(source: &str, file_path: &str) -> (r: Result<ParseResult, String>)
    ensures
        match r {
            Ok(p) => kotlin_syntax(source@) matches Some(t) && result_out(p) == kotlin_file_out(t, file_path@),
            Err(e) => e@ == NO_TREE@ || is_refusal("Kotlin "@, e@),
        },
{
    match parse_kotlin_syntax(source) {
        Ok(Some(tree)) => Ok(extract_kotlin(&tree, file_path)),
        Ok(None) => Err(to_owned_string(NO_TREE)),
        Err(detail) => Err(language_refused_message("Kotlin ", detail.as_str())),
    }
}


// ---------------------------------------------------------------------------
// Numbering
// ---------------------------------------------------------------------------

proof fn lemma_kt_call_here(n: SyntaxNode, caller: Seq<char>, seq: u64)
    requires
        kt_call_here(n, caller, seq).1 < u64::MAX,
    ensures
        seq <= kt_call_here(n, caller, seq).1,
        numbered_in(kt_call_here(n, caller, seq).0, seq as int, kt_call_here(n, caller, seq).1 as int),
{
    let tail = kt_call_tail(kt_callee(n));
    if n.kind@ == "call_expression"@ && tail.len() > 0 && (unicode_is_alphabetic(tail[0]) || tail[0] == '_') {
        let k = bump(seq);
        let p = caller + "::call@"@ + decimal(spec_line(n.start_row) as nat) + ":"@ + decimal(spec_line(n.start_col) as nat);
        lemma_qn_number(p, k as nat);
    }
}

proof fn lemma_kt_calls(n: SyntaxNode, caller: Seq<char>, seq: u64)
    requires
        kt_calls(n, caller, seq).1 < u64::MAX,
    ensures
        seq <= kt_calls(n, caller, seq).1,
        numbered_in(kt_calls(n, caller, seq).0, seq as int, kt_calls(n, caller, seq).1 as int),
    decreases n,
{
    let h = kt_call_here(n, caller, seq);
    lemma_kt_calls_rev(n.children@, caller, h.1);
    lemma_kt_call_here(n, caller, seq);
    let r = kt_calls_rev(n.children@, caller, h.1);
    lemma_numbered_cat(h.0, r.0, seq as int, h.1 as int, r.1 as int);
}

proof fn lemma_kt_calls_rev(s: Seq<SyntaxNode>, caller: Seq<char>, seq: u64)
    requires
        kt_calls_rev(s, caller, seq).1 < u64::MAX,
    ensures
        seq <= kt_calls_rev(s, caller, seq).1,
        numbered_in(kt_calls_rev(s, caller, seq).0, seq as int, kt_calls_rev(s, caller, seq).1 as int),
    decreases s,
{
    if s.len() > 0 {
        let a = kt_calls(s.last(), caller, seq);
        lemma_kt_calls_rev(s.drop_last(), caller, a.1);
        lemma_kt_calls(s.last(), caller, seq);
        let b = kt_calls_rev(s.drop_last(), caller, a.1);
        lemma_numbered_cat(a.0, b.0, seq as int, a.1 as int, b.1 as int);
    }
}

proof fn lemma_kt_classify_plain(s: Seq<SyntaxNode>)
    ensures
        !numbered_label(kt_classify(s)),
    decreases s.len(),
{
    lemma_unnumbered_labels();
    if s.len() > 0 {
        lemma_kt_classify_plain(s.drop_first());
    }
}

proof fn lemma_kt_supers_plain(ps: Seq<Seq<char>>, qn: Seq<char>)
    ensures
        plain(kt_supers(ps, qn)),
    decreases ps.len(),
{
    if ps.len() > 0 {
        lemma_kt_supers_plain(ps.drop_last(), qn);
        let t = super_name(ps.last());
        lemma_plain_cat(kt_supers(ps.drop_last(), qn), if t.len() > 0 { ref_only(rf("Extends"@, qn, t)) } else { no_out() });
    }
}

proof fn lemma_kt_function(n: SyntaxNode, scope: Seq<char>, enc: Option<Seq<char>>, seq: u64)
    requires
        kt_function(n, scope, enc, seq).1 < u64::MAX,
    ensures
        seq <= kt_function(n, scope, enc, seq).1,
        numbered_in(kt_function(n, scope, enc, seq).0, seq as int, kt_function(n, scope, enc, seq).1 as int),
{
    let name = kt_name(n);
    if name.len() > 0 {
        let k = bump(seq);
        let qn = spec_qual(scope, name) + "#"@ + decimal(k as nat);
        match field_index(n.children@, "body"@) {
            Some(i) => { lemma_kt_calls(n.children@[i], qn, k); },
            None => { lemma_kt_calls(n, qn, k); },
        }
        lemma_qn_number(spec_qual(scope, name), k as nat);
        let node = NodeOut { label: if enc is Some { "Method"@ } else { "Function"@ }, name, qn,
            start: spec_line(n.start_row), end: spec_line(n.end_row), vis: kt_vis(n.children@),
            props: kt_fn_props(n, enc) };
        let head = one(node, rf(if enc is Some { "HasMethod"@ } else { "Defines"@ }, scope, qn));
        let calls = match field_index(n.children@, "body"@) {
            Some(i) => kt_calls(n.children@[i], qn, k),
            None => kt_calls(n, qn, k),
        };
        assert(numbered_in(head, seq as int, k as int));
        lemma_numbered_cat(head, calls.0, seq as int, k as int, calls.1 as int);
    }
}

proof fn lemma_kt_class(n: SyntaxNode, scope: Seq<char>, seq: u64)
    requires
        kt_class(n, scope, seq).1 < u64::MAX,
    ensures
        seq <= kt_class(n, scope, seq).1,
        numbered_in(kt_class(n, scope, seq).0, seq as int, kt_class(n, scope, seq).1 as int),
    decreases n, 1int,
{
    let name = kt_name(n);
    if name.len() > 0 {
        let qn = spec_qual(scope, name);
        lemma_kt_classify_plain(n.children@);
        let one_node = one(NodeOut { label: kt_classify(n.children@), name, qn, start: spec_line(n.start_row),
                end: spec_line(n.end_row), vis: kt_vis(n.children@), props: Seq::empty() },
            rf("Defines"@, scope, qn));
        match field_index(n.children@, "delegation_specifiers"@) {
            Some(i) => { lemma_kt_supers_plain(comma_pieces(n.children@[i].text@), qn); },
            None => {},
        }
        lemma_plain_cat(one_node, kt_extends(n, qn));
        let head = cat(one_node, kt_extends(n, qn));
        lemma_plain_numbered(head, seq as int, seq as int);
        lemma_kt_body_index(n);
        match kt_body_index(n) {
            Some(i) => {
                lemma_kt_items(n.children@[i].children@, qn, Some(qn), seq);
                let b = kt_items(n.children@[i].children@, qn, Some(qn), seq);
                lemma_numbered_cat(head, b.0, seq as int, seq as int, b.1 as int);
            },
            None => {},
        }
    } else {
        lemma_numbered_none(seq as int, seq as int);
    }
}

proof fn lemma_kt_item(n: SyntaxNode, scope: Seq<char>, enc: Option<Seq<char>>, seq: u64)
    requires
        kt_item(n, scope, enc, seq).1 < u64::MAX,
    ensures
        seq <= kt_item(n, scope, enc, seq).1,
        numbered_in(kt_item(n, scope, enc, seq).0, seq as int, kt_item(n, scope, enc, seq).1 as int),
    decreases n, 2int,
{
    lemma_unnumbered_labels();
    let k = n.kind@;
    let z = seq as int;
    if k == "class_declaration"@ || k == "object_declaration"@ {
        lemma_kt_class(n, scope, seq);
    } else if k == "function_declaration"@ {
        lemma_kt_function(n, scope, enc, seq);
    } else if k == "property_declaration"@ {
        lemma_plain_numbered(kt_property(n, scope), z, z);
    } else if k == "import_header"@ {
        lemma_plain_numbered(kt_import(n, scope), z, z);
    } else if k == "enum_entry"@ {
        lemma_plain_numbered(kt_enum_entry(n, scope), z, z);
    } else if k == "class_body"@ || k == "object_body"@ {
        lemma_kt_items(n.children@, scope, enc, seq);
    }
}

proof fn lemma_kt_items(s: Seq<SyntaxNode>, scope: Seq<char>, enc: Option<Seq<char>>, seq: u64)
    requires
        kt_items(s, scope, enc, seq).1 < u64::MAX,
    ensures
        seq <= kt_items(s, scope, enc, seq).1,
        numbered_in(kt_items(s, scope, enc, seq).0, seq as int, kt_items(s, scope, enc, seq).1 as int),
    decreases s, 0int,
{
    if s.len() > 0 {
        let p = kt_items(s.drop_last(), scope, enc, seq);
        lemma_kt_item(s.last(), scope, enc, p.1);
        lemma_kt_items(s.drop_last(), scope, enc, seq);
        let q = kt_item(s.last(), scope, enc, p.1);
        lemma_numbered_cat(p.0, q.0, seq as int, p.1 as int, q.1 as int);
    }
}

/// In what a Kotlin file yields, no two functions, methods or call sites
/// share a qualified name (overloads included), as long as the file
/// numbers fewer than `u64::MAX` of them.
pub proof fn lemma_kotlin_numbered_names_distinct(root: SyntaxNode, file: Seq<char>)
    requires
        kt_items(root.children@, file, None, 0).1 < u64::MAX,
    ensures
        numbered_names_distinct(kotlin_file_out(root, file)),
{
    lemma_kt_items(root.children@, file, None, 0);
    lemma_numbered_distinct(kotlin_file_out(root, file), 0, kt_items(root.children@, file, None, 0).1 as int);
}

} // verus!
