//! The Go front end: imports, type declarations (structs, interfaces,
//! other types), functions, methods (scoped by their receiver type),
//! constants and variables, and calls. Functions, methods and call sites
//! are numbered in the order they are met (`#n`), which keeps their
//! qualified names unique within the file.

use vstd::prelude::*;
use crate::text::{chars_of, str_eq, str_is_empty, to_owned_string, string_from_chars, slice_to_vec,
    unicode_is_whitespace, char_is_whitespace, unicode_is_alphabetic, char_is_alphabetic, trim, spec_trim};
use crate::parser::{append_chars, qual, spec_qual, ParseResult};
use crate::parser::naming::{decimal, push_decimal, spec_go_visibility, go_visibility};
use crate::parser::grammars::{parse_go_syntax, go_syntax};
use crate::parser::rust::{rf, result_out};
use crate::parser::python::{strip_leading};
use crate::parser::numbering::{numbered_in, plain, numbered_names_distinct, lemma_qn_number, lemma_numbered_none,
    lemma_plain_numbered, lemma_plain_cat, lemma_unnumbered_labels, lemma_numbered_cat, lemma_numbered_distinct};
use crate::parser::syntax::{is_refusal, language_refused_message, SyntaxNode, Counted, Out, NodeOut, RefOut, Emitted, no_out, cat, one, spec_line, line_of,
    field_index, field_pos, field_text, exec_field_text, node_out, prop_views, lemma_cat_assoc,
    lemma_cat_none, prop, mk_node, mk_ref, NO_TREE};

verus! {

/// The next number.
pub open spec fn bump(n: u64) -> u64 {
    if n < u64::MAX { (n + 1) as u64 } else { n }
}

pub fn exec_bump(n: u64) -> (r: u64)
    ensures
        r == bump(n),
{
    if n < u64::MAX { n + 1 } else { n }
}

/// `s` without its trailing `c`s.
pub open spec fn strip_trailing(s: Seq<char>, c: char) -> Seq<char>
    decreases s.len(),
{
    if s.len() > 0 && s.last() == c { strip_trailing(s.drop_last(), c) } else { s }
}

/// The part of `s` after its last `c` (all of `s` when it has none).
pub open spec fn after_last(s: Seq<char>, c: char) -> Seq<char>
    decreases s.len(),
{
    if s.len() == 0 || s.last() == c { Seq::empty() } else { after_last(s.drop_last(), c).push(s.last()) }
}

/// The trailing run of non-white-space chars of `s`.
pub open spec fn trailing_word(s: Seq<char>) -> Seq<char>
    decreases s.len(),
{
    if s.len() == 0 || unicode_is_whitespace(s.last()) { Seq::empty() } else { trailing_word(s.drop_last()).push(s.last()) }
}

/// The last white-space-separated word of `s` (empty when none).
pub open spec fn last_word(s: Seq<char>) -> Seq<char> {
    trailing_word(crate::text::trim_end_ws(s))
}

/// The receiver type of a method: `(*T)` or `(t T)` gives `T`.
pub open spec fn receiver_type(recv: Seq<char>) -> Seq<char> {
    strip_leading(last_word(strip_trailing(strip_leading(spec_trim(recv), '('), ')')), '*')
}

/// The Import an `import_spec` yields: named by the last path segment,
/// keyed `scope::import:path`, with an `Imports` reference to the path.
pub open spec fn go_import_here(n: SyntaxNode, scope: Seq<char>) -> Out {
    let cleaned = strip_trailing(strip_leading(field_text(n, "path"@), '"'), '"');
    one(NodeOut { label: "Import"@, name: after_last(cleaned, '/'), qn: spec_qual(scope, "import:"@ + cleaned),
            start: spec_line(n.start_row), end: spec_line(n.end_row), vis: "public"@, props: seq![("target"@, cleaned)] },
        rf("Imports"@, scope, cleaned))
}

/// The imports under an import declaration, depth first (children last
/// to first); an import spec with an empty path is skipped with its
/// subtree.
pub open spec fn go_imports(n: SyntaxNode, scope: Seq<char>) -> Out
    decreases n,
{
    if n.kind@ == "import_spec"@ {
        let cleaned = strip_trailing(strip_leading(field_text(n, "path"@), '"'), '"');
        if cleaned.len() == 0 {
            no_out()
        } else {
            cat(go_import_here(n, scope), go_imports_rev(n.children@, scope))
        }
    } else {
        go_imports_rev(n.children@, scope)
    }
}

pub open spec fn go_imports_rev(s: Seq<SyntaxNode>, scope: Seq<char>) -> Out
    decreases s,
{
    if s.len() == 0 { no_out() } else { cat(go_imports(s.last(), scope), go_imports_rev(s.drop_last(), scope)) }
}

/// The label a type spec is recorded under.
pub open spec fn type_label(n: SyntaxNode) -> Seq<char> {
    match field_index(n.children@, "type"@) {
        Some(i) => if n.children@[i].kind@ == "struct_type"@ {
            "Struct"@
        } else if n.children@[i].kind@ == "interface_type"@ {
            "Trait"@
        } else {
            "TypeAlias"@
        },
        None => "TypeAlias"@,
    }
}

/// One child of a type declaration.
pub open spec fn go_type_spec(c: SyntaxNode, scope: Seq<char>) -> Out {
    let name = field_text(c, "name"@);
    if (c.kind@ != "type_spec"@ && c.kind@ != "type_alias"@) || name.len() == 0 {
        no_out()
    } else {
        let qn = spec_qual(scope, name);
        one(NodeOut { label: type_label(c), name, qn, start: spec_line(c.start_row), end: spec_line(c.end_row),
                vis: spec_go_visibility(name), props: Seq::empty() },
            rf("Defines"@, scope, qn))
    }
}

pub open spec fn go_types(s: Seq<SyntaxNode>, scope: Seq<char>) -> Out
    decreases s.len(),
{
    if s.len() == 0 { no_out() } else { cat(go_types(s.drop_last(), scope), go_type_spec(s.last(), scope)) }
}

/// The named identifiers of a const or var spec, as constants.
pub open spec fn go_idents(s: Seq<SyntaxNode>, scope: Seq<char>) -> Out
    decreases s.len(),
{
    if s.len() == 0 {
        no_out()
    } else {
        let c = s.last();
        cat(go_idents(s.drop_last(), scope),
            if c.kind@ == "identifier"@ && c.text@.len() > 0 {
                one(NodeOut { label: "Constant"@, name: c.text@, qn: spec_qual(scope, c.text@), start: spec_line(c.start_row),
                        end: spec_line(c.end_row), vis: spec_go_visibility(c.text@), props: Seq::empty() },
                    rf("Defines"@, scope, spec_qual(scope, c.text@)))
            } else {
                no_out()
            })
    }
}

/// The constants and variables under a declaration, depth first.
pub open spec fn go_values(n: SyntaxNode, scope: Seq<char>) -> Out
    decreases n,
{
    cat(if n.kind@ == "const_spec"@ || n.kind@ == "var_spec"@ { go_idents(n.children@, scope) } else { no_out() },
        go_values_rev(n.children@, scope))
}

pub open spec fn go_values_rev(s: Seq<SyntaxNode>, scope: Seq<char>) -> Out
    decreases s,
{
    if s.len() == 0 { no_out() } else { cat(go_values(s.last(), scope), go_values_rev(s.drop_last(), scope)) }
}

/// The callee name of a call: the last `.` segment, trailing `(` and
/// white space removed.
pub open spec fn callee_tail(callee: Seq<char>) -> Seq<char> {
    spec_trim(strip_trailing(after_last(callee, '.'), '('))
}

/// The CallSite and `Calls` reference a call expression yields, when its
/// callee name starts with a letter or `_`.
pub open spec fn go_call_here(n: SyntaxNode, caller: Seq<char>, seq: u64) -> Counted {
    let tail = callee_tail(field_text(n, "function"@));
    if n.kind@ == "call_expression"@ && tail.len() > 0 && (unicode_is_alphabetic(tail[0]) || tail[0] == '_') {
        let k = bump(seq);
        let id = caller + "::call@"@ + decimal(spec_line(n.start_row) as nat) + ":"@ + decimal(spec_line(n.start_col) as nat)
            + "#"@ + decimal(k as nat);
        (one(NodeOut { label: "CallSite"@, name: tail, qn: id, start: spec_line(n.start_row), end: spec_line(n.end_row),
                vis: "public"@, props: seq![("callee_name"@, tail)] },
            rf("Calls"@, caller, tail)), k)
    } else {
        (no_out(), seq)
    }
}

/// The calls under `n`, depth first, numbered from `seq` on.
pub open spec fn go_calls(n: SyntaxNode, caller: Seq<char>, seq: u64) -> Counted
    decreases n,
{
    let h = go_call_here(n, caller, seq);
    let r = go_calls_rev(n.children@, caller, h.1);
    (cat(h.0, r.0), r.1)
}

pub open spec fn go_calls_rev(s: Seq<SyntaxNode>, caller: Seq<char>, seq: u64) -> Counted
    decreases s,
{
    if s.len() == 0 {
        (no_out(), seq)
    } else {
        let a = go_calls(s.last(), caller, seq);
        let b = go_calls_rev(s.drop_last(), caller, a.1);
        (cat(a.0, b.0), b.1)
    }
}

pub open spec fn go_body_calls(n: SyntaxNode, caller: Seq<char>, seq: u64) -> Counted {
    match field_index(n.children@, "body"@) {
        Some(i) => go_calls(n.children@[i], caller, seq),
        None => (no_out(), seq),
    }
}

/// A function or (with a receiver) method, numbered, with its calls.
pub open spec fn go_func(n: SyntaxNode, scope: Seq<char>, is_method: bool, seq: u64) -> Counted {
    let name = field_text(n, "name"@);
    if name.len() == 0 {
        (no_out(), seq)
    } else {
        let recv = receiver_type(field_text(n, "receiver"@));
        let owner = if is_method && recv.len() > 0 { spec_qual(scope, recv) } else { scope };
        let k = bump(seq);
        let qn = spec_qual(owner, name) + "#"@ + decimal(k as nat);
        let node = NodeOut { label: if is_method { "Method"@ } else { "Function"@ }, name, qn,
            start: spec_line(n.start_row), end: spec_line(n.end_row), vis: spec_go_visibility(name),
            props: if is_method { seq![("receiver_type"@, recv)] } else { Seq::empty() } };
        let calls = go_body_calls(n, qn, k);
        (cat(one(node, rf(if is_method { "HasMethod"@ } else { "Defines"@ }, owner, qn)), calls.0), calls.1)
    }
}

/// What one top-level declaration yields.
pub open spec fn go_item(n: SyntaxNode, scope: Seq<char>, seq: u64) -> Counted {
    let k = n.kind@;
    if k == "import_declaration"@ {
        (go_imports(n, scope), seq)
    } else if k == "type_declaration"@ {
        (go_types(n.children@, scope), seq)
    } else if k == "function_declaration"@ {
        go_func(n, scope, false, seq)
    } else if k == "method_declaration"@ {
        go_func(n, scope, true, seq)
    } else if k == "const_declaration"@ || k == "var_declaration"@ {
        (go_values(n, scope), seq)
    } else {
        (no_out(), seq)
    }
}

pub open spec fn go_items(s: Seq<SyntaxNode>, scope: Seq<char>, seq: u64) -> Counted
    decreases s.len(),
{
    if s.len() == 0 {
        (no_out(), seq)
    } else {
        let p = go_items(s.drop_last(), scope, seq);
        let q = go_item(s.last(), scope, p.1);
        (cat(p.0, q.0), q.1)
    }
}

/// What a whole file yields.
pub open spec fn go_file_out(root: SyntaxNode, file: Seq<char>) -> Out {
    go_items(root.children@, file, 0).0
}

// ---------------------------------------------------------------------------
// Extraction
// ---------------------------------------------------------------------------

pub fn ex_strip_leading(v: Vec<char>, c: char) -> (r: Vec<char>)
    ensures
        r@ == strip_leading(v@, c),
{
    let mut a: usize = 0;
    assert(v@.skip(0) =~= v@);
    while a < v.len() && v[a] == c
        invariant
            a <= v@.len(),
            strip_leading(v@, c) == strip_leading(v@.skip(a as int), c),
        decreases v@.len() - a,
    {
        proof {
            assert(v@.skip(a as int)[0] == v@[a as int]);
            assert(v@.skip(a as int).drop_first() =~= v@.skip(a + 1));
        }
        a += 1;
    }
    let r = slice_to_vec(&v, a, v.len());
    assert(r@ =~= v@.skip(a as int));
    r
}

pub fn ex_strip_trailing(v: Vec<char>, c: char) -> (r: Vec<char>)
    ensures
        r@ == strip_trailing(v@, c),
{
    let mut b: usize = v.len();
    assert(v@.take(b as int) =~= v@);
    while b > 0 && v[b - 1] == c
        invariant
            b <= v@.len(),
            strip_trailing(v@, c) == strip_trailing(v@.take(b as int), c),
        decreases b,
    {
        proof {
            assert(v@.take(b as int).last() == v@[b - 1]);
            assert(v@.take(b as int).drop_last() =~= v@.take(b - 1));
        }
        b -= 1;
    }
    let r = slice_to_vec(&v, 0, b);
    assert(r@ =~= v@.take(b as int));
    r
}

pub fn ex_after_last(v: &Vec<char>, c: char) -> (r: Vec<char>)
    ensures
        r@ == after_last(v@, c),
{
    let mut b: usize = v.len();
    let ghost mut acc: Seq<char> = Seq::empty();
    assert(v@.take(b as int) =~= v@);
    while b > 0 && v[b - 1] != c
        invariant
            b <= v@.len(),
            after_last(v@, c) == after_last(v@.take(b as int), c) + v@.subrange(b as int, v@.len() as int),
        decreases b,
    {
        proof {
            let t = v@.take(b as int);
            assert(t.last() == v@[b - 1]);
            assert(t.drop_last() =~= v@.take(b - 1));
            assert(v@.subrange(b - 1, v@.len() as int) =~= seq![v@[b - 1]] + v@.subrange(b as int, v@.len() as int));
            assert(after_last(t, c) == after_last(v@.take(b - 1), c).push(v@[b - 1]));
            assert(after_last(v@.take(b - 1), c).push(v@[b - 1]) + v@.subrange(b as int, v@.len() as int)
                =~= after_last(v@.take(b - 1), c) + v@.subrange(b - 1, v@.len() as int));
        }
        b -= 1;
    }
    proof {
        assert(after_last(v@.take(b as int), c) =~= Seq::<char>::empty());
        assert(Seq::<char>::empty() + v@.subrange(b as int, v@.len() as int) =~= v@.subrange(b as int, v@.len() as int));
    }
    slice_to_vec(v, b, v.len())
}

fn ex_last_word(v: &Vec<char>) -> (r: Vec<char>)
    ensures
        r@ == last_word(v@),
{
    let mut e: usize = v.len();
    assert(v@.take(e as int) =~= v@);
    while e > 0 && char_is_whitespace(v[e - 1])
        invariant
            e <= v@.len(),
            crate::text::trim_end_ws(v@) == crate::text::trim_end_ws(v@.take(e as int)),
        decreases e,
    {
        proof {
            assert(v@.take(e as int).last() == v@[e - 1]);
            assert(v@.take(e as int).drop_last() =~= v@.take(e - 1));
        }
        e -= 1;
    }
    let t = slice_to_vec(v, 0, e);
    assert(t@ =~= v@.take(e as int));
    assert(crate::text::trim_end_ws(t@) == t@);
    let mut b: usize = t.len();
    assert(t@.take(b as int) =~= t@);
    while b > 0 && !char_is_whitespace(t[b - 1])
        invariant
            b <= t@.len(),
            trailing_word(t@) == trailing_word(t@.take(b as int)) + t@.subrange(b as int, t@.len() as int),
        decreases b,
    {
        proof {
            let u = t@.take(b as int);
            assert(u.last() == t@[b - 1]);
            assert(u.drop_last() =~= t@.take(b - 1));
            assert(trailing_word(u) == trailing_word(t@.take(b - 1)).push(t@[b - 1]));
            assert(trailing_word(t@.take(b - 1)).push(t@[b - 1]) + t@.subrange(b as int, t@.len() as int)
                =~= trailing_word(t@.take(b - 1)) + t@.subrange(b - 1, t@.len() as int));
        }
        b -= 1;
    }
    proof {
        assert(trailing_word(t@.take(b as int)) =~= Seq::<char>::empty());
        assert(Seq::<char>::empty() + t@.subrange(b as int, t@.len() as int) =~= t@.subrange(b as int, t@.len() as int));
    }
    slice_to_vec(&t, b, t.len())
}

fn ex_receiver_type(recv: &str) -> (r: String)
    ensures
        r@ == receiver_type(recv@),
{
    let t = trim(recv);
    let a = ex_strip_leading(chars_of(t.as_str()), '(');
    let b = ex_strip_trailing(a, ')');
    let w = ex_last_word(&b);
    let c = ex_strip_leading(w, '*');
    string_from_chars(&c)
}

fn ex_callee_tail(callee: &str) -> (r: String)
    ensures
        r@ == callee_tail(callee@),
{
    let a = ex_after_last(&chars_of(callee), '.');
    let b = ex_strip_trailing(a, '(');
    let s = string_from_chars(&b);
    trim(s.as_str())
}

fn ex_cleaned_path(n: &SyntaxNode) -> (r: String)
    ensures
        r@ == strip_trailing(strip_leading(field_text(*n, "path"@), '"'), '"'),
{
    let p = exec_field_text(n, "path");
    let a = ex_strip_leading(chars_of(p.as_str()), '"');
    let b = ex_strip_trailing(a, '"');
    string_from_chars(&b)
}

fn ex_go_imports(em: &mut Emitted, n: &SyntaxNode, scope: &str)
    ensures
        final(em).out() == cat(old(em).out(), go_imports(*n, scope@)),
    decreases n,
{
    if str_eq(n.kind.as_str(), "import_spec") {
        let cleaned = ex_cleaned_path(n);
        if str_is_empty(cleaned.as_str()) {
            proof { lemma_cat_none(old(em).out()); }
            return;
        }
        let cs = chars_of(cleaned.as_str());
        let name = string_from_chars(&ex_after_last(&cs, '/'));
        let mut key = chars_of("import:");
        append_chars(&mut key, &cs);
        let keys = string_from_chars(&key);
        let qn = qual(scope, keys.as_str());
        let mut props: Vec<(String, String)> = Vec::new();
        props.push(prop("target", cleaned.as_str()));
        assert(prop_views(props@) =~= seq![("target"@, cleaned@)]);
        let node = mk_node("Import", name.as_str(), qn.as_str(), line_of(n.start_row), line_of(n.end_row), "public", props);
        em.emit(node, mk_ref("Imports", scope, cleaned.as_str()));
    }
    let ghost base = em.out();
    let ghost rest = go_imports_rev(n.children@, scope@);
    let mut i: usize = n.children.len();
    assert(n.children@.take(i as int) =~= n.children@);
    while i > 0
        invariant
            i <= n.children@.len(),
            rest == go_imports_rev(n.children@, scope@),
            cat(em.out(), go_imports_rev(n.children@.take(i as int), scope@)) == cat(base, rest),
        decreases i,
    {
        i -= 1;
        let ghost before = em.out();
        ex_go_imports(em, &n.children[i], scope);
        proof {
            let t = n.children@.take(i + 1);
            assert(t.drop_last() =~= n.children@.take(i as int));
            assert(t.last() == n.children@[i as int]);
            lemma_cat_assoc(before, go_imports(n.children@[i as int], scope@), go_imports_rev(n.children@.take(i as int), scope@));
        }
    }
    proof {
        assert(n.children@.take(0) =~= Seq::<SyntaxNode>::empty());
        lemma_cat_none(em.out());
        if n.kind@ == "import_spec"@ {
            lemma_cat_assoc(old(em).out(), go_import_here(*n, scope@), rest);
        } else {
            lemma_cat_none(old(em).out());
        }
    }
}

fn ex_type_label(c: &SyntaxNode) -> (r: &'static str)
    ensures
        r@ == type_label(*c),
{
    match field_pos(c, "type") {
        Some(i) => {
            if str_eq(c.children[i].kind.as_str(), "struct_type") {
                "Struct"
            } else if str_eq(c.children[i].kind.as_str(), "interface_type") {
                "Trait"
            } else {
                "TypeAlias"
            }
        },
        None => "TypeAlias",
    }
}

fn ex_go_types(em: &mut Emitted, s: &Vec<SyntaxNode>, scope: &str)
    ensures
        final(em).out() == cat(old(em).out(), go_types(s@, scope@)),
{
    proof { lemma_cat_none(old(em).out()); }
    assert(s@.take(0) =~= Seq::<SyntaxNode>::empty());
    let mut i: usize = 0;
    while i < s.len()
        invariant
            i <= s@.len(),
            em.out() == cat(old(em).out(), go_types(s@.take(i as int), scope@)),
        decreases s@.len() - i,
    {
        let c = &s[i];
        let ghost before = em.out();
        let name = exec_field_text(c, "name");
        if (str_eq(c.kind.as_str(), "type_spec") || str_eq(c.kind.as_str(), "type_alias")) && !str_is_empty(name.as_str()) {
            let qn = qual(scope, name.as_str());
            let props: Vec<(String, String)> = Vec::new();
            assert(prop_views(props@) =~= Seq::empty());
            let vis = go_visibility(name.as_str());
            let node = mk_node(ex_type_label(c), name.as_str(), qn.as_str(), line_of(c.start_row), line_of(c.end_row), vis.as_str(), props);
            em.emit(node, mk_ref("Defines", scope, qn.as_str()));
        } else {
            proof { lemma_cat_none(before); }
        }
        proof {
            let t = s@.take(i + 1);
            assert(t.drop_last() =~= s@.take(i as int));
            assert(t.last() == s@[i as int]);
            lemma_cat_assoc(old(em).out(), go_types(s@.take(i as int), scope@), go_type_spec(s@[i as int], scope@));
        }
        i += 1;
    }
    assert(s@.take(s@.len() as int) =~= s@);
}

fn ex_go_idents(em: &mut Emitted, s: &Vec<SyntaxNode>, scope: &str)
    ensures
        final(em).out() == cat(old(em).out(), go_idents(s@, scope@)),
{
    proof { lemma_cat_none(old(em).out()); }
    assert(s@.take(0) =~= Seq::<SyntaxNode>::empty());
    let mut i: usize = 0;
    while i < s.len()
        invariant
            i <= s@.len(),
            em.out() == cat(old(em).out(), go_idents(s@.take(i as int), scope@)),
        decreases s@.len() - i,
    {
        let c = &s[i];
        let ghost before = em.out();
        if str_eq(c.kind.as_str(), "identifier") && !str_is_empty(c.text.as_str()) {
            let qn = qual(scope, c.text.as_str());
            let props: Vec<(String, String)> = Vec::new();
            assert(prop_views(props@) =~= Seq::empty());
            let vis = go_visibility(c.text.as_str());
            let node = mk_node("Constant", c.text.as_str(), qn.as_str(), line_of(c.start_row), line_of(c.end_row), vis.as_str(), props);
            em.emit(node, mk_ref("Defines", scope, qn.as_str()));
        } else {
            proof { lemma_cat_none(before); }
        }
        proof {
            let t = s@.take(i + 1);
            assert(t.drop_last() =~= s@.take(i as int));
            assert(t.last() == s@[i as int]);
            let extra = if c.kind@ == "identifier"@ && c.text@.len() > 0 {
                one(NodeOut { label: "Constant"@, name: c.text@, qn: spec_qual(scope@, c.text@), start: spec_line(c.start_row),
                        end: spec_line(c.end_row), vis: spec_go_visibility(c.text@), props: Seq::empty() },
                    rf("Defines"@, scope@, spec_qual(scope@, c.text@)))
            } else {
                no_out()
            };
            lemma_cat_assoc(old(em).out(), go_idents(s@.take(i as int), scope@), extra);
        }
        i += 1;
    }
    assert(s@.take(s@.len() as int) =~= s@);
}

fn ex_go_values(em: &mut Emitted, n: &SyntaxNode, scope: &str)
    ensures
        final(em).out() == cat(old(em).out(), go_values(*n, scope@)),
    decreases n,
{
    if str_eq(n.kind.as_str(), "const_spec") || str_eq(n.kind.as_str(), "var_spec") {
        ex_go_idents(em, &n.children, scope);
    } else {
        proof { lemma_cat_none(old(em).out()); }
    }
    let ghost base = em.out();
    let ghost rest = go_values_rev(n.children@, scope@);
    let mut i: usize = n.children.len();
    assert(n.children@.take(i as int) =~= n.children@);
    while i > 0
        invariant
            i <= n.children@.len(),
            rest == go_values_rev(n.children@, scope@),
            cat(em.out(), go_values_rev(n.children@.take(i as int), scope@)) == cat(base, rest),
        decreases i,
    {
        i -= 1;
        let ghost before = em.out();
        ex_go_values(em, &n.children[i], scope);
        proof {
            let t = n.children@.take(i + 1);
            assert(t.drop_last() =~= n.children@.take(i as int));
            assert(t.last() == n.children@[i as int]);
            lemma_cat_assoc(before, go_values(n.children@[i as int], scope@), go_values_rev(n.children@.take(i as int), scope@));
        }
    }
    proof {
        assert(n.children@.take(0) =~= Seq::<SyntaxNode>::empty());
        lemma_cat_none(em.out());
        let head = if n.kind@ == "const_spec"@ || n.kind@ == "var_spec"@ { go_idents(n.children@, scope@) } else { no_out() };
        lemma_cat_assoc(old(em).out(), head, rest);
    }
}

fn ex_go_call_here(em: &mut Emitted, n: &SyntaxNode, caller: &str, seq: u64) -> (k: u64)
    ensures
        final(em).out() == cat(old(em).out(), go_call_here(*n, caller@, seq).0),
        k == go_call_here(*n, caller@, seq).1,
{
    proof { lemma_cat_none(old(em).out()); }
    if !str_eq(n.kind.as_str(), "call_expression") {
        return seq;
    }
    let callee = exec_field_text(n, "function");
    let tail = ex_callee_tail(callee.as_str());
    let tc = chars_of(tail.as_str());
    if tc.len() == 0 {
        return seq;
    }
    if !(char_is_alphabetic(tc[0]) || tc[0] == '_') {
        return seq;
    }
    let k = exec_bump(seq);
    let mut id = chars_of(caller);
    append_chars(&mut id, &chars_of("::call@"));
    push_decimal(&mut id, line_of(n.start_row));
    append_chars(&mut id, &chars_of(":"));
    push_decimal(&mut id, line_of(n.start_col));
    append_chars(&mut id, &chars_of("#"));
    push_decimal(&mut id, k);
    let ids = string_from_chars(&id);
    let mut props: Vec<(String, String)> = Vec::new();
    props.push(prop("callee_name", tail.as_str()));
    assert(prop_views(props@) =~= seq![("callee_name"@, tail@)]);
    let node = mk_node("CallSite", tail.as_str(), ids.as_str(), line_of(n.start_row), line_of(n.end_row), "public", props);
    em.emit(node, mk_ref("Calls", caller, tail.as_str()));
    k
}

fn ex_go_calls(em: &mut Emitted, n: &SyntaxNode, caller: &str, seq: u64) -> (k: u64)
    ensures
        final(em).out() == cat(old(em).out(), go_calls(*n, caller@, seq).0),
        k == go_calls(*n, caller@, seq).1,
    decreases n,
{
    let h = ex_go_call_here(em, n, caller, seq);
    let ghost base = em.out();
    let ghost total = go_calls_rev(n.children@, caller@, h);
    let mut cur = h;
    let mut i: usize = n.children.len();
    assert(n.children@.take(i as int) =~= n.children@);
    while i > 0
        invariant
            i <= n.children@.len(),
            total == go_calls_rev(n.children@, caller@, h),
            cat(em.out(), go_calls_rev(n.children@.take(i as int), caller@, cur).0) == cat(base, total.0),
            go_calls_rev(n.children@.take(i as int), caller@, cur).1 == total.1,
        decreases i,
    {
        i -= 1;
        let ghost before = em.out();
        let ghost before_seq = cur;
        cur = ex_go_calls(em, &n.children[i], caller, cur);
        proof {
            let t = n.children@.take(i + 1);
            assert(t.drop_last() =~= n.children@.take(i as int));
            assert(t.last() == n.children@[i as int]);
            let a = go_calls(n.children@[i as int], caller@, before_seq);
            lemma_cat_assoc(before, a.0, go_calls_rev(n.children@.take(i as int), caller@, a.1).0);
        }
    }
    proof {
        assert(n.children@.take(0) =~= Seq::<SyntaxNode>::empty());
        lemma_cat_none(em.out());
        lemma_cat_assoc(old(em).out(), go_call_here(*n, caller@, seq).0, total.0);
    }
    cur
}

fn ex_go_func(em: &mut Emitted, n: &SyntaxNode, scope: &str, is_method: bool, seq: u64) -> (k: u64)
    ensures
        final(em).out() == cat(old(em).out(), go_func(*n, scope@, is_method, seq).0),
        k == go_func(*n, scope@, is_method, seq).1,
{
    let name = exec_field_text(n, "name");
    if str_is_empty(name.as_str()) {
        proof { lemma_cat_none(old(em).out()); }
        return seq;
    }
    let recv_text = exec_field_text(n, "receiver");
    let recv = ex_receiver_type(recv_text.as_str());
    let owner = if is_method && !str_is_empty(recv.as_str()) { qual(scope, recv.as_str()) } else { to_owned_string(scope) };
    let k = exec_bump(seq);
    let mut q = chars_of(qual(owner.as_str(), name.as_str()).as_str());
    append_chars(&mut q, &chars_of("#"));
    push_decimal(&mut q, k);
    let qn = string_from_chars(&q);
    let mut props: Vec<(String, String)> = Vec::new();
    if is_method {
        props.push(prop("receiver_type", recv.as_str()));
        assert(prop_views(props@) =~= seq![("receiver_type"@, recv@)]);
    } else {
        assert(prop_views(props@) =~= Seq::empty());
    }
    let vis = go_visibility(name.as_str());
    let label = if is_method { "Method" } else { "Function" };
    let kind = if is_method { "HasMethod" } else { "Defines" };
    let node = mk_node(label, name.as_str(), qn.as_str(), line_of(n.start_row), line_of(n.end_row), vis.as_str(), props);
    let ghost e0 = em.out();
    em.emit(node, mk_ref(kind, owner.as_str(), qn.as_str()));
    let r = match field_pos(n, "body") {
        Some(i) => ex_go_calls(em, &n.children[i], qn.as_str(), k),
        None => {
            proof { lemma_cat_none(em.out()); }
            k
        },
    };
    proof {
        lemma_cat_assoc(e0, one(node_out(node), RefOut { kind: kind@, from: owner@, to: qn@ }), go_body_calls(*n, qn@, k).0);
    }
    r
}

/// The symbols and references of one Go file, read off its syntax tree.
pub fn extract_go(root: &SyntaxNode, file_path: &str) -> (r: ParseResult)
    ensures
        result_out(r) == go_file_out(*root, file_path@),
{
    let mut em = Emitted::new();
    let s = &root.children;
    let mut seq: u64 = 0;
    let mut i: usize = 0;
    assert(s@.take(0) =~= Seq::<SyntaxNode>::empty());
    while i < s.len()
        invariant
            i <= s@.len(),
            s@ == root.children@,
            em.out() == go_items(s@.take(i as int), file_path@, 0).0,
            seq == go_items(s@.take(i as int), file_path@, 0).1,
        decreases s@.len() - i,
    {
        let c = &s[i];
        let k = c.kind.as_str();
        let ghost before = em.out();
        proof {
            let t = s@.take(i + 1);
            assert(t.drop_last() =~= s@.take(i as int));
            assert(t.last() == s@[i as int]);
        }
        if str_eq(k, "import_declaration") {
            ex_go_imports(&mut em, c, file_path);
        } else if str_eq(k, "type_declaration") {
            ex_go_types(&mut em, &c.children, file_path);
        } else if str_eq(k, "function_declaration") {
            seq = ex_go_func(&mut em, c, file_path, false, seq);
        } else if str_eq(k, "method_declaration") {
            seq = ex_go_func(&mut em, c, file_path, true, seq);
        } else if str_eq(k, "const_declaration") || str_eq(k, "var_declaration") {
            ex_go_values(&mut em, c, file_path);
        } else {
            proof { lemma_cat_none(before); }
        }
        i += 1;
    }
    assert(s@.take(s@.len() as int) =~= s@);
    ParseResult { nodes: em.nodes, refs: em.refs }
}

/// Parses one `.go` file and extracts its symbols and relationships.
/// The symbols are those the grammar's tree yields; when no tree comes back
/// (the parse ran past its time limit), the error; when tree-sitter
/// refuses the grammar, its message after `failed to set … language: `.
pub fn parse_go_file(source: &str, file_path: &str) -> (r: Result<ParseResult, String>)
    ensures
        match r {
            Ok(p) => go_syntax(source@) matches Some(t) && result_out(p) == go_file_out(t, file_path@),
            Err(e) => e@ == NO_TREE@ || is_refusal("Go "@, e@),
        },
{
    match parse_go_syntax(source) {
        Ok(Some(tree)) => Ok(extract_go(&tree, file_path)),
        Ok(None) => Err(to_owned_string(NO_TREE)),
        Err(detail) => Err(language_refused_message("Go ", detail.as_str())),
    }
}


// ---------------------------------------------------------------------------
// Numbering
// ---------------------------------------------------------------------------

proof fn lemma_go_call_here(n: SyntaxNode, caller: Seq<char>, seq: u64)
    requires
        go_call_here(n, caller, seq).1 < u64::MAX,
    ensures
        seq <= go_call_here(n, caller, seq).1,
        numbered_in(go_call_here(n, caller, seq).0, seq as int, go_call_here(n, caller, seq).1 as int),
{
    let tail = callee_tail(field_text(n, "function"@));
    if n.kind@ == "call_expression"@ && tail.len() > 0 && (unicode_is_alphabetic(tail[0]) || tail[0] == '_') {
        let k = bump(seq);
        let p = caller + "::call@"@ + decimal(spec_line(n.start_row) as nat) + ":"@ + decimal(spec_line(n.start_col) as nat);
        lemma_qn_number(p, k as nat);
    }
}

proof fn lemma_go_calls(n: SyntaxNode, caller: Seq<char>, seq: u64)
    requires
        go_calls(n, caller, seq).1 < u64::MAX,
    ensures
        seq <= go_calls(n, caller, seq).1,
        numbered_in(go_calls(n, caller, seq).0, seq as int, go_calls(n, caller, seq).1 as int),
    decreases n,
{
    let h = go_call_here(n, caller, seq);
    lemma_go_calls_rev(n.children@, caller, h.1);
    lemma_go_call_here(n, caller, seq);
    let r = go_calls_rev(n.children@, caller, h.1);
    lemma_numbered_cat(h.0, r.0, seq as int, h.1 as int, r.1 as int);
}

proof fn lemma_go_calls_rev(s: Seq<SyntaxNode>, caller: Seq<char>, seq: u64)
    requires
        go_calls_rev(s, caller, seq).1 < u64::MAX,
    ensures
        seq <= go_calls_rev(s, caller, seq).1,
        numbered_in(go_calls_rev(s, caller, seq).0, seq as int, go_calls_rev(s, caller, seq).1 as int),
    decreases s,
{
    if s.len() > 0 {
        let a = go_calls(s.last(), caller, seq);
        lemma_go_calls_rev(s.drop_last(), caller, a.1);
        lemma_go_calls(s.last(), caller, seq);
        let b = go_calls_rev(s.drop_last(), caller, a.1);
        lemma_numbered_cat(a.0, b.0, seq as int, a.1 as int, b.1 as int);
    }
}

proof fn lemma_go_imports_plain(n: SyntaxNode, scope: Seq<char>)
    ensures
        plain(go_imports(n, scope)),
    decreases n,
{
    lemma_unnumbered_labels();
    lemma_go_imports_rev_plain(n.children@, scope);
    if n.kind@ == "import_spec"@ {
        let cleaned = strip_trailing(strip_leading(field_text(n, "path"@), '"'), '"');
        if cleaned.len() > 0 {
            lemma_plain_cat(go_import_here(n, scope), go_imports_rev(n.children@, scope));
        }
    }
}

proof fn lemma_go_imports_rev_plain(s: Seq<SyntaxNode>, scope: Seq<char>)
    ensures
        plain(go_imports_rev(s, scope)),
    decreases s,
{
    if s.len() > 0 {
        lemma_go_imports_plain(s.last(), scope);
        lemma_go_imports_rev_plain(s.drop_last(), scope);
        lemma_plain_cat(go_imports(s.last(), scope), go_imports_rev(s.drop_last(), scope));
    }
}

proof fn lemma_go_types_plain(s: Seq<SyntaxNode>, scope: Seq<char>)
    ensures
        plain(go_types(s, scope)),
    decreases s.len(),
{
    lemma_unnumbered_labels();
    if s.len() > 0 {
        lemma_go_types_plain(s.drop_last(), scope);
        lemma_plain_cat(go_types(s.drop_last(), scope), go_type_spec(s.last(), scope));
    }
}

proof fn lemma_go_idents_plain(s: Seq<SyntaxNode>, scope: Seq<char>)
    ensures
        plain(go_idents(s, scope)),
    decreases s.len(),
{
    lemma_unnumbered_labels();
    if s.len() > 0 {
        lemma_go_idents_plain(s.drop_last(), scope);
        let c = s.last();
        let extra = if c.kind@ == "identifier"@ && c.text@.len() > 0 {
            one(NodeOut { label: "Constant"@, name: c.text@, qn: spec_qual(scope, c.text@), start: spec_line(c.start_row),
                    end: spec_line(c.end_row), vis: spec_go_visibility(c.text@), props: Seq::empty() },
                rf("Defines"@, scope, spec_qual(scope, c.text@)))
        } else {
            no_out()
        };
        lemma_plain_cat(go_idents(s.drop_last(), scope), extra);
    }
}

proof fn lemma_go_values_plain(n: SyntaxNode, scope: Seq<char>)
    ensures
        plain(go_values(n, scope)),
    decreases n,
{
    lemma_go_values_rev_plain(n.children@, scope);
    lemma_go_idents_plain(n.children@, scope);
    let head = if n.kind@ == "const_spec"@ || n.kind@ == "var_spec"@ { go_idents(n.children@, scope) } else { no_out() };
    lemma_plain_cat(head, go_values_rev(n.children@, scope));
}

proof fn lemma_go_values_rev_plain(s: Seq<SyntaxNode>, scope: Seq<char>)
    ensures
        plain(go_values_rev(s, scope)),
    decreases s,
{
    if s.len() > 0 {
        lemma_go_values_plain(s.last(), scope);
        lemma_go_values_rev_plain(s.drop_last(), scope);
        lemma_plain_cat(go_values(s.last(), scope), go_values_rev(s.drop_last(), scope));
    }
}

proof fn lemma_go_func(n: SyntaxNode, scope: Seq<char>, is_method: bool, seq: u64)
    requires
        go_func(n, scope, is_method, seq).1 < u64::MAX,
    ensures
        seq <= go_func(n, scope, is_method, seq).1,
        numbered_in(go_func(n, scope, is_method, seq).0, seq as int, go_func(n, scope, is_method, seq).1 as int),
{
    let name = field_text(n, "name"@);
    if name.len() > 0 {
        let recv = receiver_type(field_text(n, "receiver"@));
        let owner = if is_method && recv.len() > 0 { spec_qual(scope, recv) } else { scope };
        let k = bump(seq);
        let qn = spec_qual(owner, name) + "#"@ + decimal(k as nat);
        match field_index(n.children@, "body"@) {
            Some(i) => { lemma_go_calls(n.children@[i], qn, k); },
            None => {},
        }
        lemma_qn_number(spec_qual(owner, name), k as nat);
        let calls = go_body_calls(n, qn, k);
        let node = NodeOut { label: if is_method { "Method"@ } else { "Function"@ }, name, qn,
            start: spec_line(n.start_row), end: spec_line(n.end_row), vis: spec_go_visibility(name),
            props: if is_method { seq![("receiver_type"@, recv)] } else { Seq::empty() } };
        let head = one(node, rf(if is_method { "HasMethod"@ } else { "Defines"@ }, owner, qn));
        assert(numbered_in(head, seq as int, k as int));
        lemma_numbered_cat(head, calls.0, seq as int, k as int, calls.1 as int);
    }
}

proof fn lemma_go_item(n: SyntaxNode, scope: Seq<char>, seq: u64)
    requires
        go_item(n, scope, seq).1 < u64::MAX,
    ensures
        seq <= go_item(n, scope, seq).1,
        numbered_in(go_item(n, scope, seq).0, seq as int, go_item(n, scope, seq).1 as int),
{
    let k = n.kind@;
    if k == "import_declaration"@ {
        lemma_go_imports_plain(n, scope);
        lemma_plain_numbered(go_imports(n, scope), seq as int, seq as int);
    } else if k == "type_declaration"@ {
        lemma_go_types_plain(n.children@, scope);
        lemma_plain_numbered(go_types(n.children@, scope), seq as int, seq as int);
    } else if k == "function_declaration"@ {
        lemma_go_func(n, scope, false, seq);
    } else if k == "method_declaration"@ {
        lemma_go_func(n, scope, true, seq);
    } else if k == "const_declaration"@ || k == "var_declaration"@ {
        lemma_go_values_plain(n, scope);
        lemma_plain_numbered(go_values(n, scope), seq as int, seq as int);
    } else {
        lemma_numbered_none(seq as int, seq as int);
    }
}

proof fn lemma_go_items(s: Seq<SyntaxNode>, scope: Seq<char>, seq: u64)
    requires
        go_items(s, scope, seq).1 < u64::MAX,
    ensures
        seq <= go_items(s, scope, seq).1,
        numbered_in(go_items(s, scope, seq).0, seq as int, go_items(s, scope, seq).1 as int),
    decreases s.len(),
{
    if s.len() == 0 {
        lemma_numbered_none(seq as int, seq as int);
    } else {
        let p = go_items(s.drop_last(), scope, seq);
        lemma_go_item(s.last(), scope, p.1);
        lemma_go_items(s.drop_last(), scope, seq);
        let q = go_item(s.last(), scope, p.1);
        lemma_numbered_cat(p.0, q.0, seq as int, p.1 as int, q.1 as int);
    }
}

/// In what a Go file yields, no two functions, methods or call sites share
/// a qualified name: each carries the next number of one counter, as long
/// as the file numbers fewer than `u64::MAX` of them.
pub proof fn lemma_go_numbered_names_distinct(root: SyntaxNode, file: Seq<char>)
    requires
        go_items(root.children@, file, 0).1 < u64::MAX,
    ensures
        numbered_names_distinct(go_file_out(root, file)),
{
    lemma_go_items(root.children@, file, 0);
    lemma_numbered_distinct(go_file_out(root, file), 0, go_items(root.children@, file, 0).1 as int);
}

} // verus!
