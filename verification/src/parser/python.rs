//! The Python front end: what one `.py` file's syntax tree yields. Classes
//! are recorded as structs, `def`s at module level as functions and in a
//! class body as methods of the class, UPPER_SNAKE module assignments as
//! constants. Function and method qualified names are made unique within
//! the file (a repeated name gets `@{start_line}`).

use vstd::prelude::*;
use crate::text::{chars_of, str_eq, str_is_empty, to_owned_string, string_from_chars, contains_char,
    starts_with, seq_starts_with, trim, spec_trim};
use crate::parser::{append_chars, qual, spec_qual, ParseResult};
use crate::parser::naming::{decimal, push_decimal, bool_text, seq_join, views, join_strings, QnRegistry,
    spec_python_visibility, python_visibility, spec_is_upper_snake_case, is_upper_snake_case, spec_import_display};
use crate::parser::grammars::{parse_python_syntax, python_syntax};
use crate::parser::rust::{extends_refs, rf, result_out};
use crate::parser::syntax::{is_refusal, language_refused_message, SyntaxNode, Out, NodeOut, RefOut, Emitted, no_out, cat, one, spec_line, line_of,
    field_index, kind_index, lemma_field_index, lemma_kind_index, field_pos, kind_pos, field_text,
    exec_field_text, has_child_kind, exec_has_child_kind, node_out, prop_views, lemma_cat_assoc,
    lemma_cat_none, prop, mk_node, mk_ref, NO_TREE};

verus! {

/// What a run of the front end has emitted, and the function and method
/// qualified names it has used.
pub type St = (Out, Set<Seq<char>>);

/// A file-unique qualified name: `qn` when unused, else `qn@line`.
pub open spec fn dedup(seen: Set<Seq<char>>, qn: Seq<char>, line: u64) -> Seq<char> {
    if seen.contains(qn) { qn.push('@') + decimal(line as nat) } else { qn }
}

/// `s` with each `.` written `::`.
pub open spec fn dots_to_colons(s: Seq<char>) -> Seq<char>
    decreases s.len(),
{
    if s.len() == 0 {
        Seq::empty()
    } else {
        dots_to_colons(s.drop_last()) + if s.last() == '.' { seq![':', ':'] } else { seq![s.last()] }
    }
}

/// `caller::call@line:col#start-end`: the byte span keeps chained calls
/// apart.
pub open spec fn py_call_id(caller: Seq<char>, n: SyntaxNode) -> Seq<char> {
    caller + "::call@"@ + decimal(spec_line(n.start_row) as nat) + ":"@ + decimal(n.start_col as nat)
        + "#"@ + decimal(n.start_byte as nat) + "-"@ + decimal(n.end_byte as nat)
}

/// The CallSite a `call` node yields (not for method calls).
pub open spec fn py_call_here(n: SyntaxNode, caller: Seq<char>) -> Out {
    if n.kind@ == "call"@ {
        match field_index(n.children@, "function"@) {
            Some(i) => {
                let callee = n.children@[i].text@;
                if callee.len() == 0 || callee.contains('.') {
                    no_out()
                } else {
                    let line = spec_line(n.start_row);
                    let id = py_call_id(caller, n);
                    one(
                        NodeOut { label: "CallSite"@, name: callee, qn: id, start: line, end: line, vis: Seq::empty(),
                            props: seq![("callee_name"@, callee), ("caller_qn"@, caller)] },
                        rf("Defines"@, caller, id),
                    )
                }
            },
            None => no_out(),
        }
    } else {
        no_out()
    }
}

/// The call sites under `n`: the node, then its children last to first.
pub open spec fn py_call_sites(n: SyntaxNode, caller: Seq<char>) -> Out
    decreases n,
{
    cat(py_call_here(n, caller), py_call_sites_rev(n.children@, caller))
}

pub open spec fn py_call_sites_rev(s: Seq<SyntaxNode>, caller: Seq<char>) -> Out
    decreases s,
{
    if s.len() == 0 {
        no_out()
    } else {
        cat(py_call_sites(s.last(), caller), py_call_sites_rev(s.drop_last(), caller))
    }
}

pub open spec fn py_body_calls(n: SyntaxNode, caller: Seq<char>) -> Out {
    match field_index(n.children@, "body"@) {
        Some(i) => py_call_sites(n.children@[i], caller),
        None => no_out(),
    }
}

/// The properties of a function or method.
pub open spec fn fn_props(is_async: bool, decorators: Seq<Seq<char>>, class: Option<Seq<char>>) -> Seq<(Seq<char>, Seq<char>)> {
    let a = seq![("is_async"@, bool_text(is_async))];
    let b = if decorators.len() == 0 { a } else { a.push(("decorators"@, seq_join(decorators, seq![',']))) };
    match class {
        Some(c) => b.push(("receiver_type"@, c)),
        None => b,
    }
}

/// A `def`: a method of `class` when there is one, else a function.
pub open spec fn py_function(n: SyntaxNode, scope: Seq<char>, class: Option<Seq<char>>, decorators: Seq<Seq<char>>,
    seen: Set<Seq<char>>) -> St
{
    let name = field_text(n, "name"@);
    if name.len() == 0 {
        (no_out(), seen)
    } else {
        let start = spec_line(n.start_row);
        let qn = dedup(seen, spec_qual(scope, name), start);
        let node = NodeOut {
            label: if class is Some { "Method"@ } else { "Function"@ },
            name,
            qn,
            start,
            end: spec_line(n.end_row),
            vis: spec_python_visibility(name),
            props: fn_props(seq_starts_with(n.text@, "async "@), decorators, class),
        };
        (cat(one(node, rf(if class is Some { "HasMethod"@ } else { "Defines"@ }, scope, qn)), py_body_calls(n, qn)),
            seen.insert(qn))
    }
}

/// The base classes named among `s` (identifiers and attributes), dots
/// written `::`.
pub open spec fn base_list(s: Seq<SyntaxNode>) -> Seq<Seq<char>>
    decreases s.len(),
{
    if s.len() == 0 {
        Seq::empty()
    } else {
        let c = s.last();
        if (c.kind@ == "identifier"@ || c.kind@ == "attribute"@) && c.text@.len() > 0 {
            base_list(s.drop_last()).push(dots_to_colons(c.text@))
        } else {
            base_list(s.drop_last())
        }
    }
}

pub open spec fn py_bases(n: SyntaxNode) -> Seq<Seq<char>> {
    match field_index(n.children@, "superclasses"@) {
        Some(i) => base_list(n.children@[i].children@),
        None => Seq::empty(),
    }
}

/// `s` without its leading `c`s.
pub open spec fn strip_leading(s: Seq<char>, c: char) -> Seq<char>
    decreases s.len(),
{
    if s.len() > 0 && s[0] == c { strip_leading(s.drop_first(), c) } else { s }
}

/// The decorators among `s`: each one's text without its `@`, trimmed.
pub open spec fn decorator_texts(s: Seq<SyntaxNode>) -> Seq<Seq<char>>
    decreases s.len(),
{
    if s.len() == 0 {
        Seq::empty()
    } else if s.last().kind@ == "decorator"@ {
        decorator_texts(s.drop_last()).push(spec_trim(strip_leading(s.last().text@, '@')))
    } else {
        decorator_texts(s.drop_last())
    }
}

/// The index of the last node of `s` of kind `k`.
pub open spec fn last_kind_index(s: Seq<SyntaxNode>, k: Seq<char>) -> Option<int>
    decreases s.len(),
{
    if s.len() == 0 {
        None
    } else if s.last().kind@ == k {
        Some(s.len() - 1)
    } else {
        last_kind_index(s.drop_last(), k)
    }
}

pub proof fn lemma_last_kind_index(s: Seq<SyntaxNode>, k: Seq<char>)
    ensures
        last_kind_index(s, k) matches Some(i) ==> 0 <= i < s.len() && s[i].kind@ == k,
    decreases s.len(),
{
    if s.len() > 0 {
        lemma_last_kind_index(s.drop_last(), k);
    }
}

/// An Import with no visibility at the lines of statement `n`.
pub open spec fn py_import_out(path: Seq<char>, alias: Seq<char>, glob: bool, scope: Seq<char>, n: SyntaxNode) -> Out {
    if path.len() == 0 {
        no_out()
    } else {
        let d = spec_import_display(path, alias, glob);
        let qn = spec_qual(scope, d);
        one(sym_py("Import"@, d, qn, n, seq![("path"@, path), ("alias"@, alias), ("is_glob"@, bool_text(glob))]),
            rf("Defines"@, scope, qn))
    }
}

/// A symbol without visibility spanning the lines of `n`.
pub open spec fn sym_py(label: Seq<char>, name: Seq<char>, qn: Seq<char>, n: SyntaxNode,
    props: Seq<(Seq<char>, Seq<char>)>) -> NodeOut
{
    NodeOut { label, name, qn, start: spec_line(n.start_row), end: spec_line(n.end_row), vis: Seq::empty(), props }
}

/// What one child of an `import` statement yields.
pub open spec fn import_child(c: SyntaxNode, scope: Seq<char>, n: SyntaxNode) -> Out {
    if c.kind@ == "dotted_name"@ {
        py_import_out(dots_to_colons(c.text@), Seq::empty(), false, scope, n)
    } else if c.kind@ == "aliased_import"@ {
        py_import_out(dots_to_colons(field_text(c, "name"@)), field_text(c, "alias"@), false, scope, n)
    } else {
        no_out()
    }
}

pub open spec fn import_list(s: Seq<SyntaxNode>, scope: Seq<char>, n: SyntaxNode) -> Out
    decreases s.len(),
{
    if s.len() == 0 { no_out() } else { cat(import_list(s.drop_last(), scope, n), import_child(s.last(), scope, n)) }
}

/// `module::name`, or `name` when the module is empty.
pub open spec fn in_module(module: Seq<char>, name: Seq<char>) -> Seq<char> {
    if module.len() == 0 { name } else { spec_qual(module, name) }
}

/// What child `j` of a `from … import` statement yields.
pub open spec fn from_child(n: SyntaxNode, j: int, module: Seq<char>, scope: Seq<char>) -> Out {
    let c = n.children@[j];
    if c.kind@ == "dotted_name"@ || c.kind@ == "identifier"@ {
        if field_index(n.children@, "module_name"@) == Some(j) {
            no_out()
        } else {
            py_import_out(in_module(module, c.text@), Seq::empty(), false, scope, n)
        }
    } else if c.kind@ == "aliased_import"@ {
        py_import_out(in_module(module, field_text(c, "name"@)), field_text(c, "alias"@), false, scope, n)
    } else {
        no_out()
    }
}

pub open spec fn from_children(n: SyntaxNode, k: int, module: Seq<char>, scope: Seq<char>) -> Out
    decreases k,
{
    if k <= 0 { no_out() } else { cat(from_children(n, k - 1, module, scope), from_child(n, k - 1, module, scope)) }
}

/// A `from … import` statement: one glob import of the module, or one
/// import per imported name.
pub open spec fn py_import_from(n: SyntaxNode, scope: Seq<char>) -> Out {
    let module = dots_to_colons(field_text(n, "module_name"@));
    if has_child_kind(n, "wildcard_import"@) {
        py_import_out(module, Seq::empty(), true, scope, n)
    } else {
        from_children(n, n.children@.len() as int, module, scope)
    }
}

/// An UPPER_SNAKE assignment to a plain identifier.
pub open spec fn constant_child(c: SyntaxNode, scope: Seq<char>) -> Out {
    if c.kind@ != "assignment"@ {
        no_out()
    } else {
        match field_index(c.children@, "left"@) {
            Some(i) => {
                let name = c.children@[i].text@;
                if c.children@[i].kind@ == "identifier"@ && spec_is_upper_snake_case(name) {
                    let qn = spec_qual(scope, name);
                    one(sym_py("Constant"@, name, qn, c, seq![("type_annotation"@, field_text(c, "type"@))]),
                        rf("Defines"@, scope, qn))
                } else {
                    no_out()
                }
            },
            None => no_out(),
        }
    }
}

pub open spec fn constant_list(s: Seq<SyntaxNode>, scope: Seq<char>) -> Out
    decreases s.len(),
{
    if s.len() == 0 { no_out() } else { cat(constant_list(s.drop_last(), scope), constant_child(s.last(), scope)) }
}

/// A class: a Struct, its base classes, and what its body holds.
pub open spec fn py_class(n: SyntaxNode, scope: Seq<char>, seen: Set<Seq<char>>) -> St
    decreases n, 0int,
{
    let name = field_text(n, "name"@);
    if name.len() == 0 {
        (no_out(), seen)
    } else {
        let qn = spec_qual(scope, name);
        let head = cat(
            one(NodeOut { label: "Struct"@, name, qn, start: spec_line(n.start_row), end: spec_line(n.end_row),
                    vis: spec_python_visibility(name), props: Seq::empty() },
                rf("Defines"@, scope, qn)),
            extends_refs(qn, py_bases(n)),
        );
        match field_index(n.children@, "body"@) {
            Some(i) => {
                proof { lemma_field_index(n.children@, "body"@); }
                let b = py_list(n.children@[i].children@, qn, Some(qn), seen);
                (cat(head, b.0), b.1)
            },
            None => (head, seen),
        }
    }
}

/// What one statement of a module or class body yields.
pub open spec fn py_item(n: SyntaxNode, scope: Seq<char>, class: Option<Seq<char>>, seen: Set<Seq<char>>) -> St
    decreases n, 1int,
{
    let k = n.kind@;
    if k == "function_definition"@ {
        py_function(n, scope, class, Seq::empty(), seen)
    } else if k == "class_definition"@ {
        py_class(n, scope, seen)
    } else if k == "import_statement"@ {
        (import_list(n.children@, scope, n), seen)
    } else if k == "import_from_statement"@ {
        (py_import_from(n, scope), seen)
    } else if k == "decorated_definition"@ {
        match kind_index(n.children@, "class_definition"@) {
            Some(c) => {
                proof { lemma_kind_index(n.children@, "class_definition"@); }
                py_class(n.children@[c], scope, seen)
            },
            None => match last_kind_index(n.children@, "function_definition"@) {
                Some(f) => py_function(n.children@[f], scope, class, decorator_texts(n.children@), seen),
                None => (no_out(), seen),
            },
        }
    } else if k == "expression_statement"@ && class is None {
        (constant_list(n.children@, scope), seen)
    } else {
        (no_out(), seen)
    }
}

pub open spec fn py_list(s: Seq<SyntaxNode>, scope: Seq<char>, class: Option<Seq<char>>, seen: Set<Seq<char>>) -> St
    decreases s, 0int,
{
    if s.len() == 0 {
        (no_out(), seen)
    } else {
        let p = py_list(s.drop_last(), scope, class, seen);
        let q = py_item(s.last(), scope, class, p.1);
        (cat(p.0, q.0), q.1)
    }
}

/// What a whole file yields.
pub open spec fn python_file_out(root: SyntaxNode, file: Seq<char>) -> Out {
    py_list(root.children@, file, None, Set::empty()).0
}

// ---------------------------------------------------------------------------
// Extraction
// ---------------------------------------------------------------------------

/// The emissions so far and the qualified names used.
pub struct PyCtx {
    pub em: Emitted,
    pub reg: QnRegistry,
}

pub open spec fn opt_chars(o: Option<&str>) -> Option<Seq<char>> {
    match o {
        Some(c) => Some(c@),
        None => None,
    }
}

fn ex_dots(s: &str) -> (r: String)
    ensures
        r@ == dots_to_colons(s@),
{
    let cs = chars_of(s);
    let mut out: Vec<char> = Vec::new();
    let mut i: usize = 0;
    while i < cs.len()
        invariant
            i <= cs@.len(),
            cs@ == s@,
            out@ == dots_to_colons(cs@.take(i as int)),
        decreases cs@.len() - i,
    {
        proof {
            assert(cs@.take(i + 1).drop_last() =~= cs@.take(i as int));
            assert(cs@.take(i + 1).last() == cs@[i as int]);
        }
        if cs[i] == '.' {
            out.push(':');
            out.push(':');
        } else {
            out.push(cs[i]);
        }
        assert(out@ =~= dots_to_colons(cs@.take(i + 1)));
        i += 1;
    }
    assert(cs@.take(cs@.len() as int) =~= cs@);
    string_from_chars(&out)
}

fn bool_str(b: bool) -> (r: &'static str)
    ensures
        r@ == bool_text(b),
{
    if b { "true" } else { "false" }
}

fn ex_py_call_here(em: &mut Emitted, n: &SyntaxNode, caller: &str)
    ensures
        final(em).out() == cat(old(em).out(), py_call_here(*n, caller@)),
{
    proof { lemma_cat_none(old(em).out()); }
    if !str_eq(n.kind.as_str(), "call") {
        return;
    }
    match field_pos(n, "function") {
        None => {},
        Some(i) => {
            let callee = &n.children[i].text;
            let cs = chars_of(callee.as_str());
            if cs.len() == 0 || contains_char(&cs, '.') {
                return;
            }
            let line = line_of(n.start_row);
            let mut id = chars_of(caller);
            append_chars(&mut id, &chars_of("::call@"));
            push_decimal(&mut id, line);
            append_chars(&mut id, &chars_of(":"));
            push_decimal(&mut id, n.start_col);
            append_chars(&mut id, &chars_of("#"));
            push_decimal(&mut id, n.start_byte);
            append_chars(&mut id, &chars_of("-"));
            push_decimal(&mut id, n.end_byte);
            assert(id@ =~= py_call_id(caller@, *n));
            let ids = string_from_chars(&id);
            let mut props: Vec<(String, String)> = Vec::new();
            props.push(prop("callee_name", callee.as_str()));
            props.push(prop("caller_qn", caller));
            assert(prop_views(props@) =~= seq![("callee_name"@, callee@), ("caller_qn"@, caller@)]);
            let empty = String::new();
            let node = mk_node("CallSite", callee.as_str(), ids.as_str(), line, line, empty.as_str(), props);
            em.emit(node, mk_ref("Defines", caller, ids.as_str()));
        },
    }
}

fn ex_py_call_sites(em: &mut Emitted, n: &SyntaxNode, caller: &str)
    ensures
        final(em).out() == cat(old(em).out(), py_call_sites(*n, caller@)),
    decreases n,
{
    ex_py_call_here(em, n, caller);
    let ghost base = em.out();
    let ghost rest = py_call_sites_rev(n.children@, caller@);
    let mut i: usize = n.children.len();
    assert(n.children@.take(i as int) =~= n.children@);
    while i > 0
        invariant
            i <= n.children@.len(),
            rest == py_call_sites_rev(n.children@, caller@),
            cat(em.out(), py_call_sites_rev(n.children@.take(i as int), caller@)) == cat(base, rest),
        decreases i,
    {
        i -= 1;
        let ghost before = em.out();
        ex_py_call_sites(em, &n.children[i], caller);
        proof {
            let t = n.children@.take(i + 1);
            assert(t.drop_last() =~= n.children@.take(i as int));
            assert(t.last() == n.children@[i as int]);
            lemma_cat_assoc(before, py_call_sites(n.children@[i as int], caller@), py_call_sites_rev(n.children@.take(i as int), caller@));
        }
    }
    proof {
        assert(n.children@.take(0) =~= Seq::<SyntaxNode>::empty());
        lemma_cat_none(em.out());
        lemma_cat_assoc(old(em).out(), py_call_here(*n, caller@), rest);
    }
}

fn ex_py_body_calls(em: &mut Emitted, n: &SyntaxNode, caller: &str)
    ensures
        final(em).out() == cat(old(em).out(), py_body_calls(*n, caller@)),
{
    match field_pos(n, "body") {
        Some(i) => ex_py_call_sites(em, &n.children[i], caller),
        None => { proof { lemma_cat_none(old(em).out()); } },
    }
}

fn ex_py_function(cx: &mut PyCtx, n: &SyntaxNode, scope: &str, class: Option<&str>, decorators: &Vec<String>)
    ensures
        ({
            let r = py_function(*n, scope@, opt_chars(class), views(decorators@), old(cx).reg.names());
            &&& final(cx).em.out() == cat(old(cx).em.out(), r.0)
            &&& final(cx).reg.names() == r.1
        }),
{
    let name = exec_field_text(n, "name");
    if str_is_empty(name.as_str()) {
        proof { lemma_cat_none(old(cx).em.out()); }
        return;
    }
    let start = line_of(n.start_row);
    let raw = qual(scope, name.as_str());
    let qn = cx.reg.dedup_qn(raw, start);
    let asy = starts_with(&chars_of(n.text.as_str()), &chars_of("async "));
    let mut props: Vec<(String, String)> = Vec::new();
    props.push(prop("is_async", bool_str(asy)));
    let ghost a = seq![("is_async"@, bool_text(asy))];
    assert(prop_views(props@) =~= a);
    if decorators.len() > 0 {
        let joined = join_strings(decorators, ',');
        let ghost before = prop_views(props@);
        props.push((to_owned_string("decorators"), string_from_chars(&joined)));
        assert(prop_views(props@) =~= before.push(("decorators"@, seq_join(views(decorators@), seq![',']))));
    }
    let ghost b = prop_views(props@);
    match class {
        Some(c) => {
            props.push(prop("receiver_type", c));
            assert(prop_views(props@) =~= b.push(("receiver_type"@, c@)));
        },
        None => {},
    }
    let vis = python_visibility(name.as_str());
    let label = match class { Some(_) => "Method", None => "Function" };
    let kind = match class { Some(_) => "HasMethod", None => "Defines" };
    let node = mk_node(label, name.as_str(), qn.as_str(), start, line_of(n.end_row), vis.as_str(), props);
    let ghost e0 = cx.em.out();
    cx.em.emit(node, mk_ref(kind, scope, qn.as_str()));
    ex_py_body_calls(&mut cx.em, n, qn.as_str());
    proof {
        lemma_cat_assoc(e0, one(node_out(node), RefOut { kind: kind@, from: scope@, to: qn@ }), py_body_calls(*n, qn@));
    }
}

fn ex_base_list(s: &Vec<SyntaxNode>) -> (r: Vec<String>)
    ensures
        views(r@) == base_list(s@),
{
    let mut out: Vec<String> = Vec::new();
    let mut i: usize = 0;
    assert(s@.take(0) =~= Seq::<SyntaxNode>::empty());
    assert(views(out@) =~= Seq::<Seq<char>>::empty());
    while i < s.len()
        invariant
            i <= s@.len(),
            views(out@) == base_list(s@.take(i as int)),
        decreases s@.len() - i,
    {
        let c = &s[i];
        let ghost before = views(out@);
        proof {
            let t = s@.take(i + 1);
            assert(t.drop_last() =~= s@.take(i as int));
            assert(t.last() == s@[i as int]);
        }
        if (str_eq(c.kind.as_str(), "identifier") || str_eq(c.kind.as_str(), "attribute")) && !str_is_empty(c.text.as_str()) {
            let d = ex_dots(c.text.as_str());
            out.push(d);
            assert(views(out@) =~= before.push(dots_to_colons(c.text@)));
        }
        i += 1;
    }
    assert(s@.take(s@.len() as int) =~= s@);
    out
}

fn ex_py_bases(n: &SyntaxNode) -> (r: Vec<String>)
    ensures
        views(r@) == py_bases(*n),
{
    match field_pos(n, "superclasses") {
        Some(i) => ex_base_list(&n.children[i].children),
        None => {
            let r: Vec<String> = Vec::new();
            assert(views(r@) =~= Seq::<Seq<char>>::empty());
            r
        },
    }
}

fn ex_strip_leading(s: &str, c: char) -> (r: String)
    ensures
        r@ == strip_leading(s@, c),
{
    let cs = chars_of(s);
    let mut a: usize = 0;
    assert(cs@.skip(0) =~= cs@);
    while a < cs.len() && cs[a] == c
        invariant
            a <= cs@.len(),
            cs@ == s@,
            strip_leading(s@, c) == strip_leading(cs@.skip(a as int), c),
        decreases cs@.len() - a,
    {
        proof {
            assert(cs@.skip(a as int)[0] == cs@[a as int]);
            assert(cs@.skip(a as int).drop_first() =~= cs@.skip(a + 1));
        }
        a += 1;
    }
    let v = crate::text::slice_to_vec(&cs, a, cs.len());
    assert(v@ =~= cs@.skip(a as int));
    string_from_chars(&v)
}

fn ex_decorator_texts(s: &Vec<SyntaxNode>) -> (r: Vec<String>)
    ensures
        views(r@) == decorator_texts(s@),
{
    let mut out: Vec<String> = Vec::new();
    let mut i: usize = 0;
    assert(s@.take(0) =~= Seq::<SyntaxNode>::empty());
    assert(views(out@) =~= Seq::<Seq<char>>::empty());
    while i < s.len()
        invariant
            i <= s@.len(),
            views(out@) == decorator_texts(s@.take(i as int)),
        decreases s@.len() - i,
    {
        let c = &s[i];
        let ghost before = views(out@);
        proof {
            let t = s@.take(i + 1);
            assert(t.drop_last() =~= s@.take(i as int));
            assert(t.last() == s@[i as int]);
        }
        if str_eq(c.kind.as_str(), "decorator") {
            let stripped = ex_strip_leading(c.text.as_str(), '@');
            let d = trim(stripped.as_str());
            out.push(d);
            assert(views(out@) =~= before.push(spec_trim(strip_leading(c.text@, '@'))));
        }
        i += 1;
    }
    assert(s@.take(s@.len() as int) =~= s@);
    out
}

fn ex_last_kind_pos(s: &Vec<SyntaxNode>, k: &str) -> (r: Option<usize>)
    ensures
        match r {
            Some(i) => last_kind_index(s@, k@) == Some(i as int) && i < s@.len(),
            None => last_kind_index(s@, k@) is None,
        },
{
    let mut i: usize = s.len();
    assert(s@.take(i as int) =~= s@);
    while i > 0
        invariant
            i <= s@.len(),
            last_kind_index(s@, k@) == last_kind_index(s@.take(i as int), k@),
        decreases i,
    {
        proof {
            assert(s@.take(i as int).last() == s@[i - 1]);
            assert(s@.take(i as int).drop_last() =~= s@.take(i - 1));
        }
        if str_eq(s[i - 1].kind.as_str(), k) {
            return Some(i - 1);
        }
        i -= 1;
    }
    None
}

fn ex_py_import_out(em: &mut Emitted, path: &str, alias: &str, glob: bool, scope: &str, n: &SyntaxNode)
    ensures
        final(em).out() == cat(old(em).out(), py_import_out(path@, alias@, glob, scope@, *n)),
{
    let empty = String::new();
    match crate::parser::naming::import_node(scope, path, alias, glob, line_of(n.start_row), line_of(n.end_row), empty.as_str()) {
        Some((node, edge)) => {
            em.emit(node, edge);
            proof {
                let d = spec_import_display(path@, alias@, glob);
                assert(node_out(node).props =~= seq![("path"@, path@), ("alias"@, alias@), ("is_glob"@, bool_text(glob))]);
                assert(node_out(node) == sym_py("Import"@, d, spec_qual(scope@, d), *n,
                    seq![("path"@, path@), ("alias"@, alias@), ("is_glob"@, bool_text(glob))]));
            }
        },
        None => { proof { lemma_cat_none(old(em).out()); } },
    }
}

fn ex_import_list(em: &mut Emitted, n: &SyntaxNode, scope: &str)
    ensures
        final(em).out() == cat(old(em).out(), import_list(n.children@, scope@, *n)),
{
    let s = &n.children;
    proof { lemma_cat_none(old(em).out()); }
    assert(s@.take(0) =~= Seq::<SyntaxNode>::empty());
    let mut i: usize = 0;
    while i < s.len()
        invariant
            i <= s@.len(),
            s@ == n.children@,
            em.out() == cat(old(em).out(), import_list(s@.take(i as int), scope@, *n)),
        decreases s@.len() - i,
    {
        let c = &s[i];
        let ghost before = em.out();
        if str_eq(c.kind.as_str(), "dotted_name") {
            let path = ex_dots(c.text.as_str());
            let empty = String::new();
            ex_py_import_out(em, path.as_str(), empty.as_str(), false, scope, n);
        } else if str_eq(c.kind.as_str(), "aliased_import") {
            let name = exec_field_text(c, "name");
            let path = ex_dots(name.as_str());
            let alias = exec_field_text(c, "alias");
            ex_py_import_out(em, path.as_str(), alias.as_str(), false, scope, n);
        } else {
            proof { lemma_cat_none(before); }
        }
        proof {
            let t = s@.take(i + 1);
            assert(t.drop_last() =~= s@.take(i as int));
            assert(t.last() == s@[i as int]);
            lemma_cat_assoc(old(em).out(), import_list(s@.take(i as int), scope@, *n), import_child(s@[i as int], scope@, *n));
        }
        i += 1;
    }
    assert(s@.take(s@.len() as int) =~= s@);
}

fn ex_in_module(module: &str, name: &str) -> (r: String)
    ensures
        r@ == in_module(module@, name@),
{
    if str_is_empty(module) { to_owned_string(name) } else { qual(module, name) }
}

fn ex_py_import_from(em: &mut Emitted, n: &SyntaxNode, scope: &str)
    ensures
        final(em).out() == cat(old(em).out(), py_import_from(*n, scope@)),
{
    let mtext = exec_field_text(n, "module_name");
    let module = ex_dots(mtext.as_str());
    if exec_has_child_kind(n, "wildcard_import") {
        let empty = String::new();
        ex_py_import_out(em, module.as_str(), empty.as_str(), true, scope, n);
        return;
    }
    let mpos = field_pos(n, "module_name");
    let s = &n.children;
    proof { lemma_cat_none(old(em).out()); }
    let mut i: usize = 0;
    while i < s.len()
        invariant
            i <= s@.len(),
            s@ == n.children@,
            module@ == dots_to_colons(field_text(*n, "module_name"@)),
            match mpos { Some(m) => field_index(n.children@, "module_name"@) == Some(m as int), None => field_index(n.children@, "module_name"@) is None },
            em.out() == cat(old(em).out(), from_children(*n, i as int, module@, scope@)),
        decreases s@.len() - i,
    {
        let c = &s[i];
        let ghost before = em.out();
        if str_eq(c.kind.as_str(), "dotted_name") || str_eq(c.kind.as_str(), "identifier") {
            let is_module = match mpos { Some(m) => m == i, None => false };
            if is_module {
                proof { lemma_cat_none(before); }
            } else {
                let path = ex_in_module(module.as_str(), c.text.as_str());
                let empty = String::new();
                ex_py_import_out(em, path.as_str(), empty.as_str(), false, scope, n);
            }
        } else if str_eq(c.kind.as_str(), "aliased_import") {
            let name = exec_field_text(c, "name");
            let path = ex_in_module(module.as_str(), name.as_str());
            let alias = exec_field_text(c, "alias");
            ex_py_import_out(em, path.as_str(), alias.as_str(), false, scope, n);
        } else {
            proof { lemma_cat_none(before); }
        }
        proof {
            lemma_cat_assoc(old(em).out(), from_children(*n, i as int, module@, scope@), from_child(*n, i as int, module@, scope@));
        }
        i += 1;
    }
}

fn ex_constant_list(em: &mut Emitted, n: &SyntaxNode, scope: &str)
    ensures
        final(em).out() == cat(old(em).out(), constant_list(n.children@, scope@)),
{
    let s = &n.children;
    proof { lemma_cat_none(old(em).out()); }
    assert(s@.take(0) =~= Seq::<SyntaxNode>::empty());
    let mut i: usize = 0;
    while i < s.len()
        invariant
            i <= s@.len(),
            s@ == n.children@,
            em.out() == cat(old(em).out(), constant_list(s@.take(i as int), scope@)),
        decreases s@.len() - i,
    {
        let c = &s[i];
        let ghost before = em.out();
        let mut done = false;
        if str_eq(c.kind.as_str(), "assignment") {
            match field_pos(c, "left") {
                Some(j) => {
                    let left = &c.children[j];
                    if str_eq(left.kind.as_str(), "identifier") && is_upper_snake_case(left.text.as_str()) {
                        let qn = qual(scope, left.text.as_str());
                        let ty = exec_field_text(c, "type");
                        let mut props: Vec<(String, String)> = Vec::new();
                        props.push(prop("type_annotation", ty.as_str()));
                        assert(prop_views(props@) =~= seq![("type_annotation"@, ty@)]);
                        let empty = String::new();
                        let node = mk_node("Constant", left.text.as_str(), qn.as_str(), line_of(c.start_row), line_of(c.end_row),
                            empty.as_str(), props);
                        em.emit(node, mk_ref("Defines", scope, qn.as_str()));
                        done = true;
                    }
                },
                None => {},
            }
        }
        if !done {
            proof { lemma_cat_none(before); }
        }
        proof {
            let t = s@.take(i + 1);
            assert(t.drop_last() =~= s@.take(i as int));
            assert(t.last() == s@[i as int]);
            lemma_cat_assoc(old(em).out(), constant_list(s@.take(i as int), scope@), constant_child(s@[i as int], scope@));
        }
        i += 1;
    }
    assert(s@.take(s@.len() as int) =~= s@);
}

fn ex_py_class(cx: &mut PyCtx, n: &SyntaxNode, scope: &str)
    ensures
        ({
            let r = py_class(*n, scope@, old(cx).reg.names());
            &&& final(cx).em.out() == cat(old(cx).em.out(), r.0)
            &&& final(cx).reg.names() == r.1
        }),
    decreases n, 0int,
{
    let name = exec_field_text(n, "name");
    if str_is_empty(name.as_str()) {
        proof { lemma_cat_none(old(cx).em.out()); }
        return;
    }
    let qn = qual(scope, name.as_str());
    let vis = python_visibility(name.as_str());
    let props: Vec<(String, String)> = Vec::new();
    assert(prop_views(props@) =~= Seq::empty());
    let node = mk_node("Struct", name.as_str(), qn.as_str(), line_of(n.start_row), line_of(n.end_row), vis.as_str(), props);
    let ghost e0 = cx.em.out();
    cx.em.emit(node, mk_ref("Defines", scope, qn.as_str()));
    let ghost e1 = cx.em.out();
    let bases = ex_py_bases(n);
    let mut k: usize = 0;
    assert(py_bases(*n).take(0) =~= Seq::<Seq<char>>::empty());
    assert(extends_refs(qn@, py_bases(*n).take(0)).refs =~= Seq::<RefOut>::empty());
    proof { lemma_cat_none(e1); }
    while k < bases.len()
        invariant
            k <= bases@.len(),
            views(bases@) == py_bases(*n),
            cx.reg.names() == old(cx).reg.names(),
            cx.em.out() == cat(e1, extends_refs(qn@, py_bases(*n).take(k as int))),
        decreases bases@.len() - k,
    {
        cx.em.emit_ref(mk_ref("Extends", qn.as_str(), bases[k].as_str()));
        proof {
            assert(views(bases@)[k as int] == bases@[k as int]@);
            assert(cx.em.out().nodes =~= cat(e1, extends_refs(qn@, py_bases(*n).take(k + 1))).nodes);
            assert(cx.em.out().refs =~= cat(e1, extends_refs(qn@, py_bases(*n).take(k + 1))).refs);
        }
        k += 1;
    }
    assert(py_bases(*n).take(bases@.len() as int) =~= py_bases(*n));
    let ghost head = cat(one(node_out(node), RefOut { kind: "Defines"@, from: scope@, to: qn@ }), extends_refs(qn@, py_bases(*n)));
    proof { lemma_cat_assoc(e0, one(node_out(node), RefOut { kind: "Defines"@, from: scope@, to: qn@ }), extends_refs(qn@, py_bases(*n))); }
    match field_pos(n, "body") {
        Some(i) => {
            let ghost e2 = cx.em.out();
            ex_py_list(cx, &n.children[i].children, qn.as_str(), Some(qn.as_str()));
            proof {
                let b = py_list(n.children@[i as int].children@, qn@, Some(qn@), old(cx).reg.names());
                lemma_cat_assoc(e0, head, b.0);
            }
        },
        None => {},
    }
}

fn ex_py_item(cx: &mut PyCtx, n: &SyntaxNode, scope: &str, class: Option<&str>)
    ensures
        ({
            let r = py_item(*n, scope@, opt_chars(class), old(cx).reg.names());
            &&& final(cx).em.out() == cat(old(cx).em.out(), r.0)
            &&& final(cx).reg.names() == r.1
        }),
    decreases n, 1int,
{
    let k = n.kind.as_str();
    if str_eq(k, "function_definition") {
        let none: Vec<String> = Vec::new();
        assert(views(none@) =~= Seq::<Seq<char>>::empty());
        ex_py_function(cx, n, scope, class, &none);
    } else if str_eq(k, "class_definition") {
        ex_py_class(cx, n, scope);
    } else if str_eq(k, "import_statement") {
        ex_import_list(&mut cx.em, n, scope);
    } else if str_eq(k, "import_from_statement") {
        ex_py_import_from(&mut cx.em, n, scope);
    } else if str_eq(k, "decorated_definition") {
        match kind_pos(n, "class_definition") {
            Some(c) => ex_py_class(cx, &n.children[c], scope),
            None => {
                match ex_last_kind_pos(&n.children, "function_definition") {
                    Some(f) => {
                        let decorators = ex_decorator_texts(&n.children);
                        ex_py_function(cx, &n.children[f], scope, class, &decorators);
                    },
                    None => { proof { lemma_cat_none(old(cx).em.out()); } },
                }
            },
        }
    } else if str_eq(k, "expression_statement") && class.is_none() {
        ex_constant_list(&mut cx.em, n, scope);
    } else {
        proof { lemma_cat_none(old(cx).em.out()); }
    }
}

fn ex_py_list(cx: &mut PyCtx, s: &Vec<SyntaxNode>, scope: &str, class: Option<&str>)
    ensures
        ({
            let r = py_list(s@, scope@, opt_chars(class), old(cx).reg.names());
            &&& final(cx).em.out() == cat(old(cx).em.out(), r.0)
            &&& final(cx).reg.names() == r.1
        }),
    decreases s, 0int,
{
    proof { lemma_cat_none(old(cx).em.out()); }
    assert(s@.take(0) =~= Seq::<SyntaxNode>::empty());
    let mut i: usize = 0;
    while i < s.len()
        invariant
            i <= s@.len(),
            ({
                let r = py_list(s@.take(i as int), scope@, opt_chars(class), old(cx).reg.names());
                &&& cx.em.out() == cat(old(cx).em.out(), r.0)
                &&& cx.reg.names() == r.1
            }),
        decreases s@.len() - i,
    {
        let ghost before = cx.em.out();
        ex_py_item(cx, &s[i], scope, class);
        proof {
            let t = s@.take(i + 1);
            assert(t.drop_last() =~= s@.take(i as int));
            assert(t.last() == s@[i as int]);
            let p = py_list(s@.take(i as int), scope@, opt_chars(class), old(cx).reg.names());
            let q = py_item(s@[i as int], scope@, opt_chars(class), p.1);
            lemma_cat_assoc(old(cx).em.out(), p.0, q.0);
        }
        i += 1;
    }
    assert(s@.take(s@.len() as int) =~= s@);
}

/// The symbols and references of one Python file, read off its syntax
/// tree.
pub fn extract_python(root: &SyntaxNode, file_path: &str) -> (r: ParseResult)
    ensures
        result_out(r) == python_file_out(*root, file_path@),
{
    let mut cx = PyCtx { em: Emitted::new(), reg: QnRegistry::new() };
    ex_py_list(&mut cx, &root.children, file_path, None);
    proof { lemma_cat_none(python_file_out(*root, file_path@)); }
    ParseResult { nodes: cx.em.nodes, refs: cx.em.refs }
}

/// Parses one `.py` file and extracts its symbols and relationships.
/// The symbols are those the grammar's tree yields; when no tree comes back
/// (the parse ran past its time limit), the error; when tree-sitter
/// refuses the grammar, its message after `failed to set … language: `.
pub fn parse_python_file(source: &str, file_path: &str) -> (r: Result<ParseResult, String>)
    ensures
        match r {
            Ok(p) => python_syntax(source@) matches Some(t) && result_out(p) == python_file_out(t, file_path@),
            Err(e) => e@ == NO_TREE@ || is_refusal("Python "@, e@),
        },
{
    match parse_python_syntax(source) {
        Ok(Some(tree)) => Ok(extract_python(&tree, file_path)),
        Ok(None) => Err(to_owned_string(NO_TREE)),
        Err(detail) => Err(language_refused_message("Python ", detail.as_str())),
    }
}

} // verus!
