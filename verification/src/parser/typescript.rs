//! The TypeScript front end: what one `.ts`/`.tsx` file's syntax tree
//! yields. Classes are recorded as structs, interfaces as traits; exported
//! declarations (inside `export`, or right after an `export` keyword) are
//! `pub`. Arrow functions bound by `const`/`let` are functions, other
//! `const` bindings constants.

use vstd::prelude::*;
use crate::text::{chars_of, str_eq, str_is_empty, to_owned_string, string_from_chars, starts_with,
    seq_starts_with, slice_to_vec};
use crate::parser::{append_chars, qual, spec_qual, ParseResult};
use crate::parser::naming::{bool_text, spec_import_display, import_node};
use crate::parser::grammars::{parse_typescript_syntax, typescript_syntax};
use crate::parser::rust::{rf, result_out, body_calls, ex_body_calls};
use crate::parser::syntax::{is_refusal, language_refused_message, SyntaxNode, Out, NodeOut, RefOut, Emitted, no_out, cat, one, spec_line, line_of,
    field_index, field_pos, field_text, exec_field_text, kind_text, exec_kind_text, node_out, prop_views,
    lemma_cat_assoc, lemma_cat_none, prop, mk_node, mk_ref};

verus! {

/// What a parse that yields no tree reports.
pub const TS_NO_TREE: &'static str = "tree-sitter parse returned None";

/// `"pub"` for an exported declaration, else empty.
pub open spec fn export_vis(exported: bool) -> Seq<char> {
    if exported { "pub"@ } else { Seq::empty() }
}

/// The node's text starts with `async `.
pub open spec fn has_async_kw(n: SyntaxNode) -> bool {
    seq_starts_with(n.text@, "async "@)
}

/// A symbol spanning the lines of `n`.
pub open spec fn sym_ts(label: Seq<char>, name: Seq<char>, qn: Seq<char>, n: SyntaxNode, vis: Seq<char>,
    props: Seq<(Seq<char>, Seq<char>)>) -> NodeOut
{
    NodeOut { label, name, qn, start: spec_line(n.start_row), end: spec_line(n.end_row), vis, props }
}

/// A function declaration with its call sites.
pub open spec fn ts_function(n: SyntaxNode, scope: Seq<char>, exported: bool) -> Out {
    let name = field_text(n, "name"@);
    if name.len() == 0 {
        no_out()
    } else {
        let qn = spec_qual(scope, name);
        cat(one(sym_ts("Function"@, name, qn, n, export_vis(exported), seq![("is_async"@, bool_text(has_async_kw(n)))]),
                rf("Defines"@, scope, qn)),
            body_calls(n, qn))
    }
}

/// The reference one child of a heritage clause yields.
pub open spec fn clause_ref(d: SyntaxNode, cqn: Seq<char>, kind: Seq<char>) -> Seq<RefOut> {
    if (d.kind@ == "identifier"@ || d.kind@ == "type_identifier"@) && d.text@.len() > 0 {
        seq![rf(kind, cqn, d.text@)]
    } else if d.kind@ == "generic_type"@ && field_index(d.children@, "name"@) is Some && field_text(d, "name"@).len() > 0 {
        seq![rf(kind, cqn, field_text(d, "name"@))]
    } else {
        Seq::empty()
    }
}

pub open spec fn clause_refs(s: Seq<SyntaxNode>, cqn: Seq<char>, kind: Seq<char>) -> Seq<RefOut>
    decreases s.len(),
{
    if s.len() == 0 { Seq::empty() } else { clause_refs(s.drop_last(), cqn, kind) + clause_ref(s.last(), cqn, kind) }
}

/// The references of one child of a `class_heritage`.
pub open spec fn heritage_part(h: SyntaxNode, cqn: Seq<char>) -> Seq<RefOut> {
    if h.kind@ == "extends_clause"@ {
        clause_refs(h.children@, cqn, "Extends"@)
    } else if h.kind@ == "implements_clause"@ {
        clause_refs(h.children@, cqn, "Implements"@)
    } else {
        Seq::empty()
    }
}

pub open spec fn heritage_parts(s: Seq<SyntaxNode>, cqn: Seq<char>) -> Seq<RefOut>
    decreases s.len(),
{
    if s.len() == 0 { Seq::empty() } else { heritage_parts(s.drop_last(), cqn) + heritage_part(s.last(), cqn) }
}

/// The references of one child of a class: its heritage when it is one.
pub open spec fn class_child_refs(c: SyntaxNode, cqn: Seq<char>) -> Seq<RefOut> {
    if c.kind@ == "class_heritage"@ { heritage_parts(c.children@, cqn) } else { Seq::empty() }
}

pub open spec fn heritage_refs(s: Seq<SyntaxNode>, cqn: Seq<char>) -> Seq<RefOut>
    decreases s.len(),
{
    if s.len() == 0 { Seq::empty() } else { heritage_refs(s.drop_last(), cqn) + class_child_refs(s.last(), cqn) }
}

pub open spec fn refs_only(r: Seq<RefOut>) -> Out {
    Out { nodes: Seq::empty(), refs: r }
}

/// A member's accessibility modifier, or empty.
pub open spec fn member_vis(n: SyntaxNode) -> Seq<char> {
    kind_text(n, "accessibility_modifier"@)
}

/// One member of a class body: a method (with its call sites) or a field.
pub open spec fn class_member(c: SyntaxNode, cqn: Seq<char>) -> Out {
    let name = field_text(c, "name"@);
    if name.len() == 0 {
        no_out()
    } else if c.kind@ == "method_definition"@ {
        let qn = spec_qual(cqn, name);
        cat(one(sym_ts("Method"@, name, qn, c, member_vis(c),
                    seq![("is_async"@, bool_text(has_async_kw(c))), ("receiver_type"@, cqn)]),
                rf("HasMethod"@, cqn, qn)),
            body_calls(c, qn))
    } else if c.kind@ == "public_field_definition"@ {
        let qn = spec_qual(cqn, name);
        one(sym_ts("Field"@, name, qn, c, member_vis(c), seq![("type_annotation"@, field_text(c, "type"@))]),
            rf("HasField"@, cqn, qn))
    } else {
        no_out()
    }
}

pub open spec fn class_members(s: Seq<SyntaxNode>, cqn: Seq<char>) -> Out
    decreases s.len(),
{
    if s.len() == 0 { no_out() } else { cat(class_members(s.drop_last(), cqn), class_member(s.last(), cqn)) }
}

/// The `body` field of `n` when it has one of the kinds `k1`, `k2`.
pub open spec fn body_of_kind(n: SyntaxNode, k1: Seq<char>, k2: Seq<char>) -> Option<SyntaxNode> {
    match field_index(n.children@, "body"@) {
        Some(i) => if n.children@[i].kind@ == k1 || n.children@[i].kind@ == k2 { Some(n.children@[i]) } else { None },
        None => None,
    }
}

/// A class: a Struct, its heritage, its methods and fields.
pub open spec fn ts_class(n: SyntaxNode, scope: Seq<char>, exported: bool) -> Out {
    let name = field_text(n, "name"@);
    if name.len() == 0 {
        no_out()
    } else {
        let qn = spec_qual(scope, name);
        cat(cat(one(sym_ts("Struct"@, name, qn, n, export_vis(exported), Seq::empty()), rf("Defines"@, scope, qn)),
                refs_only(heritage_refs(n.children@, qn))),
            match body_of_kind(n, "class_body"@, "class_body"@) {
                Some(b) => class_members(b.children@, qn),
                None => no_out(),
            })
    }
}

/// The interfaces one `extends_type_clause` child names.
pub open spec fn extends_names(s: Seq<SyntaxNode>, iqn: Seq<char>) -> Seq<RefOut>
    decreases s.len(),
{
    if s.len() == 0 {
        Seq::empty()
    } else {
        let d = s.last();
        extends_names(s.drop_last(), iqn) + if (d.kind@ == "type_identifier"@ || d.kind@ == "identifier"@) && d.text@.len() > 0 {
            seq![rf("Extends"@, iqn, d.text@)]
        } else {
            Seq::empty()
        }
    }
}

pub open spec fn interface_extends(s: Seq<SyntaxNode>, iqn: Seq<char>) -> Seq<RefOut>
    decreases s.len(),
{
    if s.len() == 0 {
        Seq::empty()
    } else {
        interface_extends(s.drop_last(), iqn)
            + if s.last().kind@ == "extends_type_clause"@ { extends_names(s.last().children@, iqn) } else { Seq::empty() }
    }
}

/// One member of an interface body: a method or property signature.
pub open spec fn interface_member(c: SyntaxNode, iqn: Seq<char>) -> Out {
    let name = field_text(c, "name"@);
    if name.len() == 0 {
        no_out()
    } else if c.kind@ == "method_signature"@ {
        let qn = spec_qual(iqn, name);
        one(sym_ts("Method"@, name, qn, c, Seq::empty(), seq![("is_async"@, "false"@), ("receiver_type"@, iqn)]),
            rf("HasMethod"@, iqn, qn))
    } else if c.kind@ == "property_signature"@ {
        let qn = spec_qual(iqn, name);
        one(sym_ts("Field"@, name, qn, c, Seq::empty(), seq![("type_annotation"@, field_text(c, "type"@))]),
            rf("HasField"@, iqn, qn))
    } else {
        no_out()
    }
}

pub open spec fn interface_members(s: Seq<SyntaxNode>, iqn: Seq<char>) -> Out
    decreases s.len(),
{
    if s.len() == 0 { no_out() } else { cat(interface_members(s.drop_last(), iqn), interface_member(s.last(), iqn)) }
}

/// An interface: a Trait, what it extends, its signatures.
pub open spec fn ts_interface(n: SyntaxNode, scope: Seq<char>, exported: bool) -> Out {
    let name = field_text(n, "name"@);
    if name.len() == 0 {
        no_out()
    } else {
        let qn = spec_qual(scope, name);
        cat(cat(one(sym_ts("Trait"@, name, qn, n, export_vis(exported), Seq::empty()), rf("Defines"@, scope, qn)),
                refs_only(interface_extends(n.children@, qn))),
            match body_of_kind(n, "interface_body"@, "object_type"@) {
                Some(b) => interface_members(b.children@, qn),
                None => no_out(),
            })
    }
}

/// One member of an enum body.
pub open spec fn enum_member(c: SyntaxNode, eqn: Seq<char>) -> Out {
    let name = if c.kind@ == "enum_assignment"@ { field_text(c, "name"@) } else { c.text@ };
    if (c.kind@ != "enum_assignment"@ && c.kind@ != "property_identifier"@) || name.len() == 0 {
        no_out()
    } else {
        let qn = spec_qual(eqn, name);
        one(sym_ts("Variant"@, name, qn, c, Seq::empty(), Seq::empty()), rf("HasVariant"@, eqn, qn))
    }
}

pub open spec fn enum_members(s: Seq<SyntaxNode>, eqn: Seq<char>) -> Out
    decreases s.len(),
{
    if s.len() == 0 { no_out() } else { cat(enum_members(s.drop_last(), eqn), enum_member(s.last(), eqn)) }
}

pub open spec fn ts_enum(n: SyntaxNode, scope: Seq<char>, exported: bool) -> Out {
    let name = field_text(n, "name"@);
    if name.len() == 0 {
        no_out()
    } else {
        let qn = spec_qual(scope, name);
        cat(one(sym_ts("Enum"@, name, qn, n, export_vis(exported), Seq::empty()), rf("Defines"@, scope, qn)),
            match body_of_kind(n, "enum_body"@, "enum_body"@) {
                Some(b) => enum_members(b.children@, qn),
                None => no_out(),
            })
    }
}

pub open spec fn ts_type_alias(n: SyntaxNode, scope: Seq<char>, exported: bool) -> Out {
    let name = field_text(n, "name"@);
    if name.len() == 0 {
        no_out()
    } else {
        let qn = spec_qual(scope, name);
        one(sym_ts("TypeAlias"@, name, qn, n, export_vis(exported), seq![("target_type"@, field_text(n, "value"@))]),
            rf("Defines"@, scope, qn))
    }
}

pub open spec fn is_quote(c: char) -> bool {
    c == '\'' || c == '"'
}

pub open spec fn strip_quotes_start(s: Seq<char>) -> Seq<char>
    decreases s.len(),
{
    if s.len() > 0 && is_quote(s[0]) { strip_quotes_start(s.drop_first()) } else { s }
}

pub open spec fn strip_quotes_end(s: Seq<char>) -> Seq<char>
    decreases s.len(),
{
    if s.len() > 0 && is_quote(s.last()) { strip_quotes_end(s.drop_last()) } else { s }
}

/// `s` with each `/` written `::`.
pub open spec fn slashes_to_colons(s: Seq<char>) -> Seq<char>
    decreases s.len(),
{
    if s.len() == 0 {
        Seq::empty()
    } else {
        slashes_to_colons(s.drop_last()) + if s.last() == '/' { seq![':', ':'] } else { seq![s.last()] }
    }
}

/// The module path of an import: its `source` without quotes, `/` as `::`.
pub open spec fn import_module(n: SyntaxNode) -> Seq<char> {
    slashes_to_colons(strip_quotes_end(strip_quotes_start(field_text(n, "source"@))))
}

/// An Import with no visibility at the lines of statement `n`.
pub open spec fn ts_import_out(path: Seq<char>, alias: Seq<char>, glob: bool, scope: Seq<char>, n: SyntaxNode) -> Out {
    if path.len() == 0 {
        no_out()
    } else {
        let d = spec_import_display(path, alias, glob);
        let qn = spec_qual(scope, d);
        one(sym_ts("Import"@, d, qn, n, Seq::empty(), seq![("path"@, path), ("alias"@, alias), ("is_glob"@, bool_text(glob))]),
            rf("Defines"@, scope, qn))
    }
}

/// One `import_specifier` of a `named_imports` list.
pub open spec fn specifier_out(c: SyntaxNode, module: Seq<char>, scope: Seq<char>, n: SyntaxNode) -> Out {
    if c.kind@ == "import_specifier"@ {
        ts_import_out(module + "::"@ + field_text(c, "name"@), field_text(c, "alias"@), false, scope, n)
    } else {
        no_out()
    }
}

pub open spec fn specifiers_out(s: Seq<SyntaxNode>, module: Seq<char>, scope: Seq<char>, n: SyntaxNode) -> Out
    decreases s.len(),
{
    if s.len() == 0 { no_out() } else { cat(specifiers_out(s.drop_last(), module, scope, n), specifier_out(s.last(), module, scope, n)) }
}

/// The alias of a namespace import: its `name` field, else its first
/// identifier child.
pub open spec fn namespace_alias(c: SyntaxNode) -> Seq<char> {
    match field_index(c.children@, "name"@) {
        Some(i) => c.children@[i].text@,
        None => kind_text(c, "identifier"@),
    }
}

/// One child of an `import_clause`.
pub open spec fn clause_part(c: SyntaxNode, module: Seq<char>, scope: Seq<char>, n: SyntaxNode) -> Out {
    if c.kind@ == "identifier"@ {
        ts_import_out(module + "::default"@, c.text@, false, scope, n)
    } else if c.kind@ == "named_imports"@ {
        specifiers_out(c.children@, module, scope, n)
    } else if c.kind@ == "namespace_import"@ {
        ts_import_out(module, namespace_alias(c), true, scope, n)
    } else {
        no_out()
    }
}

pub open spec fn clause_parts(s: Seq<SyntaxNode>, module: Seq<char>, scope: Seq<char>, n: SyntaxNode) -> Out
    decreases s.len(),
{
    if s.len() == 0 { no_out() } else { cat(clause_parts(s.drop_last(), module, scope, n), clause_part(s.last(), module, scope, n)) }
}

pub open spec fn import_children(s: Seq<SyntaxNode>, module: Seq<char>, scope: Seq<char>, n: SyntaxNode) -> Out
    decreases s.len(),
{
    if s.len() == 0 {
        no_out()
    } else {
        cat(import_children(s.drop_last(), module, scope, n),
            if s.last().kind@ == "import_clause"@ { clause_parts(s.last().children@, module, scope, n) } else { no_out() })
    }
}

/// An import statement: its clauses, or a side-effect import of the
/// module when it has none.
pub open spec fn ts_import(n: SyntaxNode, scope: Seq<char>) -> Out {
    let module = import_module(n);
    if exists|i: int| 0 <= i < n.children@.len() && (#[trigger] n.children@[i]).kind@ == "import_clause"@ {
        import_children(n.children@, module, scope, n)
    } else {
        ts_import_out(module, Seq::empty(), false, scope, n)
    }
}

/// One `variable_declarator`: an arrow function, or a constant under
/// `const`.
pub open spec fn var_decl(c: SyntaxNode, scope: Seq<char>, is_const: bool, exported: bool) -> Out {
    let name = field_text(c, "name"@);
    if c.kind@ != "variable_declarator"@ || name.len() == 0 {
        no_out()
    } else {
        let qn = spec_qual(scope, name);
        match field_index(c.children@, "value"@) {
            Some(v) if c.children@[v].kind@ == "arrow_function"@ => {
                let arrow = c.children@[v];
                cat(one(sym_ts("Function"@, name, qn, c, export_vis(exported), seq![("is_async"@, bool_text(has_async_kw(arrow)))]),
                        rf("Defines"@, scope, qn)),
                    body_calls(arrow, qn))
            },
            _ => if is_const {
                one(sym_ts("Constant"@, name, qn, c, export_vis(exported), seq![("type_annotation"@, field_text(c, "type"@))]),
                    rf("Defines"@, scope, qn))
            } else {
                no_out()
            },
        }
    }
}

pub open spec fn var_decls(s: Seq<SyntaxNode>, scope: Seq<char>, is_const: bool, exported: bool) -> Out
    decreases s.len(),
{
    if s.len() == 0 { no_out() } else { cat(var_decls(s.drop_last(), scope, is_const, exported), var_decl(s.last(), scope, is_const, exported)) }
}

pub open spec fn ts_lexical(n: SyntaxNode, scope: Seq<char>, exported: bool) -> Out {
    var_decls(n.children@, scope, seq_starts_with(n.text@, "const "@), exported)
}

/// A declaration, exported or not.
pub open spec fn ts_decl(c: SyntaxNode, scope: Seq<char>, exported: bool) -> Out {
    let k = c.kind@;
    if k == "function_declaration"@ {
        ts_function(c, scope, exported)
    } else if k == "class_declaration"@ {
        ts_class(c, scope, exported)
    } else if k == "interface_declaration"@ {
        ts_interface(c, scope, exported)
    } else if k == "enum_declaration"@ {
        ts_enum(c, scope, exported)
    } else if k == "type_alias_declaration"@ {
        ts_type_alias(c, scope, exported)
    } else {
        no_out()
    }
}

/// The declarations inside an `export` statement.
pub open spec fn export_children(s: Seq<SyntaxNode>, scope: Seq<char>) -> Out
    decreases s.len(),
{
    if s.len() == 0 {
        no_out()
    } else {
        let c = s.last();
        cat(export_children(s.drop_last(), scope),
            if c.kind@ == "lexical_declaration"@ { ts_lexical(c, scope, true) } else { ts_decl(c, scope, true) })
    }
}

/// Child `j` of the program follows an `export` keyword.
pub open spec fn after_export(s: Seq<SyntaxNode>, j: int) -> bool {
    j > 0 && s[j - 1].kind@ == "export"@
}

/// What child `j` of the program yields.
pub open spec fn ts_top_item(s: Seq<SyntaxNode>, j: int, scope: Seq<char>) -> Out {
    let c = s[j];
    let k = c.kind@;
    if k == "import_statement"@ {
        ts_import(c, scope)
    } else if k == "export_statement"@ {
        export_children(c.children@, scope)
    } else if k == "lexical_declaration"@ {
        ts_lexical(c, scope, false)
    } else {
        ts_decl(c, scope, after_export(s, j))
    }
}

pub open spec fn ts_top(s: Seq<SyntaxNode>, k: int, scope: Seq<char>) -> Out
    decreases k,
{
    if k <= 0 { no_out() } else { cat(ts_top(s, k - 1, scope), ts_top_item(s, k - 1, scope)) }
}

/// What a whole file yields.
pub open spec fn typescript_file_out(root: SyntaxNode, file: Seq<char>) -> Out {
    ts_top(root.children@, root.children@.len() as int, file)
}

// ---------------------------------------------------------------------------
// Extraction
// ---------------------------------------------------------------------------

proof fn lemma_refs_cat(a: Out, r1: Seq<RefOut>, r2: Seq<RefOut>)
    ensures
        cat(cat(a, refs_only(r1)), refs_only(r2)) == cat(a, refs_only(r1 + r2)),
        cat(a, refs_only(Seq::empty())) == a,
{
    assert(cat(cat(a, refs_only(r1)), refs_only(r2)).nodes =~= cat(a, refs_only(r1 + r2)).nodes);
    assert(cat(cat(a, refs_only(r1)), refs_only(r2)).refs =~= cat(a, refs_only(r1 + r2)).refs);
    assert(cat(a, refs_only(Seq::empty())).nodes =~= a.nodes);
    assert(cat(a, refs_only(Seq::empty())).refs =~= a.refs);
}

fn bool_str(b: bool) -> (r: &'static str)
    ensures
        r@ == bool_text(b),
{
    if b { "true" } else { "false" }
}

fn vis_str(exported: bool) -> (r: &'static str)
    ensures
        r@ == export_vis(exported),
{
    proof { reveal_strlit(""); }
    if exported { "pub" } else { "" }
}

fn ex_has_async_kw(n: &SyntaxNode) -> (r: bool)
    ensures
        r == has_async_kw(*n),
{
    starts_with(&chars_of(n.text.as_str()), &chars_of("async "))
}

fn emit_one_ref(em: &mut Emitted, kind: &str, from: &str, to: &str)
    ensures
        final(em).out() == cat(old(em).out(), refs_only(seq![rf(kind@, from@, to@)])),
{
    em.emit_ref(mk_ref(kind, from, to));
}

fn ex_clause_refs(em: &mut Emitted, s: &Vec<SyntaxNode>, cqn: &str, kind: &str)
    ensures
        final(em).out() == cat(old(em).out(), refs_only(clause_refs(s@, cqn@, kind@))),
{
    proof { lemma_refs_cat(old(em).out(), Seq::empty(), Seq::empty()); }
    assert(s@.take(0) =~= Seq::<SyntaxNode>::empty());
    let mut i: usize = 0;
    while i < s.len()
        invariant
            i <= s@.len(),
            em.out() == cat(old(em).out(), refs_only(clause_refs(s@.take(i as int), cqn@, kind@))),
        decreases s@.len() - i,
    {
        let d = &s[i];
        let ghost before = em.out();
        proof {
            let t = s@.take(i + 1);
            assert(t.drop_last() =~= s@.take(i as int));
            assert(t.last() == s@[i as int]);
        }
        if (str_eq(d.kind.as_str(), "identifier") || str_eq(d.kind.as_str(), "type_identifier")) && !str_is_empty(d.text.as_str()) {
            emit_one_ref(em, kind, cqn, d.text.as_str());
        } else if str_eq(d.kind.as_str(), "generic_type") {
            match field_pos(d, "name") {
                Some(j) => {
                    if !str_is_empty(d.children[j].text.as_str()) {
                        emit_one_ref(em, kind, cqn, d.children[j].text.as_str());
                    } else {
                        proof { lemma_refs_cat(before, Seq::empty(), Seq::empty()); }
                    }
                },
                None => { proof { lemma_refs_cat(before, Seq::empty(), Seq::empty()); } },
            }
        } else {
            proof { lemma_refs_cat(before, Seq::empty(), Seq::empty()); }
        }
        proof {
            lemma_refs_cat(old(em).out(), clause_refs(s@.take(i as int), cqn@, kind@), clause_ref(s@[i as int], cqn@, kind@));
        }
        i += 1;
    }
    assert(s@.take(s@.len() as int) =~= s@);
}

fn ex_heritage_refs(em: &mut Emitted, s: &Vec<SyntaxNode>, cqn: &str)
    ensures
        final(em).out() == cat(old(em).out(), refs_only(heritage_refs(s@, cqn@))),
{
    proof { lemma_refs_cat(old(em).out(), Seq::empty(), Seq::empty()); }
    assert(s@.take(0) =~= Seq::<SyntaxNode>::empty());
    let mut i: usize = 0;
    while i < s.len()
        invariant
            i <= s@.len(),
            em.out() == cat(old(em).out(), refs_only(heritage_refs(s@.take(i as int), cqn@))),
        decreases s@.len() - i,
    {
        let c = &s[i];
        let ghost before = em.out();
        proof {
            let t = s@.take(i + 1);
            assert(t.drop_last() =~= s@.take(i as int));
            assert(t.last() == s@[i as int]);
        }
        if str_eq(c.kind.as_str(), "class_heritage") {
            let hs = &c.children;
            let mut j: usize = 0;
            assert(hs@.take(0) =~= Seq::<SyntaxNode>::empty());
            proof { lemma_refs_cat(before, Seq::empty(), Seq::empty()); }
            while j < hs.len()
                invariant
                    j <= hs@.len(),
                    hs@ == c.children@,
                    em.out() == cat(before, refs_only(heritage_parts(hs@.take(j as int), cqn@))),
                decreases hs@.len() - j,
            {
                let h = &hs[j];
                let ghost mid = em.out();
                proof {
                    let t = hs@.take(j + 1);
                    assert(t.drop_last() =~= hs@.take(j as int));
                    assert(t.last() == hs@[j as int]);
                }
                if str_eq(h.kind.as_str(), "extends_clause") {
                    ex_clause_refs(em, &h.children, cqn, "Extends");
                } else if str_eq(h.kind.as_str(), "implements_clause") {
                    ex_clause_refs(em, &h.children, cqn, "Implements");
                } else {
                    proof { lemma_refs_cat(mid, Seq::empty(), Seq::empty()); }
                }
                proof {
                    lemma_refs_cat(before, heritage_parts(hs@.take(j as int), cqn@), heritage_part(hs@[j as int], cqn@));
                }
                j += 1;
            }
            assert(hs@.take(hs@.len() as int) =~= hs@);
        } else {
            proof { lemma_refs_cat(before, Seq::empty(), Seq::empty()); }
        }
        proof {
            lemma_refs_cat(old(em).out(), heritage_refs(s@.take(i as int), cqn@), class_child_refs(s@[i as int], cqn@));
        }
        i += 1;
    }
    assert(s@.take(s@.len() as int) =~= s@);
}

fn ex_class_member(em: &mut Emitted, c: &SyntaxNode, cqn: &str)
    ensures
        final(em).out() == cat(old(em).out(), class_member(*c, cqn@)),
{
    let name = exec_field_text(c, "name");
    if str_is_empty(name.as_str()) {
        proof { lemma_cat_none(old(em).out()); }
        return;
    }
    let qn = qual(cqn, name.as_str());
    let vis = exec_kind_text(c, "accessibility_modifier");
    if str_eq(c.kind.as_str(), "method_definition") {
        let asy = ex_has_async_kw(c);
        let mut props: Vec<(String, String)> = Vec::new();
        props.push(prop("is_async", bool_str(asy)));
        props.push(prop("receiver_type", cqn));
        assert(prop_views(props@) =~= seq![("is_async"@, bool_text(asy)), ("receiver_type"@, cqn@)]);
        let node = mk_node("Method", name.as_str(), qn.as_str(), line_of(c.start_row), line_of(c.end_row), vis.as_str(), props);
        let ghost e0 = em.out();
        em.emit(node, mk_ref("HasMethod", cqn, qn.as_str()));
        ex_body_calls(em, c, qn.as_str());
        proof {
            lemma_cat_assoc(e0, one(node_out(node), RefOut { kind: "HasMethod"@, from: cqn@, to: qn@ }), body_calls(*c, qn@));
        }
    } else if str_eq(c.kind.as_str(), "public_field_definition") {
        let ty = exec_field_text(c, "type");
        let mut props: Vec<(String, String)> = Vec::new();
        props.push(prop("type_annotation", ty.as_str()));
        assert(prop_views(props@) =~= seq![("type_annotation"@, ty@)]);
        let node = mk_node("Field", name.as_str(), qn.as_str(), line_of(c.start_row), line_of(c.end_row), vis.as_str(), props);
        em.emit(node, mk_ref("HasField", cqn, qn.as_str()));
    } else {
        proof { lemma_cat_none(old(em).out()); }
    }
}

fn ex_class_members(em: &mut Emitted, s: &Vec<SyntaxNode>, cqn: &str)
    ensures
        final(em).out() == cat(old(em).out(), class_members(s@, cqn@)),
{
    proof { lemma_cat_none(old(em).out()); }
    assert(s@.take(0) =~= Seq::<SyntaxNode>::empty());
    let mut i: usize = 0;
    while i < s.len()
        invariant
            i <= s@.len(),
            em.out() == cat(old(em).out(), class_members(s@.take(i as int), cqn@)),
        decreases s@.len() - i,
    {
        ex_class_member(em, &s[i], cqn);
        proof {
            let t = s@.take(i + 1);
            assert(t.drop_last() =~= s@.take(i as int));
            assert(t.last() == s@[i as int]);
            lemma_cat_assoc(old(em).out(), class_members(s@.take(i as int), cqn@), class_member(s@[i as int], cqn@));
        }
        i += 1;
    }
    assert(s@.take(s@.len() as int) =~= s@);
}

fn ex_body_of_kind(n: &SyntaxNode, k1: &str, k2: &str) -> (r: Option<usize>)
    ensures
        match r {
            Some(i) => i < n.children@.len() && body_of_kind(*n, k1@, k2@) == Some(n.children@[i as int]),
            None => body_of_kind(*n, k1@, k2@) is None,
        },
{
    match field_pos(n, "body") {
        Some(i) => {
            if str_eq(n.children[i].kind.as_str(), k1) || str_eq(n.children[i].kind.as_str(), k2) { Some(i) } else { None }
        },
        None => None,
    }
}

fn ex_ts_class(em: &mut Emitted, n: &SyntaxNode, scope: &str, exported: bool)
    ensures
        final(em).out() == cat(old(em).out(), ts_class(*n, scope@, exported)),
{
    let name = exec_field_text(n, "name");
    if str_is_empty(name.as_str()) {
        proof { lemma_cat_none(old(em).out()); }
        return;
    }
    let qn = qual(scope, name.as_str());
    let props: Vec<(String, String)> = Vec::new();
    assert(prop_views(props@) =~= Seq::empty());
    let node = mk_node("Struct", name.as_str(), qn.as_str(), line_of(n.start_row), line_of(n.end_row), vis_str(exported), props);
    let ghost e0 = em.out();
    em.emit(node, mk_ref("Defines", scope, qn.as_str()));
    ex_heritage_refs(em, &n.children, qn.as_str());
    let ghost members = match body_of_kind(*n, "class_body"@, "class_body"@) {
        Some(b) => class_members(b.children@, qn@),
        None => no_out(),
    };
    match ex_body_of_kind(n, "class_body", "class_body") {
        Some(i) => ex_class_members(em, &n.children[i].children, qn.as_str()),
        None => { proof { lemma_cat_none(em.out()); } },
    }
    proof {
        let head = one(node_out(node), RefOut { kind: "Defines"@, from: scope@, to: qn@ });
        lemma_cat_assoc(e0, head, refs_only(heritage_refs(n.children@, qn@)));
        lemma_cat_assoc(e0, cat(head, refs_only(heritage_refs(n.children@, qn@))), members);
    }
}

fn ex_interface_extends(em: &mut Emitted, s: &Vec<SyntaxNode>, iqn: &str)
    ensures
        final(em).out() == cat(old(em).out(), refs_only(interface_extends(s@, iqn@))),
{
    proof { lemma_refs_cat(old(em).out(), Seq::empty(), Seq::empty()); }
    assert(s@.take(0) =~= Seq::<SyntaxNode>::empty());
    let mut i: usize = 0;
    while i < s.len()
        invariant
            i <= s@.len(),
            em.out() == cat(old(em).out(), refs_only(interface_extends(s@.take(i as int), iqn@))),
        decreases s@.len() - i,
    {
        let c = &s[i];
        let ghost before = em.out();
        proof {
            let t = s@.take(i + 1);
            assert(t.drop_last() =~= s@.take(i as int));
            assert(t.last() == s@[i as int]);
        }
        if str_eq(c.kind.as_str(), "extends_type_clause") {
            let hs = &c.children;
            let mut j: usize = 0;
            assert(hs@.take(0) =~= Seq::<SyntaxNode>::empty());
            proof { lemma_refs_cat(before, Seq::empty(), Seq::empty()); }
            while j < hs.len()
                invariant
                    j <= hs@.len(),
                    hs@ == c.children@,
                    em.out() == cat(before, refs_only(extends_names(hs@.take(j as int), iqn@))),
                decreases hs@.len() - j,
            {
                let d = &hs[j];
                let ghost mid = em.out();
                proof {
                    let t = hs@.take(j + 1);
                    assert(t.drop_last() =~= hs@.take(j as int));
                    assert(t.last() == hs@[j as int]);
                }
                if (str_eq(d.kind.as_str(), "type_identifier") || str_eq(d.kind.as_str(), "identifier")) && !str_is_empty(d.text.as_str()) {
                    emit_one_ref(em, "Extends", iqn, d.text.as_str());
                } else {
                    proof { lemma_refs_cat(mid, Seq::empty(), Seq::empty()); }
                }
                proof {
                    let extra = if (d.kind@ == "type_identifier"@ || d.kind@ == "identifier"@) && d.text@.len() > 0 {
                        seq![rf("Extends"@, iqn@, d.text@)]
                    } else {
                        Seq::<RefOut>::empty()
                    };
                    lemma_refs_cat(before, extends_names(hs@.take(j as int), iqn@), extra);
                }
                j += 1;
            }
            assert(hs@.take(hs@.len() as int) =~= hs@);
        } else {
            proof { lemma_refs_cat(before, Seq::empty(), Seq::empty()); }
        }
        proof {
            let extra = if c.kind@ == "extends_type_clause"@ { extends_names(c.children@, iqn@) } else { Seq::<RefOut>::empty() };
            lemma_refs_cat(old(em).out(), interface_extends(s@.take(i as int), iqn@), extra);
        }
        i += 1;
    }
    assert(s@.take(s@.len() as int) =~= s@);
}

fn ex_interface_member(em: &mut Emitted, c: &SyntaxNode, iqn: &str)
    ensures
        final(em).out() == cat(old(em).out(), interface_member(*c, iqn@)),
{
    let name = exec_field_text(c, "name");
    if str_is_empty(name.as_str()) {
        proof { lemma_cat_none(old(em).out()); }
        return;
    }
    let qn = qual(iqn, name.as_str());
    let empty = String::new();
    if str_eq(c.kind.as_str(), "method_signature") {
        let mut props: Vec<(String, String)> = Vec::new();
        props.push(prop("is_async", "false"));
        props.push(prop("receiver_type", iqn));
        assert(prop_views(props@) =~= seq![("is_async"@, "false"@), ("receiver_type"@, iqn@)]);
        let node = mk_node("Method", name.as_str(), qn.as_str(), line_of(c.start_row), line_of(c.end_row), empty.as_str(), props);
        em.emit(node, mk_ref("HasMethod", iqn, qn.as_str()));
    } else if str_eq(c.kind.as_str(), "property_signature") {
        let ty = exec_field_text(c, "type");
        let mut props: Vec<(String, String)> = Vec::new();
        props.push(prop("type_annotation", ty.as_str()));
        assert(prop_views(props@) =~= seq![("type_annotation"@, ty@)]);
        let node = mk_node("Field", name.as_str(), qn.as_str(), line_of(c.start_row), line_of(c.end_row), empty.as_str(), props);
        em.emit(node, mk_ref("HasField", iqn, qn.as_str()));
    } else {
        proof { lemma_cat_none(old(em).out()); }
    }
}

fn ex_interface_members(em: &mut Emitted, s: &Vec<SyntaxNode>, iqn: &str)
    ensures
        final(em).out() == cat(old(em).out(), interface_members(s@, iqn@)),
{
    proof { lemma_cat_none(old(em).out()); }
    assert(s@.take(0) =~= Seq::<SyntaxNode>::empty());
    let mut i: usize = 0;
    while i < s.len()
        invariant
            i <= s@.len(),
            em.out() == cat(old(em).out(), interface_members(s@.take(i as int), iqn@)),
        decreases s@.len() - i,
    {
        ex_interface_member(em, &s[i], iqn);
        proof {
            let t = s@.take(i + 1);
            assert(t.drop_last() =~= s@.take(i as int));
            assert(t.last() == s@[i as int]);
            lemma_cat_assoc(old(em).out(), interface_members(s@.take(i as int), iqn@), interface_member(s@[i as int], iqn@));
        }
        i += 1;
    }
    assert(s@.take(s@.len() as int) =~= s@);
}

fn ex_ts_interface(em: &mut Emitted, n: &SyntaxNode, scope: &str, exported: bool)
    ensures
        final(em).out() == cat(old(em).out(), ts_interface(*n, scope@, exported)),
{
    let name = exec_field_text(n, "name");
    if str_is_empty(name.as_str()) {
        proof { lemma_cat_none(old(em).out()); }
        return;
    }
    let qn = qual(scope, name.as_str());
    let props: Vec<(String, String)> = Vec::new();
    assert(prop_views(props@) =~= Seq::empty());
    let node = mk_node("Trait", name.as_str(), qn.as_str(), line_of(n.start_row), line_of(n.end_row), vis_str(exported), props);
    let ghost e0 = em.out();
    em.emit(node, mk_ref("Defines", scope, qn.as_str()));
    ex_interface_extends(em, &n.children, qn.as_str());
    let ghost members = match body_of_kind(*n, "interface_body"@, "object_type"@) {
        Some(b) => interface_members(b.children@, qn@),
        None => no_out(),
    };
    match ex_body_of_kind(n, "interface_body", "object_type") {
        Some(i) => ex_interface_members(em, &n.children[i].children, qn.as_str()),
        None => { proof { lemma_cat_none(em.out()); } },
    }
    proof {
        let head = one(node_out(node), RefOut { kind: "Defines"@, from: scope@, to: qn@ });
        lemma_cat_assoc(e0, head, refs_only(interface_extends(n.children@, qn@)));
        lemma_cat_assoc(e0, cat(head, refs_only(interface_extends(n.children@, qn@))), members);
    }
}

fn ex_enum_member(em: &mut Emitted, c: &SyntaxNode, eqn: &str)
    ensures
        final(em).out() == cat(old(em).out(), enum_member(*c, eqn@)),
{
    let is_assign = str_eq(c.kind.as_str(), "enum_assignment");
    let name = if is_assign { exec_field_text(c, "name") } else { to_owned_string(c.text.as_str()) };
    if (!is_assign && !str_eq(c.kind.as_str(), "property_identifier")) || str_is_empty(name.as_str()) {
        proof { lemma_cat_none(old(em).out()); }
        return;
    }
    let qn = qual(eqn, name.as_str());
    let props: Vec<(String, String)> = Vec::new();
    assert(prop_views(props@) =~= Seq::empty());
    let empty = String::new();
    let node = mk_node("Variant", name.as_str(), qn.as_str(), line_of(c.start_row), line_of(c.end_row), empty.as_str(), props);
    em.emit(node, mk_ref("HasVariant", eqn, qn.as_str()));
}

fn ex_enum_members(em: &mut Emitted, s: &Vec<SyntaxNode>, eqn: &str)
    ensures
        final(em).out() == cat(old(em).out(), enum_members(s@, eqn@)),
{
    proof { lemma_cat_none(old(em).out()); }
    assert(s@.take(0) =~= Seq::<SyntaxNode>::empty());
    let mut i: usize = 0;
    while i < s.len()
        invariant
            i <= s@.len(),
            em.out() == cat(old(em).out(), enum_members(s@.take(i as int), eqn@)),
        decreases s@.len() - i,
    {
        ex_enum_member(em, &s[i], eqn);
        proof {
            let t = s@.take(i + 1);
            assert(t.drop_last() =~= s@.take(i as int));
            assert(t.last() == s@[i as int]);
            lemma_cat_assoc(old(em).out(), enum_members(s@.take(i as int), eqn@), enum_member(s@[i as int], eqn@));
        }
        i += 1;
    }
    assert(s@.take(s@.len() as int) =~= s@);
}

fn ex_ts_enum(em: &mut Emitted, n: &SyntaxNode, scope: &str, exported: bool)
    ensures
        final(em).out() == cat(old(em).out(), ts_enum(*n, scope@, exported)),
{
    let name = exec_field_text(n, "name");
    if str_is_empty(name.as_str()) {
        proof { lemma_cat_none(old(em).out()); }
        return;
    }
    let qn = qual(scope, name.as_str());
    let props: Vec<(String, String)> = Vec::new();
    assert(prop_views(props@) =~= Seq::empty());
    let node = mk_node("Enum", name.as_str(), qn.as_str(), line_of(n.start_row), line_of(n.end_row), vis_str(exported), props);
    let ghost e0 = em.out();
    em.emit(node, mk_ref("Defines", scope, qn.as_str()));
    let ghost members = match body_of_kind(*n, "enum_body"@, "enum_body"@) {
        Some(b) => enum_members(b.children@, qn@),
        None => no_out(),
    };
    match ex_body_of_kind(n, "enum_body", "enum_body") {
        Some(i) => ex_enum_members(em, &n.children[i].children, qn.as_str()),
        None => { proof { lemma_cat_none(em.out()); } },
    }
    proof {
        lemma_cat_assoc(e0, one(node_out(node), RefOut { kind: "Defines"@, from: scope@, to: qn@ }), members);
    }
}

fn ex_ts_type_alias(em: &mut Emitted, n: &SyntaxNode, scope: &str, exported: bool)
    ensures
        final(em).out() == cat(old(em).out(), ts_type_alias(*n, scope@, exported)),
{
    let name = exec_field_text(n, "name");
    if str_is_empty(name.as_str()) {
        proof { lemma_cat_none(old(em).out()); }
        return;
    }
    let qn = qual(scope, name.as_str());
    let target = exec_field_text(n, "value");
    let mut props: Vec<(String, String)> = Vec::new();
    props.push(prop("target_type", target.as_str()));
    assert(prop_views(props@) =~= seq![("target_type"@, target@)]);
    let node = mk_node("TypeAlias", name.as_str(), qn.as_str(), line_of(n.start_row), line_of(n.end_row), vis_str(exported), props);
    em.emit(node, mk_ref("Defines", scope, qn.as_str()));
}

fn ex_ts_function(em: &mut Emitted, n: &SyntaxNode, scope: &str, exported: bool)
    ensures
        final(em).out() == cat(old(em).out(), ts_function(*n, scope@, exported)),
{
    let name = exec_field_text(n, "name");
    if str_is_empty(name.as_str()) {
        proof { lemma_cat_none(old(em).out()); }
        return;
    }
    let qn = qual(scope, name.as_str());
    let asy = ex_has_async_kw(n);
    let mut props: Vec<(String, String)> = Vec::new();
    props.push(prop("is_async", bool_str(asy)));
    assert(prop_views(props@) =~= seq![("is_async"@, bool_text(asy))]);
    let node = mk_node("Function", name.as_str(), qn.as_str(), line_of(n.start_row), line_of(n.end_row), vis_str(exported), props);
    let ghost e0 = em.out();
    em.emit(node, mk_ref("Defines", scope, qn.as_str()));
    ex_body_calls(em, n, qn.as_str());
    proof {
        lemma_cat_assoc(e0, one(node_out(node), RefOut { kind: "Defines"@, from: scope@, to: qn@ }), body_calls(*n, qn@));
    }
}

fn ex_import_module(n: &SyntaxNode) -> (r: String)
    ensures
        r@ == import_module(*n),
{
    let src = exec_field_text(n, "source");
    let cs = chars_of(src.as_str());
    let mut a: usize = 0;
    assert(cs@.skip(0) =~= cs@);
    while a < cs.len() && (cs[a] == '\'' || cs[a] == '"')
        invariant
            a <= cs@.len(),
            cs@ == src@,
            strip_quotes_start(src@) == strip_quotes_start(cs@.skip(a as int)),
        decreases cs@.len() - a,
    {
        proof {
            assert(cs@.skip(a as int)[0] == cs@[a as int]);
            assert(cs@.skip(a as int).drop_first() =~= cs@.skip(a + 1));
        }
        a += 1;
    }
    let ghost t = cs@.skip(a as int);
    assert(t.subrange(0, t.len() as int) =~= t);
    let mut b: usize = cs.len();
    while b > a && (cs[b - 1] == '\'' || cs[b - 1] == '"')
        invariant
            a <= b <= cs@.len(),
            t == cs@.skip(a as int),
            strip_quotes_end(t) == strip_quotes_end(cs@.subrange(a as int, b as int)),
        decreases b,
    {
        proof {
            assert(cs@.subrange(a as int, b as int).drop_last() =~= cs@.subrange(a as int, b - 1));
            assert(cs@.subrange(a as int, b as int).last() == cs@[b - 1]);
        }
        b -= 1;
    }
    proof {
        assert(cs@.skip(a as int) =~= cs@.subrange(a as int, cs@.len() as int));
    }
    let inner = slice_to_vec(&cs, a, b);
    let mut out: Vec<char> = Vec::new();
    let mut i: usize = 0;
    while i < inner.len()
        invariant
            i <= inner@.len(),
            inner@ == strip_quotes_end(strip_quotes_start(src@)),
            out@ == slashes_to_colons(inner@.take(i as int)),
        decreases inner@.len() - i,
    {
        proof {
            assert(inner@.take(i + 1).drop_last() =~= inner@.take(i as int));
            assert(inner@.take(i + 1).last() == inner@[i as int]);
        }
        if inner[i] == '/' {
            out.push(':');
            out.push(':');
        } else {
            out.push(inner[i]);
        }
        assert(out@ =~= slashes_to_colons(inner@.take(i + 1)));
        i += 1;
    }
    assert(inner@.take(inner@.len() as int) =~= inner@);
    string_from_chars(&out)
}

fn ex_ts_import_out(em: &mut Emitted, path: &str, alias: &str, glob: bool, scope: &str, n: &SyntaxNode)
    ensures
        final(em).out() == cat(old(em).out(), ts_import_out(path@, alias@, glob, scope@, *n)),
{
    let empty = String::new();
    match import_node(scope, path, alias, glob, line_of(n.start_row), line_of(n.end_row), empty.as_str()) {
        Some((node, edge)) => {
            em.emit(node, edge);
            proof {
                let d = spec_import_display(path@, alias@, glob);
                assert(node_out(node).props =~= seq![("path"@, path@), ("alias"@, alias@), ("is_glob"@, bool_text(glob))]);
                assert(node_out(node) == sym_ts("Import"@, d, spec_qual(scope@, d), *n, Seq::empty(),
                    seq![("path"@, path@), ("alias"@, alias@), ("is_glob"@, bool_text(glob))]));
            }
        },
        None => { proof { lemma_cat_none(old(em).out()); } },
    }
}

fn join_module(module: &str, tail: &str) -> (r: String)
    ensures
        r@ == module@ + tail@,
{
    let mut v = chars_of(module);
    append_chars(&mut v, &chars_of(tail));
    string_from_chars(&v)
}

fn ex_specifiers(em: &mut Emitted, s: &Vec<SyntaxNode>, module: &str, scope: &str, n: &SyntaxNode)
    ensures
        final(em).out() == cat(old(em).out(), specifiers_out(s@, module@, scope@, *n)),
{
    proof { lemma_cat_none(old(em).out()); }
    assert(s@.take(0) =~= Seq::<SyntaxNode>::empty());
    let mut i: usize = 0;
    while i < s.len()
        invariant
            i <= s@.len(),
            em.out() == cat(old(em).out(), specifiers_out(s@.take(i as int), module@, scope@, *n)),
        decreases s@.len() - i,
    {
        let c = &s[i];
        let ghost before = em.out();
        if str_eq(c.kind.as_str(), "import_specifier") {
            let name = exec_field_text(c, "name");
            let sep = join_module(module, "::");
            let path = join_module(sep.as_str(), name.as_str());
            let alias = exec_field_text(c, "alias");
            ex_ts_import_out(em, path.as_str(), alias.as_str(), false, scope, n);
        } else {
            proof { lemma_cat_none(before); }
        }
        proof {
            let t = s@.take(i + 1);
            assert(t.drop_last() =~= s@.take(i as int));
            assert(t.last() == s@[i as int]);
            lemma_cat_assoc(old(em).out(), specifiers_out(s@.take(i as int), module@, scope@, *n), specifier_out(s@[i as int], module@, scope@, *n));
        }
        i += 1;
    }
    assert(s@.take(s@.len() as int) =~= s@);
}

fn ex_clause_parts(em: &mut Emitted, s: &Vec<SyntaxNode>, module: &str, scope: &str, n: &SyntaxNode)
    ensures
        final(em).out() == cat(old(em).out(), clause_parts(s@, module@, scope@, *n)),
{
    proof { lemma_cat_none(old(em).out()); }
    assert(s@.take(0) =~= Seq::<SyntaxNode>::empty());
    let mut i: usize = 0;
    while i < s.len()
        invariant
            i <= s@.len(),
            em.out() == cat(old(em).out(), clause_parts(s@.take(i as int), module@, scope@, *n)),
        decreases s@.len() - i,
    {
        let c = &s[i];
        let ghost before = em.out();
        if str_eq(c.kind.as_str(), "identifier") {
            let path = join_module(module, "::default");
            ex_ts_import_out(em, path.as_str(), c.text.as_str(), false, scope, n);
        } else if str_eq(c.kind.as_str(), "named_imports") {
            ex_specifiers(em, &c.children, module, scope, n);
        } else if str_eq(c.kind.as_str(), "namespace_import") {
            let alias = match field_pos(c, "name") {
                Some(j) => to_owned_string(c.children[j].text.as_str()),
                None => exec_kind_text(c, "identifier"),
            };
            ex_ts_import_out(em, module, alias.as_str(), true, scope, n);
        } else {
            proof { lemma_cat_none(before); }
        }
        proof {
            let t = s@.take(i + 1);
            assert(t.drop_last() =~= s@.take(i as int));
            assert(t.last() == s@[i as int]);
            lemma_cat_assoc(old(em).out(), clause_parts(s@.take(i as int), module@, scope@, *n), clause_part(s@[i as int], module@, scope@, *n));
        }
        i += 1;
    }
    assert(s@.take(s@.len() as int) =~= s@);
}

fn ex_ts_import(em: &mut Emitted, n: &SyntaxNode, scope: &str)
    ensures
        final(em).out() == cat(old(em).out(), ts_import(*n, scope@)),
{
    let module = ex_import_module(n);
    let s = &n.children;
    proof { lemma_cat_none(old(em).out()); }
    assert(s@.take(0) =~= Seq::<SyntaxNode>::empty());
    let mut found = false;
    let mut i: usize = 0;
    while i < s.len()
        invariant
            i <= s@.len(),
            s@ == n.children@,
            module@ == import_module(*n),
            found == exists|j: int| 0 <= j < i && (#[trigger] s@[j]).kind@ == "import_clause"@,
            em.out() == cat(old(em).out(), import_children(s@.take(i as int), module@, scope@, *n)),
        decreases s@.len() - i,
    {
        let c = &s[i];
        let ghost before = em.out();
        if str_eq(c.kind.as_str(), "import_clause") {
            ex_clause_parts(em, &c.children, module.as_str(), scope, n);
            found = true;
        } else {
            proof { lemma_cat_none(before); }
        }
        proof {
            let t = s@.take(i + 1);
            assert(t.drop_last() =~= s@.take(i as int));
            assert(t.last() == s@[i as int]);
            let extra = if s@[i as int].kind@ == "import_clause"@ { clause_parts(s@[i as int].children@, module@, scope@, *n) } else { no_out() };
            lemma_cat_assoc(old(em).out(), import_children(s@.take(i as int), module@, scope@, *n), extra);
        }
        i += 1;
    }
    assert(s@.take(s@.len() as int) =~= s@);
    if !found {
        proof {
            assert(import_children(s@, module@, scope@, *n) == no_out()) by {
                lemma_no_clause(s@, module@, scope@, *n);
            }
            lemma_cat_none(old(em).out());
        }
        let empty = String::new();
        ex_ts_import_out(em, module.as_str(), empty.as_str(), false, scope, n);
    }
}

proof fn lemma_no_clause(s: Seq<SyntaxNode>, module: Seq<char>, scope: Seq<char>, n: SyntaxNode)
    requires
        forall|j: int| 0 <= j < s.len() ==> (#[trigger] s[j]).kind@ != "import_clause"@,
    ensures
        import_children(s, module, scope, n) == no_out(),
    decreases s.len(),
{
    if s.len() > 0 {
        assert forall|j: int| 0 <= j < s.len() - 1 implies (#[trigger] s.drop_last()[j]).kind@ != "import_clause"@ by {
            assert(s.drop_last()[j] == s[j]);
        }
        lemma_no_clause(s.drop_last(), module, scope, n);
        assert(s.last() == s[s.len() - 1]);
        lemma_cat_none(no_out());
    }
}

fn ex_var_decl(em: &mut Emitted, c: &SyntaxNode, scope: &str, is_const: bool, exported: bool)
    ensures
        final(em).out() == cat(old(em).out(), var_decl(*c, scope@, is_const, exported)),
{
    let name = exec_field_text(c, "name");
    if !str_eq(c.kind.as_str(), "variable_declarator") || str_is_empty(name.as_str()) {
        proof { lemma_cat_none(old(em).out()); }
        return;
    }
    let qn = qual(scope, name.as_str());
    let value = field_pos(c, "value");
    let arrow_at: Option<usize> = match value {
        Some(v) => if str_eq(c.children[v].kind.as_str(), "arrow_function") { Some(v) } else { None },
        None => None,
    };
    match arrow_at {
        Some(v) => {
            let arrow = &c.children[v];
            let asy = ex_has_async_kw(arrow);
            let mut props: Vec<(String, String)> = Vec::new();
            props.push(prop("is_async", bool_str(asy)));
            assert(prop_views(props@) =~= seq![("is_async"@, bool_text(asy))]);
            let node = mk_node("Function", name.as_str(), qn.as_str(), line_of(c.start_row), line_of(c.end_row), vis_str(exported), props);
            let ghost e0 = em.out();
            em.emit(node, mk_ref("Defines", scope, qn.as_str()));
            ex_body_calls(em, arrow, qn.as_str());
            proof {
                lemma_cat_assoc(e0, one(node_out(node), RefOut { kind: "Defines"@, from: scope@, to: qn@ }), body_calls(*arrow, qn@));
            }
        },
        None => {
            if is_const {
                let ty = exec_field_text(c, "type");
                let mut props: Vec<(String, String)> = Vec::new();
                props.push(prop("type_annotation", ty.as_str()));
                assert(prop_views(props@) =~= seq![("type_annotation"@, ty@)]);
                let node = mk_node("Constant", name.as_str(), qn.as_str(), line_of(c.start_row), line_of(c.end_row), vis_str(exported), props);
                em.emit(node, mk_ref("Defines", scope, qn.as_str()));
            } else {
                proof { lemma_cat_none(old(em).out()); }
            }
        },
    }
}

fn ex_ts_lexical(em: &mut Emitted, n: &SyntaxNode, scope: &str, exported: bool)
    ensures
        final(em).out() == cat(old(em).out(), ts_lexical(*n, scope@, exported)),
{
    let is_const = starts_with(&chars_of(n.text.as_str()), &chars_of("const "));
    let s = &n.children;
    proof { lemma_cat_none(old(em).out()); }
    assert(s@.take(0) =~= Seq::<SyntaxNode>::empty());
    let mut i: usize = 0;
    while i < s.len()
        invariant
            i <= s@.len(),
            s@ == n.children@,
            is_const == seq_starts_with(n.text@, "const "@),
            em.out() == cat(old(em).out(), var_decls(s@.take(i as int), scope@, is_const, exported)),
        decreases s@.len() - i,
    {
        ex_var_decl(em, &s[i], scope, is_const, exported);
        proof {
            let t = s@.take(i + 1);
            assert(t.drop_last() =~= s@.take(i as int));
            assert(t.last() == s@[i as int]);
            lemma_cat_assoc(old(em).out(), var_decls(s@.take(i as int), scope@, is_const, exported), var_decl(s@[i as int], scope@, is_const, exported));
        }
        i += 1;
    }
    assert(s@.take(s@.len() as int) =~= s@);
}

fn ex_ts_decl(em: &mut Emitted, c: &SyntaxNode, scope: &str, exported: bool)
    ensures
        final(em).out() == cat(old(em).out(), ts_decl(*c, scope@, exported)),
{
    let k = c.kind.as_str();
    if str_eq(k, "function_declaration") {
        ex_ts_function(em, c, scope, exported);
    } else if str_eq(k, "class_declaration") {
        ex_ts_class(em, c, scope, exported);
    } else if str_eq(k, "interface_declaration") {
        ex_ts_interface(em, c, scope, exported);
    } else if str_eq(k, "enum_declaration") {
        ex_ts_enum(em, c, scope, exported);
    } else if str_eq(k, "type_alias_declaration") {
        ex_ts_type_alias(em, c, scope, exported);
    } else {
        proof { lemma_cat_none(old(em).out()); }
    }
}

fn ex_export_children(em: &mut Emitted, s: &Vec<SyntaxNode>, scope: &str)
    ensures
        final(em).out() == cat(old(em).out(), export_children(s@, scope@)),
{
    proof { lemma_cat_none(old(em).out()); }
    assert(s@.take(0) =~= Seq::<SyntaxNode>::empty());
    let mut i: usize = 0;
    while i < s.len()
        invariant
            i <= s@.len(),
            em.out() == cat(old(em).out(), export_children(s@.take(i as int), scope@)),
        decreases s@.len() - i,
    {
        let c = &s[i];
        if str_eq(c.kind.as_str(), "lexical_declaration") {
            ex_ts_lexical(em, c, scope, true);
        } else {
            ex_ts_decl(em, c, scope, true);
        }
        proof {
            let t = s@.take(i + 1);
            assert(t.drop_last() =~= s@.take(i as int));
            assert(t.last() == s@[i as int]);
            let extra = if c.kind@ == "lexical_declaration"@ { ts_lexical(*c, scope@, true) } else { ts_decl(*c, scope@, true) };
            lemma_cat_assoc(old(em).out(), export_children(s@.take(i as int), scope@), extra);
        }
        i += 1;
    }
    assert(s@.take(s@.len() as int) =~= s@);
}

/// The symbols and references of one TypeScript file, read off its syntax
/// tree.
pub fn extract_typescript(root: &SyntaxNode, file_path: &str) -> (r: ParseResult)
    ensures
        result_out(r) == typescript_file_out(*root, file_path@),
{
    let mut em = Emitted::new();
    let s = &root.children;
    let mut i: usize = 0;
    proof { lemma_cat_none(em.out()); }
    while i < s.len()
        invariant
            i <= s@.len(),
            s@ == root.children@,
            em.out() == ts_top(s@, i as int, file_path@),
        decreases s@.len() - i,
    {
        let c = &s[i];
        let k = c.kind.as_str();
        let ghost before = em.out();
        if str_eq(k, "import_statement") {
            ex_ts_import(&mut em, c, file_path);
        } else if str_eq(k, "export_statement") {
            ex_export_children(&mut em, &c.children, file_path);
        } else if str_eq(k, "lexical_declaration") {
            ex_ts_lexical(&mut em, c, file_path, false);
        } else {
            let exported = i > 0 && str_eq(s[i - 1].kind.as_str(), "export");
            ex_ts_decl(&mut em, c, file_path, exported);
        }
        i += 1;
    }
    ParseResult { nodes: em.nodes, refs: em.refs }
}

/// Parses one `.ts`/`.tsx` file and extracts its symbols and
/// relationships.
/// The symbols are those the grammar's tree yields; when no tree comes back
/// (the parse ran past its time limit), the error; when tree-sitter
/// refuses the grammar, its message after `failed to set … language: `.
pub fn parse_typescript_file(source: &str, file_path: &str) -> (r: Result<ParseResult, String>)
    ensures
        match r {
            Ok(p) => typescript_syntax(source@) matches Some(t) && result_out(p) == typescript_file_out(t, file_path@),
            Err(e) => e@ == TS_NO_TREE@ || is_refusal("TypeScript "@, e@),
        },
{
    match parse_typescript_syntax(source) {
        Ok(Some(tree)) => Ok(extract_typescript(&tree, file_path)),
        Ok(None) => Err(to_owned_string(TS_NO_TREE)),
        Err(detail) => Err(language_refused_message("TypeScript ", detail.as_str())),
    }
}

} // verus!
