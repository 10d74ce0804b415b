//! The Rust front end: what one `.rs` file's syntax tree yields. Items are
//! taken in source order; each emits its symbol with a `Defines` (or
//! `HasField`, `HasVariant`, `HasMethod`) reference from its owner, then
//! what it holds. Function and method bodies yield their call sites.

use vstd::prelude::*;
use crate::text::{chars_of, str_eq, str_is_empty, to_owned_string, string_from_chars, contains_char,
    ends_with, seq_ends_with, slice_to_vec};
use crate::parser::{append_chars, qual, spec_qual, ExtractedNode, ExtractedRef, ParseResult};
use crate::parser::naming::{decimal, push_decimal, bool_text, seq_join, views, spec_join_use_path,
    join_use_path, spec_import_display, import_node};
use crate::parser::grammars::{parse_rust_syntax, rust_syntax};
use crate::parser::rust_attrs::{entry_scan, entry_step, pending_derives, pending_step, opt_str, ex_entry_step,
    ex_pending_step};
use crate::parser::naming::implements_props;
use crate::parser::rust_laws::{out_ok, lemma_rust_out_well_formed};
use crate::parser::syntax::{is_refusal, language_refused_message, SyntaxNode, Out, NodeOut, RefOut, Emitted, no_out, cat, one, spec_line, line_of,
    field_index, lemma_field_index, field_pos, field_text, exec_field_text, kind_text, exec_kind_text,
    has_child_kind, exec_has_child_kind, node_out, ref_out, prop_views, lemma_cat_assoc, lemma_cat_none, prop,
    mk_node, mk_ref};

verus! {

// ---------------------------------------------------------------------------
// What the tree yields
// ---------------------------------------------------------------------------

/// A node's visibility modifier (`pub`, `pub(crate)`, …), or empty.
pub open spec fn visibility(n: SyntaxNode) -> Seq<char> {
    kind_text(n, "visibility_modifier"@)
}

/// The item carries the `async` function modifier.
pub open spec fn has_async(n: SyntaxNode) -> bool {
    exists|i: int| 0 <= i < n.children@.len() && (#[trigger] n.children@[i]).kind@ == "function_modifiers"@
        && has_child_kind(n.children@[i], "async"@)
}

/// A symbol spanning the lines of `n`.
pub open spec fn sym(label: Seq<char>, name: Seq<char>, qn: Seq<char>, n: SyntaxNode, vis: Seq<char>,
    props: Seq<(Seq<char>, Seq<char>)>) -> NodeOut
{
    NodeOut { label, name, qn, start: spec_line(n.start_row), end: spec_line(n.end_row), vis, props }
}

pub open spec fn rf(kind: Seq<char>, from: Seq<char>, to: Seq<char>) -> RefOut {
    RefOut { kind, from, to }
}

/// `caller::call@line:col`.
pub open spec fn call_site_id(caller: Seq<char>, line: u64, col: u64) -> Seq<char> {
    caller + "::call@"@ + decimal(line as nat) + ":"@ + decimal(col as nat)
}

/// The CallSite a `call_expression` node yields: one whose callee text is
/// non-empty and holds no `.` (method calls are left out).
pub open spec fn call_here(n: SyntaxNode, caller: Seq<char>) -> Out {
    if n.kind@ == "call_expression"@ {
        match field_index(n.children@, "function"@) {
            Some(i) => {
                let callee = n.children@[i].text@;
                if callee.len() == 0 || callee.contains('.') {
                    no_out()
                } else {
                    let line = spec_line(n.start_row);
                    let id = call_site_id(caller, line, n.start_col);
                    one(
                        NodeOut { label: "CallSite"@, name: callee, qn: id, start: line, end: line, vis: Seq::empty(),
                            props: seq![("callee_name"@, callee), ("caller_qn"@, caller)] },
                        rf("Defines"@, caller, id),
                    )
                }
            },
            None => no_out(),
        }
    } else {
        no_out()
    }
}

/// The call sites under `n`, depth first, the node before its children
/// and the children last to first.
pub open spec fn call_sites(n: SyntaxNode, caller: Seq<char>) -> Out
    decreases n,
{
    cat(call_here(n, caller), call_sites_rev(n.children@, caller))
}

pub open spec fn call_sites_rev(s: Seq<SyntaxNode>, caller: Seq<char>) -> Out
    decreases s,
{
    if s.len() == 0 {
        no_out()
    } else {
        cat(call_sites(s.last(), caller), call_sites_rev(s.drop_last(), caller))
    }
}

/// The call sites of the `body` field of `n`.
pub open spec fn body_calls(n: SyntaxNode, caller: Seq<char>) -> Out {
    match field_index(n.children@, "body"@) {
        Some(i) => call_sites(n.children@[i], caller),
        None => no_out(),
    }
}

/// The properties of a free function: whether it is `async`, then, when
/// its attributes mark it a harness entry point, `entry_kind` (`test` or
/// `proof`).
pub open spec fn function_props(n: SyntaxNode, entry: Option<Seq<char>>) -> Seq<(Seq<char>, Seq<char>)> {
    let base = seq![("is_async"@, bool_text(has_async(n)))];
    match entry {
        Some(k) => base.push(("entry_kind"@, k)),
        None => base,
    }
}

/// A free function, `entry` the mark its attributes give it.
pub open spec fn function_out(n: SyntaxNode, scope: Seq<char>, entry: Option<Seq<char>>) -> Out {
    let name = field_text(n, "name"@);
    if name.len() == 0 {
        no_out()
    } else {
        let qn = spec_qual(scope, name);
        cat(
            one(sym("Function"@, name, qn, n, visibility(n), function_props(n, entry)),
                rf("Defines"@, scope, qn)),
            body_calls(n, qn),
        )
    }
}

/// One `field_declaration` of a struct body.
pub open spec fn field_decl_out(c: SyntaxNode, pqn: Seq<char>) -> Out {
    let name = field_text(c, "name"@);
    if c.kind@ != "field_declaration"@ || name.len() == 0 {
        no_out()
    } else {
        let fqn = spec_qual(pqn, name);
        one(sym("Field"@, name, fqn, c, visibility(c), seq![("type_annotation"@, field_text(c, "type"@))]),
            rf("HasField"@, pqn, fqn))
    }
}

pub open spec fn field_list_out(s: Seq<SyntaxNode>, pqn: Seq<char>) -> Out
    decreases s.len(),
{
    if s.len() == 0 { no_out() } else { cat(field_list_out(s.drop_last(), pqn), field_decl_out(s.last(), pqn)) }
}

/// The fields of the `body` of `n` when it is a `list_kind` node.
pub open spec fn fields_out(n: SyntaxNode, pqn: Seq<char>, list_kind: Seq<char>) -> Out {
    match field_index(n.children@, "body"@) {
        Some(i) => if n.children@[i].kind@ == list_kind { field_list_out(n.children@[i].children@, pqn) } else { no_out() },
        None => no_out(),
    }
}

/// The `implements` property recording derived traits: none when nothing
/// is derived, else their names joined by `,`.
pub open spec fn implements_of(derives: Seq<Seq<char>>) -> Seq<(Seq<char>, Seq<char>)> {
    if derives.len() == 0 { Seq::empty() } else { seq![("implements"@, seq_join(derives, seq![',']))] }
}

/// One `DeriveImplements` reference from `from` to each derived trait, in
/// order.
pub open spec fn derive_refs(from: Seq<char>, derives: Seq<Seq<char>>) -> Out
    decreases derives.len(),
{
    if derives.len() == 0 {
        no_out()
    } else {
        cat(derive_refs(from, derives.drop_last()),
            Out { nodes: Seq::empty(), refs: seq![rf("DeriveImplements"@, from, derives.last())] })
    }
}

/// A struct deriving `derives`: its symbol, its fields, then a
/// `DeriveImplements` reference per derived trait.
pub open spec fn struct_out(n: SyntaxNode, scope: Seq<char>, derives: Seq<Seq<char>>) -> Out {
    let name = field_text(n, "name"@);
    if name.len() == 0 {
        no_out()
    } else {
        let qn = spec_qual(scope, name);
        cat(cat(one(sym("Struct"@, name, qn, n, visibility(n), implements_of(derives)), rf("Defines"@, scope, qn)),
            fields_out(n, qn, "field_declaration_list"@)), derive_refs(qn, derives))
    }
}

/// One `enum_variant` of an enum body.
pub open spec fn variant_out(c: SyntaxNode, eqn: Seq<char>) -> Out {
    let name = field_text(c, "name"@);
    if c.kind@ != "enum_variant"@ || name.len() == 0 {
        no_out()
    } else {
        let vqn = spec_qual(eqn, name);
        one(sym("Variant"@, name, vqn, c, Seq::empty(), Seq::empty()), rf("HasVariant"@, eqn, vqn))
    }
}

pub open spec fn variant_list_out(s: Seq<SyntaxNode>, eqn: Seq<char>) -> Out
    decreases s.len(),
{
    if s.len() == 0 { no_out() } else { cat(variant_list_out(s.drop_last(), eqn), variant_out(s.last(), eqn)) }
}

/// An enum deriving `derives`: its symbol, its variants, then a
/// `DeriveImplements` reference per derived trait.
pub open spec fn enum_out(n: SyntaxNode, scope: Seq<char>, derives: Seq<Seq<char>>) -> Out {
    let name = field_text(n, "name"@);
    if name.len() == 0 {
        no_out()
    } else {
        let qn = spec_qual(scope, name);
        cat(cat(one(sym("Enum"@, name, qn, n, visibility(n), implements_of(derives)), rf("Defines"@, scope, qn)),
            match field_index(n.children@, "body"@) {
                Some(i) => if n.children@[i].kind@ == "enum_variant_list"@ {
                    variant_list_out(n.children@[i].children@, qn)
                } else {
                    no_out()
                },
                None => no_out(),
            }), derive_refs(qn, derives))
    }
}

/// The texts of the (scoped) type identifiers among `s`, empty ones left
/// out.
pub open spec fn super_list(s: Seq<SyntaxNode>) -> Seq<Seq<char>>
    decreases s.len(),
{
    if s.len() == 0 {
        Seq::empty()
    } else {
        let c = s.last();
        if (c.kind@ == "type_identifier"@ || c.kind@ == "scoped_type_identifier"@) && c.text@.len() > 0 {
            super_list(s.drop_last()).push(c.text@)
        } else {
            super_list(s.drop_last())
        }
    }
}

/// The supertraits named in a trait's `bounds`.
pub open spec fn supertraits(n: SyntaxNode) -> Seq<Seq<char>> {
    match field_index(n.children@, "bounds"@) {
        Some(i) => super_list(n.children@[i].children@),
        None => Seq::empty(),
    }
}

/// One method declared or defined in a trait body.
pub open spec fn trait_method_out(c: SyntaxNode, tqn: Seq<char>) -> Out {
    let is_fn = c.kind@ == "function_item"@;
    let name = field_text(c, "name"@);
    if (c.kind@ != "function_signature_item"@ && !is_fn) || name.len() == 0 {
        no_out()
    } else {
        let mqn = spec_qual(tqn, name);
        one(sym("Method"@, name, mqn, c, visibility(c),
                seq![("is_async"@, bool_text(is_fn && has_async(c))), ("receiver_type"@, tqn)]),
            rf("HasMethod"@, tqn, mqn))
    }
}

pub open spec fn trait_method_list_out(s: Seq<SyntaxNode>, tqn: Seq<char>) -> Out
    decreases s.len(),
{
    if s.len() == 0 { no_out() } else { cat(trait_method_list_out(s.drop_last(), tqn), trait_method_out(s.last(), tqn)) }
}

pub open spec fn extends_refs(qn: Seq<char>, supers: Seq<Seq<char>>) -> Out {
    Out { nodes: Seq::empty(), refs: supers.map_values(|s: Seq<char>| rf("Extends"@, qn, s)) }
}

pub open spec fn trait_out(n: SyntaxNode, scope: Seq<char>) -> Out {
    let name = field_text(n, "name"@);
    if name.len() == 0 {
        no_out()
    } else {
        let qn = spec_qual(scope, name);
        let supers = supertraits(n);
        let props = if supers.len() == 0 {
            Seq::empty()
        } else {
            seq![("supertraits"@, seq_join(supers, seq![',']))]
        };
        cat(cat(one(sym("Trait"@, name, qn, n, visibility(n), props), rf("Defines"@, scope, qn)),
            extends_refs(qn, supers)),
            match field_index(n.children@, "body"@) {
                Some(i) => if n.children@[i].kind@ == "declaration_list"@ {
                    trait_method_list_out(n.children@[i].children@, qn)
                } else {
                    no_out()
                },
                None => no_out(),
            })
    }
}

/// One method of an impl block, with its call sites.
pub open spec fn impl_method_out(c: SyntaxNode, rqn: Seq<char>, trait_name: Seq<char>) -> Out {
    let name = field_text(c, "name"@);
    if (c.kind@ != "function_item"@ && c.kind@ != "function_signature_item"@) || name.len() == 0 {
        no_out()
    } else {
        let mqn = spec_qual(rqn, name);
        let base = seq![("is_async"@, bool_text(has_async(c))), ("receiver_type"@, rqn)];
        let props = if trait_name.len() == 0 { base } else { base.push(("trait_name"@, trait_name)) };
        cat(one(sym("Method"@, name, mqn, c, visibility(c), props), rf("HasMethod"@, rqn, mqn)),
            body_calls(c, mqn))
    }
}

pub open spec fn impl_method_list_out(s: Seq<SyntaxNode>, rqn: Seq<char>, trait_name: Seq<char>) -> Out
    decreases s.len(),
{
    if s.len() == 0 {
        no_out()
    } else {
        cat(impl_method_list_out(s.drop_last(), rqn, trait_name), impl_method_out(s.last(), rqn, trait_name))
    }
}

/// An impl block: its methods, owned by `file::Type`.
pub open spec fn impl_out(n: SyntaxNode, file: Seq<char>) -> Out {
    let impl_type = field_text(n, "type"@);
    if impl_type.len() == 0 {
        no_out()
    } else {
        let rqn = spec_qual(file, impl_type);
        match field_index(n.children@, "body"@) {
            Some(i) => if n.children@[i].kind@ == "declaration_list"@ {
                impl_method_list_out(n.children@[i].children@, rqn, field_text(n, "trait"@))
            } else {
                no_out()
            },
            None => no_out(),
        }
    }
}

/// A symbol whose only property is a type read from its `type` field.
pub open spec fn typed_out(n: SyntaxNode, scope: Seq<char>, label: Seq<char>, key: Seq<char>) -> Out {
    let name = field_text(n, "name"@);
    if name.len() == 0 {
        no_out()
    } else {
        let qn = spec_qual(scope, name);
        one(sym(label, name, qn, n, visibility(n), seq![(key, field_text(n, "type"@))]), rf("Defines"@, scope, qn))
    }
}

/// `s` with every trailing `p` removed.
pub open spec fn trim_suffix_all(s: Seq<char>, p: Seq<char>) -> Seq<char>
    decreases s.len(),
{
    if p.len() > 0 && seq_ends_with(s, p) {
        trim_suffix_all(s.take(s.len() - p.len()), p)
    } else {
        s
    }
}

/// The path of a `use_wildcard`: its text without the trailing `::*`.
pub open spec fn wildcard_path(t: Seq<char>) -> Seq<char> {
    trim_suffix_all(trim_suffix_all(trim_suffix_all(t, "::*"@), "*"@), "::"@)
}

/// One import leaf: path, alias, whether it is a glob.
pub type UseLeaf = (Seq<char>, Seq<char>, bool);

/// The import leaves of a `use` argument under `prefix`; brace lists
/// expand into one leaf each, and `self` in a list stands for the prefix.
pub open spec fn use_leaves(n: SyntaxNode, prefix: Seq<char>) -> Seq<UseLeaf>
    decreases n,
{
    if n.kind@ == "use_list"@ {
        use_list_leaves(n.children@, prefix)
    } else if n.kind@ == "scoped_use_list"@ {
        let np = spec_join_use_path(prefix, field_text(n, "path"@));
        match field_index(n.children@, "list"@) {
            Some(i) => {
                proof { lemma_field_index(n.children@, "list"@); }
                use_list_leaves(n.children@[i].children@, np)
            },
            None => Seq::empty(),
        }
    } else if n.kind@ == "use_as_clause"@ {
        seq![(spec_join_use_path(prefix, field_text(n, "path"@)), field_text(n, "alias"@), false)]
    } else if n.kind@ == "use_wildcard"@ {
        seq![(spec_join_use_path(prefix, wildcard_path(n.text@)), Seq::empty(), true)]
    } else if n.text@ == "self"@ && prefix.len() > 0 {
        seq![(prefix, Seq::empty(), false)]
    } else {
        seq![(spec_join_use_path(prefix, n.text@), Seq::empty(), false)]
    }
}

pub open spec fn use_list_leaves(s: Seq<SyntaxNode>, prefix: Seq<char>) -> Seq<UseLeaf>
    decreases s,
{
    if s.len() == 0 {
        Seq::empty()
    } else {
        use_list_leaves(s.drop_last(), prefix) + if s.last().named { use_leaves(s.last(), prefix) } else { Seq::empty() }
    }
}

/// The Import a leaf yields (none for an empty path).
pub open spec fn import_out(l: UseLeaf, scope: Seq<char>, n: SyntaxNode) -> Out {
    if l.0.len() == 0 {
        no_out()
    } else {
        let d = spec_import_display(l.0, l.1, l.2);
        let qn = spec_qual(scope, d);
        one(sym("Import"@, d, qn, n, visibility(n), seq![("path"@, l.0), ("alias"@, l.1), ("is_glob"@, bool_text(l.2))]),
            rf("Defines"@, scope, qn))
    }
}

pub open spec fn imports_out(ls: Seq<UseLeaf>, scope: Seq<char>, n: SyntaxNode) -> Out
    decreases ls.len(),
{
    if ls.len() == 0 { no_out() } else { cat(imports_out(ls.drop_last(), scope, n), import_out(ls.last(), scope, n)) }
}

pub open spec fn use_out(n: SyntaxNode, scope: Seq<char>) -> Out {
    match field_index(n.children@, "argument"@) {
        Some(i) => imports_out(use_leaves(n.children@[i], Seq::empty()), scope, n),
        None => no_out(),
    }
}

/// What one item of a file or module body yields, `entry` the mark and
/// `derives` the traits its preceding attributes give it.
pub open spec fn item_out(n: SyntaxNode, entry: Option<Seq<char>>, derives: Seq<Seq<char>>, scope: Seq<char>,
    file: Seq<char>) -> Out
    decreases n,
{
    let k = n.kind@;
    if k == "function_item"@ {
        function_out(n, scope, entry)
    } else if k == "struct_item"@ {
        struct_out(n, scope, derives)
    } else if k == "enum_item"@ {
        enum_out(n, scope, derives)
    } else if k == "trait_item"@ {
        trait_out(n, scope)
    } else if k == "impl_item"@ {
        impl_out(n, file)
    } else if k == "const_item"@ {
        typed_out(n, scope, "Constant"@, "type_annotation"@)
    } else if k == "type_item"@ {
        typed_out(n, scope, "TypeAlias"@, "target_type"@)
    } else if k == "use_declaration"@ {
        use_out(n, scope)
    } else if k == "mod_item"@ {
        let name = field_text(n, "name"@);
        if name.len() == 0 {
            no_out()
        } else {
            let qn = spec_qual(scope, name);
            cat(one(sym("Module"@, name, qn, n, visibility(n), Seq::empty()), rf("Defines"@, scope, qn)),
                match field_index(n.children@, "body"@) {
                    Some(i) => {
                        proof { lemma_field_index(n.children@, "body"@); }
                        if n.children@[i].kind@ == "declaration_list"@ {
                            items_out(n.children@[i].children@, qn, file)
                        } else {
                            no_out()
                        }
                    },
                    None => no_out(),
                })
        }
    } else {
        no_out()
    }
}

/// What the items `s` of a file or module body yield, each read with the
/// attributes and comments before it.
pub open spec fn items_out(s: Seq<SyntaxNode>, scope: Seq<char>, file: Seq<char>) -> Out
    decreases s,
{
    if s.len() == 0 {
        no_out()
    } else {
        cat(items_out(s.drop_last(), scope, file),
            item_out(s.last(), entry_scan(s.drop_last()), pending_derives(s.drop_last()), scope, file))
    }
}

/// What a whole file yields: the items of its root, scoped by the file
/// path.
pub open spec fn rust_file_out(root: SyntaxNode, file: Seq<char>) -> Out {
    items_out(root.children@, file, file)
}

// ---------------------------------------------------------------------------
// Extraction
// ---------------------------------------------------------------------------

fn ex_visibility(n: &SyntaxNode) -> (r: String)
    ensures
        r@ == visibility(*n),
{
    exec_kind_text(n, "visibility_modifier")
}

fn ex_has_async(n: &SyntaxNode) -> (r: bool)
    ensures
        r == has_async(*n),
{
    let mut i: usize = 0;
    while i < n.children.len()
        invariant
            i <= n.children@.len(),
            forall|j: int| 0 <= j < i ==> !((#[trigger] n.children@[j]).kind@ == "function_modifiers"@
                && has_child_kind(n.children@[j], "async"@)),
        decreases n.children@.len() - i,
    {
        if str_eq(n.children[i].kind.as_str(), "function_modifiers") && exec_has_child_kind(&n.children[i], "async") {
            return true;
        }
        i += 1;
    }
    false
}

fn bool_str(b: bool) -> (r: &'static str)
    ensures
        r@ == bool_text(b),
{
    if b { "true" } else { "false" }
}

fn ex_call_here(em: &mut Emitted, n: &SyntaxNode, caller: &str)
    ensures
        final(em).out() == cat(old(em).out(), call_here(*n, caller@)),
{
    proof { lemma_cat_none(old(em).out()); }
    if !str_eq(n.kind.as_str(), "call_expression") {
        return;
    }
    match field_pos(n, "function") {
        None => {},
        Some(i) => {
            let callee = &n.children[i].text;
            let cs = chars_of(callee.as_str());
            if cs.len() == 0 || contains_char(&cs, '.') {
                return;
            }
            let line = line_of(n.start_row);
            let mut id = chars_of(caller);
            append_chars(&mut id, &chars_of("::call@"));
            push_decimal(&mut id, line);
            append_chars(&mut id, &chars_of(":"));
            push_decimal(&mut id, n.start_col);
            assert(id@ =~= call_site_id(caller@, line, n.start_col));
            let ids = string_from_chars(&id);
            let mut props: Vec<(String, String)> = Vec::new();
            props.push(prop("callee_name", callee.as_str()));
            props.push(prop("caller_qn", caller));
            assert(prop_views(props@) =~= seq![("callee_name"@, callee@), ("caller_qn"@, caller@)]);
            let empty = String::new();
            let node = mk_node("CallSite", callee.as_str(), ids.as_str(), line, line, empty.as_str(), props);
            em.emit(node, mk_ref("Defines", caller, ids.as_str()));
        },
    }
}

pub fn ex_call_sites(em: &mut Emitted, n: &SyntaxNode, caller: &str)
    ensures
        final(em).out() == cat(old(em).out(), call_sites(*n, caller@)),
    decreases n,
{
    ex_call_here(em, n, caller);
    let ghost base = em.out();
    let ghost rest = call_sites_rev(n.children@, caller@);
    let mut i: usize = n.children.len();
    assert(n.children@.take(i as int) =~= n.children@);
    while i > 0
        invariant
            i <= n.children@.len(),
            rest == call_sites_rev(n.children@, caller@),
            cat(em.out(), call_sites_rev(n.children@.take(i as int), caller@)) == cat(base, rest),
        decreases i,
    {
        i -= 1;
        let ghost before = em.out();
        ex_call_sites(em, &n.children[i], caller);
        proof {
            let t = n.children@.take(i + 1);
            assert(t.drop_last() =~= n.children@.take(i as int));
            assert(t.last() == n.children@[i as int]);
            lemma_cat_assoc(before, call_sites(n.children@[i as int], caller@), call_sites_rev(n.children@.take(i as int), caller@));
        }
    }
    proof {
        assert(n.children@.take(0) =~= Seq::<SyntaxNode>::empty());
        lemma_cat_none(em.out());
        lemma_cat_assoc(old(em).out(), call_here(*n, caller@), rest);
    }
}

pub fn ex_body_calls(em: &mut Emitted, n: &SyntaxNode, caller: &str)
    ensures
        final(em).out() == cat(old(em).out(), body_calls(*n, caller@)),
{
    match field_pos(n, "body") {
        Some(i) => ex_call_sites(em, &n.children[i], caller),
        None => { proof { lemma_cat_none(old(em).out()); } },
    }
}

fn ex_function(em: &mut Emitted, n: &SyntaxNode, scope: &str, entry: Option<&'static str>)
    ensures
        final(em).out() == cat(old(em).out(), function_out(*n, scope@, opt_str(entry))),
{
    let name = exec_field_text(n, "name");
    if str_is_empty(name.as_str()) {
        proof { lemma_cat_none(old(em).out()); }
        return;
    }
    let qn = qual(scope, name.as_str());
    let vis = ex_visibility(n);
    let asy = ex_has_async(n);
    let mut props: Vec<(String, String)> = Vec::new();
    props.push(prop("is_async", bool_str(asy)));
    assert(prop_views(props@) =~= seq![("is_async"@, bool_text(asy))]);
    match entry {
        Some(k) => {
            let ghost p0 = props@;
            props.push(prop("entry_kind", k));
            assert(prop_views(props@) =~= prop_views(p0).push(("entry_kind"@, k@)));
        },
        None => {},
    }
    assert(prop_views(props@) =~= function_props(*n, opt_str(entry)));
    let node = mk_node("Function", name.as_str(), qn.as_str(), line_of(n.start_row), line_of(n.end_row), vis.as_str(), props);
    let ghost e0 = em.out();
    em.emit(node, mk_ref("Defines", scope, qn.as_str()));
    let ghost e1 = em.out();
    ex_body_calls(em, n, qn.as_str());
    proof {
        lemma_cat_assoc(e0, one(node_out(node), RefOut { kind: "Defines"@, from: scope@, to: qn@ }), body_calls(*n, qn@));
    }
}

fn ex_field_decl(em: &mut Emitted, c: &SyntaxNode, pqn: &str)
    ensures
        final(em).out() == cat(old(em).out(), field_decl_out(*c, pqn@)),
{
    let name = exec_field_text(c, "name");
    if !str_eq(c.kind.as_str(), "field_declaration") || str_is_empty(name.as_str()) {
        proof { lemma_cat_none(old(em).out()); }
        return;
    }
    let fqn = qual(pqn, name.as_str());
    let ty = exec_field_text(c, "type");
    let mut props: Vec<(String, String)> = Vec::new();
    props.push(prop("type_annotation", ty.as_str()));
    assert(prop_views(props@) =~= seq![("type_annotation"@, ty@)]);
    let vis = ex_visibility(c);
    let node = mk_node("Field", name.as_str(), fqn.as_str(), line_of(c.start_row), line_of(c.end_row), vis.as_str(), props);
    em.emit(node, mk_ref("HasField", pqn, fqn.as_str()));
}

fn ex_field_list(em: &mut Emitted, s: &Vec<SyntaxNode>, pqn: &str)
    ensures
        final(em).out() == cat(old(em).out(), field_list_out(s@, pqn@)),
{
    proof { lemma_cat_none(old(em).out()); }
    assert(s@.take(0) =~= Seq::<SyntaxNode>::empty());
    let mut i: usize = 0;
    while i < s.len()
        invariant
            i <= s@.len(),
            em.out() == cat(old(em).out(), field_list_out(s@.take(i as int), pqn@)),
        decreases s@.len() - i,
    {
        ex_field_decl(em, &s[i], pqn);
        proof {
            let t = s@.take(i + 1);
            assert(t.drop_last() =~= s@.take(i as int));
            assert(t.last() == s@[i as int]);
            lemma_cat_assoc(old(em).out(), field_list_out(s@.take(i as int), pqn@), field_decl_out(s@[i as int], pqn@));
        }
        i += 1;
    }
    assert(s@.take(s@.len() as int) =~= s@);
}

/// The `implements` property of what derives `derives`.
fn ex_implements(derives: &Vec<String>) -> (r: Vec<(String, String)>)
    ensures
        prop_views(r@) == implements_of(views(derives@)),
{
    let r = implements_props(derives);
    if derives.len() == 0 {
        assert(prop_views(r@) =~= Seq::empty());
    } else {
        assert(prop_views(r@) =~= seq![("implements"@, seq_join(views(derives@), seq![',']))]);
    }
    r
}

fn ex_derive_refs(em: &mut Emitted, from: &str, derives: &Vec<String>)
    ensures
        final(em).out() == cat(old(em).out(), derive_refs(from@, views(derives@))),
{
    proof { lemma_cat_none(old(em).out()); }
    assert(views(derives@).take(0) =~= Seq::<Seq<char>>::empty());
    let mut i: usize = 0;
    while i < derives.len()
        invariant
            i <= derives@.len(),
            em.out() == cat(old(em).out(), derive_refs(from@, views(derives@).take(i as int))),
        decreases derives@.len() - i,
    {
        let ghost e0 = em.out();
        let r = mk_ref("DeriveImplements", from, derives[i].as_str());
        em.emit_ref(r);
        proof {
            let t = views(derives@).take(i + 1);
            assert(t.drop_last() =~= views(derives@).take(i as int));
            assert(t.last() == derives@[i as int]@);
            lemma_cat_assoc(old(em).out(), derive_refs(from@, views(derives@).take(i as int)),
                Out { nodes: Seq::empty(), refs: seq![ref_out(r)] });
        }
        i += 1;
    }
    assert(views(derives@).take(derives@.len() as int) =~= views(derives@));
}

fn ex_struct(em: &mut Emitted, n: &SyntaxNode, scope: &str, derives: &Vec<String>)
    ensures
        final(em).out() == cat(old(em).out(), struct_out(*n, scope@, views(derives@))),
{
    let name = exec_field_text(n, "name");
    if str_is_empty(name.as_str()) {
        proof { lemma_cat_none(old(em).out()); }
        return;
    }
    let qn = qual(scope, name.as_str());
    let vis = ex_visibility(n);
    let props = ex_implements(derives);
    let node = mk_node("Struct", name.as_str(), qn.as_str(), line_of(n.start_row), line_of(n.end_row), vis.as_str(), props);
    let ghost e0 = em.out();
    em.emit(node, mk_ref("Defines", scope, qn.as_str()));
    match field_pos(n, "body") {
        Some(i) => {
            if str_eq(n.children[i].kind.as_str(), "field_declaration_list") {
                ex_field_list(em, &n.children[i].children, qn.as_str());
            } else {
                proof { lemma_cat_none(em.out()); }
            }
        },
        None => { proof { lemma_cat_none(em.out()); } },
    }
    proof {
        lemma_cat_assoc(e0, one(node_out(node), RefOut { kind: "Defines"@, from: scope@, to: qn@ }),
            fields_out(*n, qn@, "field_declaration_list"@));
    }
    let ghost e1 = em.out();
    ex_derive_refs(em, qn.as_str(), derives);
    proof {
        lemma_cat_assoc(e0, cat(one(node_out(node), RefOut { kind: "Defines"@, from: scope@, to: qn@ }),
            fields_out(*n, qn@, "field_declaration_list"@)), derive_refs(qn@, views(derives@)));
    }
}

fn ex_variant(em: &mut Emitted, c: &SyntaxNode, eqn: &str)
    ensures
        final(em).out() == cat(old(em).out(), variant_out(*c, eqn@)),
{
    let name = exec_field_text(c, "name");
    if !str_eq(c.kind.as_str(), "enum_variant") || str_is_empty(name.as_str()) {
        proof { lemma_cat_none(old(em).out()); }
        return;
    }
    let vqn = qual(eqn, name.as_str());
    let props: Vec<(String, String)> = Vec::new();
    assert(prop_views(props@) =~= Seq::empty());
    let empty = String::new();
    let node = mk_node("Variant", name.as_str(), vqn.as_str(), line_of(c.start_row), line_of(c.end_row), empty.as_str(), props);
    em.emit(node, mk_ref("HasVariant", eqn, vqn.as_str()));
}

fn ex_variant_list(em: &mut Emitted, s: &Vec<SyntaxNode>, eqn: &str)
    ensures
        final(em).out() == cat(old(em).out(), variant_list_out(s@, eqn@)),
{
    proof { lemma_cat_none(old(em).out()); }
    assert(s@.take(0) =~= Seq::<SyntaxNode>::empty());
    let mut i: usize = 0;
    while i < s.len()
        invariant
            i <= s@.len(),
            em.out() == cat(old(em).out(), variant_list_out(s@.take(i as int), eqn@)),
        decreases s@.len() - i,
    {
        ex_variant(em, &s[i], eqn);
        proof {
            let t = s@.take(i + 1);
            assert(t.drop_last() =~= s@.take(i as int));
            assert(t.last() == s@[i as int]);
            lemma_cat_assoc(old(em).out(), variant_list_out(s@.take(i as int), eqn@), variant_out(s@[i as int], eqn@));
        }
        i += 1;
    }
    assert(s@.take(s@.len() as int) =~= s@);
}

fn ex_enum(em: &mut Emitted, n: &SyntaxNode, scope: &str, derives: &Vec<String>)
    ensures
        final(em).out() == cat(old(em).out(), enum_out(*n, scope@, views(derives@))),
{
    let name = exec_field_text(n, "name");
    if str_is_empty(name.as_str()) {
        proof { lemma_cat_none(old(em).out()); }
        return;
    }
    let qn = qual(scope, name.as_str());
    let vis = ex_visibility(n);
    let props = ex_implements(derives);
    let node = mk_node("Enum", name.as_str(), qn.as_str(), line_of(n.start_row), line_of(n.end_row), vis.as_str(), props);
    let ghost e0 = em.out();
    em.emit(node, mk_ref("Defines", scope, qn.as_str()));
    let ghost variants = match field_index(n.children@, "body"@) {
        Some(i) => if n.children@[i].kind@ == "enum_variant_list"@ { variant_list_out(n.children@[i].children@, qn@) } else { no_out() },
        None => no_out(),
    };
    match field_pos(n, "body") {
        Some(i) => {
            if str_eq(n.children[i].kind.as_str(), "enum_variant_list") {
                ex_variant_list(em, &n.children[i].children, qn.as_str());
            } else {
                proof { lemma_cat_none(em.out()); }
            }
        },
        None => { proof { lemma_cat_none(em.out()); } },
    }
    proof {
        lemma_cat_assoc(e0, one(node_out(node), RefOut { kind: "Defines"@, from: scope@, to: qn@ }), variants);
    }
    ex_derive_refs(em, qn.as_str(), derives);
    proof {
        lemma_cat_assoc(e0, cat(one(node_out(node), RefOut { kind: "Defines"@, from: scope@, to: qn@ }), variants),
            derive_refs(qn@, views(derives@)));
    }
}

fn ex_super_list(s: &Vec<SyntaxNode>) -> (r: Vec<String>)
    ensures
        views(r@) == super_list(s@),
{
    let mut out: Vec<String> = Vec::new();
    let mut i: usize = 0;
    assert(s@.take(0) =~= Seq::<SyntaxNode>::empty());
    assert(views(out@) =~= Seq::<Seq<char>>::empty());
    while i < s.len()
        invariant
            i <= s@.len(),
            views(out@) == super_list(s@.take(i as int)),
        decreases s@.len() - i,
    {
        let c = &s[i];
        let ghost before = views(out@);
        proof {
            let t = s@.take(i + 1);
            assert(t.drop_last() =~= s@.take(i as int));
            assert(t.last() == s@[i as int]);
        }
        if (str_eq(c.kind.as_str(), "type_identifier") || str_eq(c.kind.as_str(), "scoped_type_identifier"))
            && !str_is_empty(c.text.as_str())
        {
            out.push(to_owned_string(c.text.as_str()));
            assert(views(out@) =~= before.push(c.text@));
        }
        i += 1;
    }
    assert(s@.take(s@.len() as int) =~= s@);
    out
}

fn ex_supertraits(n: &SyntaxNode) -> (r: Vec<String>)
    ensures
        views(r@) == supertraits(*n),
{
    match field_pos(n, "bounds") {
        Some(i) => ex_super_list(&n.children[i].children),
        None => {
            let r: Vec<String> = Vec::new();
            assert(views(r@) =~= Seq::<Seq<char>>::empty());
            r
        },
    }
}

fn ex_trait_method(em: &mut Emitted, c: &SyntaxNode, tqn: &str)
    ensures
        final(em).out() == cat(old(em).out(), trait_method_out(*c, tqn@)),
{
    let is_fn = str_eq(c.kind.as_str(), "function_item");
    let name = exec_field_text(c, "name");
    if (!str_eq(c.kind.as_str(), "function_signature_item") && !is_fn) || str_is_empty(name.as_str()) {
        proof { lemma_cat_none(old(em).out()); }
        return;
    }
    let mqn = qual(tqn, name.as_str());
    let asy = if is_fn { ex_has_async(c) } else { false };
    let mut props: Vec<(String, String)> = Vec::new();
    props.push(prop("is_async", bool_str(asy)));
    props.push(prop("receiver_type", tqn));
    assert(prop_views(props@) =~= seq![("is_async"@, bool_text(is_fn && has_async(*c))), ("receiver_type"@, tqn@)]);
    let vis = ex_visibility(c);
    let node = mk_node("Method", name.as_str(), mqn.as_str(), line_of(c.start_row), line_of(c.end_row), vis.as_str(), props);
    em.emit(node, mk_ref("HasMethod", tqn, mqn.as_str()));
}

fn ex_trait_method_list(em: &mut Emitted, s: &Vec<SyntaxNode>, tqn: &str)
    ensures
        final(em).out() == cat(old(em).out(), trait_method_list_out(s@, tqn@)),
{
    proof { lemma_cat_none(old(em).out()); }
    assert(s@.take(0) =~= Seq::<SyntaxNode>::empty());
    let mut i: usize = 0;
    while i < s.len()
        invariant
            i <= s@.len(),
            em.out() == cat(old(em).out(), trait_method_list_out(s@.take(i as int), tqn@)),
        decreases s@.len() - i,
    {
        ex_trait_method(em, &s[i], tqn);
        proof {
            let t = s@.take(i + 1);
            assert(t.drop_last() =~= s@.take(i as int));
            assert(t.last() == s@[i as int]);
            lemma_cat_assoc(old(em).out(), trait_method_list_out(s@.take(i as int), tqn@), trait_method_out(s@[i as int], tqn@));
        }
        i += 1;
    }
    assert(s@.take(s@.len() as int) =~= s@);
}

fn ex_trait(em: &mut Emitted, n: &SyntaxNode, scope: &str)
    ensures
        final(em).out() == cat(old(em).out(), trait_out(*n, scope@)),
{
    let name = exec_field_text(n, "name");
    if str_is_empty(name.as_str()) {
        proof { lemma_cat_none(old(em).out()); }
        return;
    }
    let qn = qual(scope, name.as_str());
    let vis = ex_visibility(n);
    let supers = ex_supertraits(n);
    let mut props: Vec<(String, String)> = Vec::new();
    if supers.len() > 0 {
        let joined = crate::parser::naming::join_strings(&supers, ',');
        props.push((to_owned_string("supertraits"), string_from_chars(&joined)));
        assert(prop_views(props@) =~= seq![("supertraits"@, seq_join(supertraits(*n), seq![',']))]);
    } else {
        assert(prop_views(props@) =~= Seq::empty());
    }
    let node = mk_node("Trait", name.as_str(), qn.as_str(), line_of(n.start_row), line_of(n.end_row), vis.as_str(), props);
    let ghost e0 = em.out();
    em.emit(node, mk_ref("Defines", scope, qn.as_str()));
    let ghost e1 = em.out();
    let mut k: usize = 0;
    assert(supertraits(*n).take(0) =~= Seq::<Seq<char>>::empty());
    assert(extends_refs(qn@, supertraits(*n).take(0)).refs =~= Seq::<RefOut>::empty());
    proof { lemma_cat_none(e1); }
    while k < supers.len()
        invariant
            k <= supers@.len(),
            views(supers@) == supertraits(*n),
            em.out() == cat(e1, extends_refs(qn@, supertraits(*n).take(k as int))),
        decreases supers@.len() - k,
    {
        let ghost before = em.out();
        em.emit_ref(mk_ref("Extends", qn.as_str(), supers[k].as_str()));
        proof {
            assert(views(supers@)[k as int] == supers@[k as int]@);
            assert(em.out().nodes =~= cat(e1, extends_refs(qn@, supertraits(*n).take(k + 1))).nodes);
            assert(em.out().refs =~= cat(e1, extends_refs(qn@, supertraits(*n).take(k + 1))).refs);
        }
        k += 1;
    }
    assert(supertraits(*n).take(supers@.len() as int) =~= supertraits(*n));
    let ghost e2 = em.out();
    let ghost methods = match field_index(n.children@, "body"@) {
        Some(i) => if n.children@[i].kind@ == "declaration_list"@ { trait_method_list_out(n.children@[i].children@, qn@) } else { no_out() },
        None => no_out(),
    };
    match field_pos(n, "body") {
        Some(i) => {
            if str_eq(n.children[i].kind.as_str(), "declaration_list") {
                ex_trait_method_list(em, &n.children[i].children, qn.as_str());
            } else {
                proof { lemma_cat_none(em.out()); }
            }
        },
        None => { proof { lemma_cat_none(em.out()); } },
    }
    proof {
        let head = one(node_out(node), RefOut { kind: "Defines"@, from: scope@, to: qn@ });
        lemma_cat_assoc(e0, head, extends_refs(qn@, supertraits(*n)));
        lemma_cat_assoc(e0, cat(head, extends_refs(qn@, supertraits(*n))), methods);
    }
}

fn ex_impl_method(em: &mut Emitted, c: &SyntaxNode, rqn: &str, trait_name: &str)
    ensures
        final(em).out() == cat(old(em).out(), impl_method_out(*c, rqn@, trait_name@)),
{
    let name = exec_field_text(c, "name");
    if (!str_eq(c.kind.as_str(), "function_item") && !str_eq(c.kind.as_str(), "function_signature_item"))
        || str_is_empty(name.as_str())
    {
        proof { lemma_cat_none(old(em).out()); }
        return;
    }
    let mqn = qual(rqn, name.as_str());
    let asy = ex_has_async(c);
    let mut props: Vec<(String, String)> = Vec::new();
    props.push(prop("is_async", bool_str(asy)));
    props.push(prop("receiver_type", rqn));
    let ghost base = seq![("is_async"@, bool_text(has_async(*c))), ("receiver_type"@, rqn@)];
    if !str_is_empty(trait_name) {
        props.push(prop("trait_name", trait_name));
        assert(prop_views(props@) =~= base.push(("trait_name"@, trait_name@)));
    } else {
        assert(prop_views(props@) =~= base);
    }
    let vis = ex_visibility(c);
    let node = mk_node("Method", name.as_str(), mqn.as_str(), line_of(c.start_row), line_of(c.end_row), vis.as_str(), props);
    let ghost e0 = em.out();
    em.emit(node, mk_ref("HasMethod", rqn, mqn.as_str()));
    ex_body_calls(em, c, mqn.as_str());
    proof {
        lemma_cat_assoc(e0, one(node_out(node), RefOut { kind: "HasMethod"@, from: rqn@, to: mqn@ }), body_calls(*c, mqn@));
    }
}

fn ex_impl_method_list(em: &mut Emitted, s: &Vec<SyntaxNode>, rqn: &str, trait_name: &str)
    ensures
        final(em).out() == cat(old(em).out(), impl_method_list_out(s@, rqn@, trait_name@)),
{
    proof { lemma_cat_none(old(em).out()); }
    assert(s@.take(0) =~= Seq::<SyntaxNode>::empty());
    let mut i: usize = 0;
    while i < s.len()
        invariant
            i <= s@.len(),
            em.out() == cat(old(em).out(), impl_method_list_out(s@.take(i as int), rqn@, trait_name@)),
        decreases s@.len() - i,
    {
        ex_impl_method(em, &s[i], rqn, trait_name);
        proof {
            let t = s@.take(i + 1);
            assert(t.drop_last() =~= s@.take(i as int));
            assert(t.last() == s@[i as int]);
            lemma_cat_assoc(old(em).out(), impl_method_list_out(s@.take(i as int), rqn@, trait_name@),
                impl_method_out(s@[i as int], rqn@, trait_name@));
        }
        i += 1;
    }
    assert(s@.take(s@.len() as int) =~= s@);
}

fn ex_impl(em: &mut Emitted, n: &SyntaxNode, file: &str)
    ensures
        final(em).out() == cat(old(em).out(), impl_out(*n, file@)),
{
    proof { lemma_cat_none(old(em).out()); }
    let impl_type = exec_field_text(n, "type");
    if str_is_empty(impl_type.as_str()) {
        return;
    }
    let trait_name = exec_field_text(n, "trait");
    let rqn = qual(file, impl_type.as_str());
    match field_pos(n, "body") {
        Some(i) => {
            if str_eq(n.children[i].kind.as_str(), "declaration_list") {
                ex_impl_method_list(em, &n.children[i].children, rqn.as_str(), trait_name.as_str());
            }
        },
        None => {},
    }
}

fn ex_typed(em: &mut Emitted, n: &SyntaxNode, scope: &str, label: &str, key: &str)
    ensures
        final(em).out() == cat(old(em).out(), typed_out(*n, scope@, label@, key@)),
{
    let name = exec_field_text(n, "name");
    if str_is_empty(name.as_str()) {
        proof { lemma_cat_none(old(em).out()); }
        return;
    }
    let qn = qual(scope, name.as_str());
    let ty = exec_field_text(n, "type");
    let mut props: Vec<(String, String)> = Vec::new();
    props.push(prop(key, ty.as_str()));
    assert(prop_views(props@) =~= seq![(key@, ty@)]);
    let vis = ex_visibility(n);
    let node = mk_node(label, name.as_str(), qn.as_str(), line_of(n.start_row), line_of(n.end_row), vis.as_str(), props);
    em.emit(node, mk_ref("Defines", scope, qn.as_str()));
}

fn ex_trim_suffix_all(s: Vec<char>, p: &Vec<char>) -> (r: Vec<char>)
    ensures
        r@ == trim_suffix_all(s@, p@),
{
    let mut cur = s;
    while p.len() > 0 && ends_with(&cur, p)
        invariant
            trim_suffix_all(cur@, p@) == trim_suffix_all(s@, p@),
        decreases cur@.len(),
    {
        let next = slice_to_vec(&cur, 0, cur.len() - p.len());
        assert(next@ =~= cur@.take(cur@.len() - p@.len()));
        cur = next;
    }
    cur
}

fn ex_wildcard_path(t: &str) -> (r: String)
    ensures
        r@ == wildcard_path(t@),
{
    let a = ex_trim_suffix_all(chars_of(t), &chars_of("::*"));
    let b = ex_trim_suffix_all(a, &chars_of("*"));
    let c = ex_trim_suffix_all(b, &chars_of("::"));
    string_from_chars(&c)
}

pub open spec fn leaf_views(v: Seq<(String, String, bool)>) -> Seq<UseLeaf> {
    v.map_values(|l: (String, String, bool)| (l.0@, l.1@, l.2))
}

fn single_leaf(path: String, alias: String, glob: bool) -> (r: Vec<(String, String, bool)>)
    ensures
        leaf_views(r@) == seq![(path@, alias@, glob)],
{
    let mut r: Vec<(String, String, bool)> = Vec::new();
    r.push((path, alias, glob));
    assert(leaf_views(r@) =~= seq![(path@, alias@, glob)]);
    r
}

fn ex_use_leaves(n: &SyntaxNode, prefix: &str) -> (r: Vec<(String, String, bool)>)
    ensures
        leaf_views(r@) == use_leaves(*n, prefix@),
    decreases n,
{
    let k = n.kind.as_str();
    if str_eq(k, "use_list") {
        ex_use_list_leaves(&n.children, prefix)
    } else if str_eq(k, "scoped_use_list") {
        let head = exec_field_text(n, "path");
        let np = join_use_path(prefix, head.as_str());
        match field_pos(n, "list") {
            Some(i) => ex_use_list_leaves(&n.children[i].children, np.as_str()),
            None => {
                let r: Vec<(String, String, bool)> = Vec::new();
                assert(leaf_views(r@) =~= Seq::<UseLeaf>::empty());
                r
            },
        }
    } else if str_eq(k, "use_as_clause") {
        let path = exec_field_text(n, "path");
        single_leaf(join_use_path(prefix, path.as_str()), exec_field_text(n, "alias"), false)
    } else if str_eq(k, "use_wildcard") {
        let w = ex_wildcard_path(n.text.as_str());
        single_leaf(join_use_path(prefix, w.as_str()), String::new(), true)
    } else if str_eq(n.text.as_str(), "self") && !str_is_empty(prefix) {
        single_leaf(to_owned_string(prefix), String::new(), false)
    } else {
        single_leaf(join_use_path(prefix, n.text.as_str()), String::new(), false)
    }
}

fn ex_use_list_leaves(s: &Vec<SyntaxNode>, prefix: &str) -> (r: Vec<(String, String, bool)>)
    ensures
        leaf_views(r@) == use_list_leaves(s@, prefix@),
    decreases s,
{
    let mut out: Vec<(String, String, bool)> = Vec::new();
    let mut i: usize = 0;
    assert(s@.take(0) =~= Seq::<SyntaxNode>::empty());
    assert(leaf_views(out@) =~= Seq::<UseLeaf>::empty());
    while i < s.len()
        invariant
            i <= s@.len(),
            leaf_views(out@) == use_list_leaves(s@.take(i as int), prefix@),
        decreases s@.len() - i,
    {
        proof {
            let t = s@.take(i + 1);
            assert(t.drop_last() =~= s@.take(i as int));
            assert(t.last() == s@[i as int]);
        }
        if s[i].named {
            let more = ex_use_leaves(&s[i], prefix);
            let ghost before = leaf_views(out@);
            let mut j: usize = 0;
            while j < more.len()
                invariant
                    j <= more@.len(),
                    leaf_views(out@) == before + leaf_views(more@).take(j as int),
                decreases more@.len() - j,
            {
                let l = &more[j];
                let ghost prev = leaf_views(out@);
                out.push((to_owned_string(l.0.as_str()), to_owned_string(l.1.as_str()), l.2));
                proof {
                    assert(leaf_views(more@)[j as int] == (l.0@, l.1@, l.2));
                    assert(leaf_views(out@) =~= prev.push((l.0@, l.1@, l.2)));
                    assert(leaf_views(more@).take(j + 1) =~= leaf_views(more@).take(j as int).push(leaf_views(more@)[j as int]));
                }
                assert(leaf_views(out@) =~= before + leaf_views(more@).take(j + 1));
                j += 1;
            }
            assert(leaf_views(more@).take(more@.len() as int) =~= leaf_views(more@));
        } else {
            assert(leaf_views(out@) =~= leaf_views(out@) + Seq::<UseLeaf>::empty());
        }
        i += 1;
    }
    assert(s@.take(s@.len() as int) =~= s@);
    out
}

fn ex_imports(em: &mut Emitted, ls: &Vec<(String, String, bool)>, scope: &str, n: &SyntaxNode)
    ensures
        final(em).out() == cat(old(em).out(), imports_out(leaf_views(ls@), scope@, *n)),
{
    proof { lemma_cat_none(old(em).out()); }
    let ghost lv = leaf_views(ls@);
    assert(lv.take(0) =~= Seq::<UseLeaf>::empty());
    let vis = ex_visibility(n);
    let start = line_of(n.start_row);
    let end = line_of(n.end_row);
    let mut i: usize = 0;
    while i < ls.len()
        invariant
            i <= ls@.len(),
            lv == leaf_views(ls@),
            vis@ == visibility(*n),
            start == spec_line(n.start_row),
            end == spec_line(n.end_row),
            em.out() == cat(old(em).out(), imports_out(lv.take(i as int), scope@, *n)),
        decreases ls@.len() - i,
    {
        let l = &ls[i];
        let ghost before = em.out();
        proof {
            let t = lv.take(i + 1);
            assert(t.drop_last() =~= lv.take(i as int));
            assert(t.last() == lv[i as int]);
            assert(lv[i as int] == (l.0@, l.1@, l.2));
        }
        match import_node(scope, l.0.as_str(), l.1.as_str(), l.2, start, end, vis.as_str()) {
            Some((node, edge)) => {
                em.emit(node, edge);
                proof {
                    let d = spec_import_display(l.0@, l.1@, l.2);
                    assert(node_out(node).props =~= seq![("path"@, l.0@), ("alias"@, l.1@), ("is_glob"@, bool_text(l.2))]);
                    assert(node_out(node) == sym("Import"@, d, spec_qual(scope@, d), *n, visibility(*n),
                        seq![("path"@, l.0@), ("alias"@, l.1@), ("is_glob"@, bool_text(l.2))]));
                    assert(ref_out(edge) == rf("Defines"@, scope@, spec_qual(scope@, d)));
                    lemma_cat_assoc(old(em).out(), imports_out(lv.take(i as int), scope@, *n), import_out(lv[i as int], scope@, *n));
                }
            },
            None => {
                proof {
                    lemma_cat_none(before);
                    lemma_cat_assoc(old(em).out(), imports_out(lv.take(i as int), scope@, *n), import_out(lv[i as int], scope@, *n));
                }
            },
        }
        i += 1;
    }
    assert(lv.take(ls@.len() as int) =~= lv);
}

fn ex_use(em: &mut Emitted, n: &SyntaxNode, scope: &str)
    ensures
        final(em).out() == cat(old(em).out(), use_out(*n, scope@)),
{
    match field_pos(n, "argument") {
        Some(i) => {
            let empty = String::new();
            let leaves = ex_use_leaves(&n.children[i], empty.as_str());
            ex_imports(em, &leaves, scope, n);
        },
        None => { proof { lemma_cat_none(old(em).out()); } },
    }
}

fn ex_item(em: &mut Emitted, n: &SyntaxNode, entry: Option<&'static str>, derives: &Vec<String>, scope: &str, file: &str)
    ensures
        final(em).out() == cat(old(em).out(), item_out(*n, opt_str(entry), views(derives@), scope@, file@)),
    decreases n,
{
    let k = n.kind.as_str();
    if str_eq(k, "function_item") {
        ex_function(em, n, scope, entry);
    } else if str_eq(k, "struct_item") {
        ex_struct(em, n, scope, derives);
    } else if str_eq(k, "enum_item") {
        ex_enum(em, n, scope, derives);
    } else if str_eq(k, "trait_item") {
        ex_trait(em, n, scope);
    } else if str_eq(k, "impl_item") {
        ex_impl(em, n, file);
    } else if str_eq(k, "const_item") {
        ex_typed(em, n, scope, "Constant", "type_annotation");
    } else if str_eq(k, "type_item") {
        ex_typed(em, n, scope, "TypeAlias", "target_type");
    } else if str_eq(k, "use_declaration") {
        ex_use(em, n, scope);
    } else if str_eq(k, "mod_item") {
        let name = exec_field_text(n, "name");
        if str_is_empty(name.as_str()) {
            proof { lemma_cat_none(old(em).out()); }
            return;
        }
        let qn = qual(scope, name.as_str());
        let vis = ex_visibility(n);
        let props: Vec<(String, String)> = Vec::new();
        assert(prop_views(props@) =~= Seq::empty());
        let node = mk_node("Module", name.as_str(), qn.as_str(), line_of(n.start_row), line_of(n.end_row), vis.as_str(), props);
        let ghost e0 = em.out();
        em.emit(node, mk_ref("Defines", scope, qn.as_str()));
        let ghost inner = match field_index(n.children@, "body"@) {
            Some(i) => if n.children@[i].kind@ == "declaration_list"@ { items_out(n.children@[i].children@, qn@, file@) } else { no_out() },
            None => no_out(),
        };
        match field_pos(n, "body") {
            Some(i) => {
                if str_eq(n.children[i].kind.as_str(), "declaration_list") {
                    ex_items(em, &n.children[i].children, qn.as_str(), file);
                } else {
                    proof { lemma_cat_none(em.out()); }
                }
            },
            None => { proof { lemma_cat_none(em.out()); } },
        }
        proof {
            lemma_cat_assoc(e0, one(node_out(node), RefOut { kind: "Defines"@, from: scope@, to: qn@ }), inner);
        }
    } else {
        proof { lemma_cat_none(old(em).out()); }
    }
}

fn ex_items(em: &mut Emitted, s: &Vec<SyntaxNode>, scope: &str, file: &str)
    ensures
        final(em).out() == cat(old(em).out(), items_out(s@, scope@, file@)),
    decreases s,
{
    proof { lemma_cat_none(old(em).out()); }
    assert(s@.take(0) =~= Seq::<SyntaxNode>::empty());
    let mut entry: Option<&'static str> = None;
    let mut pending: Vec<String> = Vec::new();
    assert(views(pending@) =~= Seq::<Seq<char>>::empty());
    let mut i: usize = 0;
    while i < s.len()
        invariant
            i <= s@.len(),
            em.out() == cat(old(em).out(), items_out(s@.take(i as int), scope@, file@)),
            opt_str(entry) == entry_scan(s@.take(i as int)),
            views(pending@) == pending_derives(s@.take(i as int)),
        decreases s@.len() - i,
    {
        ex_item(em, &s[i], entry, &pending, scope, file);
        proof {
            let t = s@.take(i + 1);
            assert(t.drop_last() =~= s@.take(i as int));
            assert(t.last() == s@[i as int]);
            lemma_cat_assoc(old(em).out(), items_out(s@.take(i as int), scope@, file@),
                item_out(s@[i as int], opt_str(entry), views(pending@), scope@, file@));
        }
        entry = ex_entry_step(entry, &s[i]);
        pending = ex_pending_step(pending, &s[i]);
        i += 1;
    }
    assert(s@.take(s@.len() as int) =~= s@);
}

/// The symbols and references of one Rust file, read off its syntax tree.
pub fn extract_rust(root: &SyntaxNode, file_path: &str) -> (r: ParseResult)
    ensures
        r.nodes@.map_values(|n: ExtractedNode| node_out(n)) == rust_file_out(*root, file_path@).nodes,
        r.refs@.map_values(|e: ExtractedRef| ref_out(e)) == rust_file_out(*root, file_path@).refs,
{
    let mut em = Emitted::new();
    ex_items(&mut em, &root.children, file_path, file_path);
    proof { lemma_cat_none(rust_file_out(*root, file_path@)); }
    ParseResult { nodes: em.nodes, refs: em.refs }
}

/// What a parse that yields no tree reports.
pub const PARSE_FAILED: &'static str = "parse_timeout_or_none: tree-sitter returned None (parse cancelled, timeout exceeded, or source rejected)";

/// The parse result's emissions as plain values.
pub open spec fn result_out(r: ParseResult) -> Out {
    Out {
        nodes: r.nodes@.map_values(|n: ExtractedNode| node_out(n)),
        refs: r.refs@.map_values(|e: ExtractedRef| ref_out(e)),
    }
}

/// Parses one `.rs` file and extracts its symbols and relationships.
/// The symbols are those the grammar's tree yields; when no tree comes back
/// (the parse ran past its time limit), the error; when tree-sitter
/// refuses the grammar, its message after `failed to set … language: `.
pub fn parse_rust_file(source: &str, file_path: &str) -> (r: Result<ParseResult, String>)
    ensures
        match r {
            Ok(p) => rust_syntax(source@) matches Some(t) && result_out(p) == rust_file_out(t, file_path@),
            Err(e) => e@ == PARSE_FAILED@ || is_refusal(""@, e@),
        },
        r matches Ok(p) ==> out_ok(result_out(p), file_path@),
{
    match parse_rust_syntax(source) {
        Ok(Some(tree)) => {
            proof {
                lemma_rust_out_well_formed(tree, file_path@);
            }
            Ok(extract_rust(&tree, file_path))
        },
        Ok(None) => Err(to_owned_string(PARSE_FAILED)),
        Err(detail) => Err(language_refused_message("", detail.as_str())),
    }
}

} // verus!
