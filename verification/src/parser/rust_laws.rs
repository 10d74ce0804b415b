//! What holds of everything a Rust file yields: each symbol has a
//! non-empty name, starts on a line numbered from 1 and no later than it
//! ends, and has a qualified name under the file's path; each reference has a kind and a non-empty target.

use vstd::prelude::*;
use crate::text::seq_starts_with;
use crate::parser::spec_qual;
use crate::parser::naming::spec_import_display;
use crate::parser::syntax::{SyntaxNode, Out, NodeOut, RefOut, no_out, cat, one, spec_line, field_index, rows_ordered,
    rows_ordered_list, lemma_rows_list};
use crate::parser::rust_attrs::{derive_names, pending_derives, trimmed_names};
use crate::parser::rust::{UseLeaf, call_here, call_site_id, call_sites, call_sites_rev, body_calls, sym, rf, visibility,
    function_props, function_out, field_decl_out, field_list_out, fields_out, implements_of, derive_refs, struct_out,
    variant_out, variant_list_out, enum_out, super_list, supertraits, trait_method_out, trait_method_list_out,
    extends_refs, trait_out, impl_method_out, impl_method_list_out, impl_out, typed_out, has_async, import_out,
    imports_out, use_leaves, item_out, items_out, rust_file_out};

verus! {

/// `qn` names something inside the file `file`: it starts with `file::`.
pub open spec fn in_file(qn: Seq<char>, file: Seq<char>) -> bool {
    seq_starts_with(qn, file + seq![':', ':'])
}

/// `scope` is the file itself or something inside it.
pub open spec fn scope_in(scope: Seq<char>, file: Seq<char>) -> bool {
    scope == file || in_file(scope, file)
}

/// A symbol with a non-empty name, a first line of at least 1 and at most
/// its last line, and a qualified name inside `file`.
pub open spec fn node_ok(n: NodeOut, file: Seq<char>) -> bool {
    n.name.len() > 0 && 1 <= n.start <= n.end && in_file(n.qn, file)
}

/// A reference with a non-empty kind and a non-empty target.
pub open spec fn ref_ok(r: RefOut) -> bool {
    r.kind.len() > 0 && r.to.len() > 0
}

/// Every symbol and reference of `o` is well formed for `file`.
pub open spec fn out_ok(o: Out, file: Seq<char>) -> bool {
    &&& forall|i: int| 0 <= i < o.nodes.len() ==> node_ok(#[trigger] o.nodes[i], file)
    &&& forall|i: int| 0 <= i < o.refs.len() ==> ref_ok(#[trigger] o.refs[i])
}

proof fn lemma_none_ok(file: Seq<char>)
    ensures
        out_ok(no_out(), file),
{
}

proof fn lemma_cat_ok(a: Out, b: Out, file: Seq<char>)
    requires
        out_ok(a, file),
        out_ok(b, file),
    ensures
        out_ok(cat(a, b), file),
{
    let c = cat(a, b);
    assert forall|i: int| 0 <= i < c.nodes.len() implies node_ok(#[trigger] c.nodes[i], file) by {
        if i < a.nodes.len() {
            assert(c.nodes[i] == a.nodes[i]);
        } else {
            assert(c.nodes[i] == b.nodes[i - a.nodes.len()]);
        }
    }
    assert forall|i: int| 0 <= i < c.refs.len() implies ref_ok(#[trigger] c.refs[i]) by {
        if i < a.refs.len() {
            assert(c.refs[i] == a.refs[i]);
        } else {
            assert(c.refs[i] == b.refs[i - a.refs.len()]);
        }
    }
}

proof fn lemma_qual_in(scope: Seq<char>, name: Seq<char>, file: Seq<char>)
    requires
        scope_in(scope, file),
    ensures
        in_file(spec_qual(scope, name), file),
        scope_in(spec_qual(scope, name), file),
        spec_qual(scope, name).len() > 0,
{
    let p = file + seq![':', ':'];
    let q = spec_qual(scope, name);
    if scope == file {
        assert(q.take(p.len() as int) =~= p);
    } else {
        assert(q.take(p.len() as int) =~= scope.take(p.len() as int));
    }
}

proof fn lemma_in_file_extend(q: Seq<char>, x: Seq<char>, file: Seq<char>)
    requires
        in_file(q, file),
    ensures
        in_file(q + x, file),
{
    let p = file + seq![':', ':'];
    assert((q + x).take(p.len() as int) =~= q.take(p.len() as int));
}

proof fn lemma_line_ok(row: u64)
    ensures
        spec_line(row) >= 1,
{
}

proof fn lemma_kinds()
    ensures
        "Defines"@.len() > 0,
        "HasField"@.len() > 0,
        "HasVariant"@.len() > 0,
        "HasMethod"@.len() > 0,
        "Extends"@.len() > 0,
        "DeriveImplements"@.len() > 0,
{
    reveal_strlit("Defines");
    reveal_strlit("HasField");
    reveal_strlit("HasVariant");
    reveal_strlit("HasMethod");
    reveal_strlit("Extends");
    reveal_strlit("DeriveImplements");
}

proof fn lemma_one_ok(n: NodeOut, r: RefOut, file: Seq<char>)
    requires
        node_ok(n, file),
        ref_ok(r),
    ensures
        out_ok(one(n, r), file),
{
}

proof fn lemma_call_here_ok(n: SyntaxNode, caller: Seq<char>, file: Seq<char>)
    requires
        in_file(caller, file),
    ensures
        out_ok(call_here(n, caller), file),
{
    lemma_kinds();
    if n.kind@ == "call_expression"@ {
        match field_index(n.children@, "function"@) {
            Some(i) => {
                let callee = n.children@[i].text@;
                if !(callee.len() == 0 || callee.contains('.')) {
                    let line = spec_line(n.start_row);
                    let id = call_site_id(caller, line, n.start_col);
                    lemma_in_file_extend(caller, "::call@"@ + crate::parser::naming::decimal(line as nat) + ":"@
                        + crate::parser::naming::decimal(n.start_col as nat), file);
                    assert(id =~= caller + ("::call@"@ + crate::parser::naming::decimal(line as nat) + ":"@
                        + crate::parser::naming::decimal(n.start_col as nat)));
                    assert(id.len() > 0);
                }
            },
            None => {},
        }
    }
}

proof fn lemma_call_sites_ok(n: SyntaxNode, caller: Seq<char>, file: Seq<char>)
    requires
        in_file(caller, file),
    ensures
        out_ok(call_sites(n, caller), file),
    decreases n,
{
    lemma_call_here_ok(n, caller, file);
    lemma_call_sites_rev_ok(n.children@, caller, file);
    lemma_cat_ok(call_here(n, caller), call_sites_rev(n.children@, caller), file);
}

proof fn lemma_call_sites_rev_ok(s: Seq<SyntaxNode>, caller: Seq<char>, file: Seq<char>)
    requires
        in_file(caller, file),
    ensures
        out_ok(call_sites_rev(s, caller), file),
    decreases s,
{
    if s.len() > 0 {
        lemma_call_sites_ok(s.last(), caller, file);
        lemma_call_sites_rev_ok(s.drop_last(), caller, file);
        lemma_cat_ok(call_sites(s.last(), caller), call_sites_rev(s.drop_last(), caller), file);
    }
}

proof fn lemma_body_calls_ok(n: SyntaxNode, caller: Seq<char>, file: Seq<char>)
    requires
        in_file(caller, file),
    ensures
        out_ok(body_calls(n, caller), file),
{
    match field_index(n.children@, "body"@) {
        Some(i) => lemma_call_sites_ok(n.children@[i], caller, file),
        None => {},
    }
}

proof fn lemma_sym_ok(label: Seq<char>, name: Seq<char>, scope: Seq<char>, n: SyntaxNode, vis: Seq<char>,
    props: Seq<(Seq<char>, Seq<char>)>, file: Seq<char>)
    requires
        name.len() > 0,
        scope_in(scope, file),
        rows_ordered(n),
    ensures
        node_ok(sym(label, name, spec_qual(scope, name), n, vis, props), file),
{
    lemma_qual_in(scope, name, file);
}

proof fn lemma_function_ok(n: SyntaxNode, scope: Seq<char>, entry: Option<Seq<char>>, file: Seq<char>)
    requires
        rows_ordered(n),
        scope_in(scope, file),
    ensures
        out_ok(function_out(n, scope, entry), file),
{
    lemma_kinds();
    let name = field_text_of(n);
    if name.len() > 0 {
        let qn = spec_qual(scope, name);
        lemma_qual_in(scope, name, file);
        lemma_sym_ok("Function"@, name, scope, n, visibility(n), function_props(n, entry), file);
        lemma_body_calls_ok(n, qn, file);
        lemma_cat_ok(one(sym("Function"@, name, qn, n, visibility(n), function_props(n, entry)),
            rf("Defines"@, scope, qn)), body_calls(n, qn), file);
    }
}

pub open spec fn field_text_of(n: SyntaxNode) -> Seq<char> {
    crate::parser::syntax::field_text(n, "name"@)
}

proof fn lemma_field_list_ok(s: Seq<SyntaxNode>, pqn: Seq<char>, file: Seq<char>)
    requires
        rows_ordered_list(s),
        in_file(pqn, file),
    ensures
        out_ok(field_list_out(s, pqn), file),
    decreases s.len(),
{
    lemma_kinds();
    if s.len() > 0 {
        lemma_rows_list(s, s.len() - 1);
        assert(rows_ordered_list(s.drop_last()));
        lemma_field_list_ok(s.drop_last(), pqn, file);
        let c = s.last();
        let name = field_text_of(c);
        if c.kind@ == "field_declaration"@ && name.len() > 0 {
            lemma_qual_in(pqn, name, file);
        }
        lemma_cat_ok(field_list_out(s.drop_last(), pqn), field_decl_out(c, pqn), file);
    }
}

proof fn lemma_variant_list_ok(s: Seq<SyntaxNode>, eqn: Seq<char>, file: Seq<char>)
    requires
        rows_ordered_list(s),
        in_file(eqn, file),
    ensures
        out_ok(variant_list_out(s, eqn), file),
    decreases s.len(),
{
    lemma_kinds();
    if s.len() > 0 {
        lemma_rows_list(s, s.len() - 1);
        assert(rows_ordered_list(s.drop_last()));
        lemma_variant_list_ok(s.drop_last(), eqn, file);
        let c = s.last();
        let name = field_text_of(c);
        if c.kind@ == "enum_variant"@ && name.len() > 0 {
            lemma_qual_in(eqn, name, file);
        }
        lemma_cat_ok(variant_list_out(s.drop_last(), eqn), variant_out(c, eqn), file);
    }
}

/// Every pending derive name is non-empty.
proof fn lemma_trimmed_nonempty(ps: Seq<Seq<char>>)
    ensures
        forall|i: int| 0 <= i < trimmed_names(ps).len() ==> (#[trigger] trimmed_names(ps)[i]).len() > 0,
    decreases ps.len(),
{
    if ps.len() > 0 {
        lemma_trimmed_nonempty(ps.drop_last());
        let r = trimmed_names(ps.drop_last());
        let t = crate::text::spec_trim(ps.last());
        if t.len() > 0 {
            assert forall|i: int| 0 <= i < r.push(t).len() implies (#[trigger] r.push(t)[i]).len() > 0 by {
                if i < r.len() {
                    assert(r.push(t)[i] == r[i]);
                }
            }
        }
    }
}

proof fn lemma_pending_nonempty(p: Seq<SyntaxNode>)
    ensures
        forall|i: int| 0 <= i < pending_derives(p).len() ==> (#[trigger] pending_derives(p)[i]).len() > 0,
    decreases p.len(),
{
    if p.len() > 0 {
        lemma_pending_nonempty(p.drop_last());
        let q = p.last();
        let d = pending_derives(p.drop_last());
        if q.kind@ == "attribute_item"@ {
            let dn = derive_names(q);
            match crate::parser::rust_attrs::derive_payload(q.text@) {
                Some(pl) => lemma_trimmed_nonempty(crate::text::split_pieces(pl, crate::text::Sep::Comma)),
                None => {},
            }
            assert forall|i: int| 0 <= i < (d + dn).len() implies (#[trigger] (d + dn)[i]).len() > 0 by {
                if i >= d.len() {
                    assert((d + dn)[i] == dn[i - d.len()]);
                }
            }
        }
    }
}

proof fn lemma_derive_refs_ok(from: Seq<char>, derives: Seq<Seq<char>>, file: Seq<char>)
    requires
        forall|i: int| 0 <= i < derives.len() ==> (#[trigger] derives[i]).len() > 0,
    ensures
        out_ok(derive_refs(from, derives), file),
    decreases derives.len(),
{
    lemma_kinds();
    if derives.len() > 0 {
        let d = derives.drop_last();
        assert forall|i: int| 0 <= i < d.len() implies (#[trigger] d[i]).len() > 0 by {
            assert(d[i] == derives[i]);
        }
        lemma_derive_refs_ok(from, d, file);
        assert(derives.last() == derives[derives.len() - 1]);
        lemma_cat_ok(derive_refs(from, d),
            Out { nodes: Seq::empty(), refs: seq![rf("DeriveImplements"@, from, derives.last())] }, file);
    }
}

proof fn lemma_struct_ok(n: SyntaxNode, scope: Seq<char>, derives: Seq<Seq<char>>, file: Seq<char>)
    requires
        rows_ordered(n),
        scope_in(scope, file),
        forall|i: int| 0 <= i < derives.len() ==> (#[trigger] derives[i]).len() > 0,
    ensures
        out_ok(struct_out(n, scope, derives), file),
{
    lemma_kinds();
    let name = field_text_of(n);
    if name.len() > 0 {
        let qn = spec_qual(scope, name);
        lemma_qual_in(scope, name, file);
        let head = one(sym("Struct"@, name, qn, n, visibility(n), implements_of(derives)), rf("Defines"@, scope, qn));
        let body = fields_out(n, qn, "field_declaration_list"@);
        match field_index(n.children@, "body"@) {
            Some(i) => if n.children@[i].kind@ == "field_declaration_list"@ {
                crate::parser::syntax::lemma_field_index(n.children@, "body"@);
                lemma_rows_list(n.children@, i);
                lemma_field_list_ok(n.children@[i].children@, qn, file);
            },
            None => {},
        }
        lemma_cat_ok(head, body, file);
        lemma_derive_refs_ok(qn, derives, file);
        lemma_cat_ok(cat(head, body), derive_refs(qn, derives), file);
    }
}

proof fn lemma_enum_ok(n: SyntaxNode, scope: Seq<char>, derives: Seq<Seq<char>>, file: Seq<char>)
    requires
        rows_ordered(n),
        scope_in(scope, file),
        forall|i: int| 0 <= i < derives.len() ==> (#[trigger] derives[i]).len() > 0,
    ensures
        out_ok(enum_out(n, scope, derives), file),
{
    lemma_kinds();
    let name = field_text_of(n);
    if name.len() > 0 {
        let qn = spec_qual(scope, name);
        lemma_qual_in(scope, name, file);
        let head = one(sym("Enum"@, name, qn, n, visibility(n), implements_of(derives)), rf("Defines"@, scope, qn));
        let body = match field_index(n.children@, "body"@) {
            Some(i) => if n.children@[i].kind@ == "enum_variant_list"@ {
                variant_list_out(n.children@[i].children@, qn)
            } else {
                no_out()
            },
            None => no_out(),
        };
        match field_index(n.children@, "body"@) {
            Some(i) => if n.children@[i].kind@ == "enum_variant_list"@ {
                crate::parser::syntax::lemma_field_index(n.children@, "body"@);
                lemma_rows_list(n.children@, i);
                lemma_variant_list_ok(n.children@[i].children@, qn, file);
            },
            None => {},
        }
        lemma_cat_ok(head, body, file);
        lemma_derive_refs_ok(qn, derives, file);
        lemma_cat_ok(cat(head, body), derive_refs(qn, derives), file);
    }
}

proof fn lemma_super_list_nonempty(s: Seq<SyntaxNode>)
    ensures
        forall|i: int| 0 <= i < super_list(s).len() ==> (#[trigger] super_list(s)[i]).len() > 0,
    decreases s.len(),
{
    if s.len() > 0 {
        lemma_super_list_nonempty(s.drop_last());
        let r = super_list(s.drop_last());
        let c = s.last();
        assert forall|i: int| 0 <= i < r.push(c.text@).len() && c.text@.len() > 0
            implies (#[trigger] r.push(c.text@)[i]).len() > 0 by {
            if i < r.len() {
                assert(r.push(c.text@)[i] == r[i]);
            }
        }
    }
}

proof fn lemma_trait_method_list_ok(s: Seq<SyntaxNode>, tqn: Seq<char>, file: Seq<char>)
    requires
        rows_ordered_list(s),
        in_file(tqn, file),
    ensures
        out_ok(trait_method_list_out(s, tqn), file),
    decreases s.len(),
{
    lemma_kinds();
    if s.len() > 0 {
        lemma_rows_list(s, s.len() - 1);
        assert(rows_ordered_list(s.drop_last()));
        lemma_trait_method_list_ok(s.drop_last(), tqn, file);
        let c = s.last();
        let name = field_text_of(c);
        if name.len() > 0 {
            lemma_qual_in(tqn, name, file);
        }
        lemma_cat_ok(trait_method_list_out(s.drop_last(), tqn), trait_method_out(c, tqn), file);
    }
}

proof fn lemma_trait_ok(n: SyntaxNode, scope: Seq<char>, file: Seq<char>)
    requires
        rows_ordered(n),
        scope_in(scope, file),
    ensures
        out_ok(trait_out(n, scope), file),
{
    lemma_kinds();
    let name = field_text_of(n);
    if name.len() > 0 {
        let qn = spec_qual(scope, name);
        lemma_qual_in(scope, name, file);
        let supers = supertraits(n);
        match field_index(n.children@, "bounds"@) {
            Some(i) => lemma_super_list_nonempty(n.children@[i].children@),
            None => {},
        }
        let props = if supers.len() == 0 { Seq::empty() } else { seq![("supertraits"@, crate::parser::naming::seq_join(supers, seq![',']))] };
        let head = one(sym("Trait"@, name, qn, n, visibility(n), props), rf("Defines"@, scope, qn));
        let ext = extends_refs(qn, supers);
        assert(out_ok(ext, file)) by {
            assert forall|i: int| 0 <= i < ext.refs.len() implies ref_ok(#[trigger] ext.refs[i]) by {
                assert(ext.refs[i] == rf("Extends"@, qn, supers[i]));
            }
        }
        let body = match field_index(n.children@, "body"@) {
            Some(i) => if n.children@[i].kind@ == "declaration_list"@ {
                trait_method_list_out(n.children@[i].children@, qn)
            } else {
                no_out()
            },
            None => no_out(),
        };
        match field_index(n.children@, "body"@) {
            Some(i) => if n.children@[i].kind@ == "declaration_list"@ {
                crate::parser::syntax::lemma_field_index(n.children@, "body"@);
                lemma_rows_list(n.children@, i);
                lemma_trait_method_list_ok(n.children@[i].children@, qn, file);
            },
            None => {},
        }
        lemma_cat_ok(head, ext, file);
        lemma_cat_ok(cat(head, ext), body, file);
    }
}

proof fn lemma_impl_method_list_ok(s: Seq<SyntaxNode>, rqn: Seq<char>, trait_name: Seq<char>, file: Seq<char>)
    requires
        rows_ordered_list(s),
        in_file(rqn, file),
    ensures
        out_ok(impl_method_list_out(s, rqn, trait_name), file),
    decreases s.len(),
{
    lemma_kinds();
    if s.len() > 0 {
        lemma_rows_list(s, s.len() - 1);
        assert(rows_ordered_list(s.drop_last()));
        lemma_impl_method_list_ok(s.drop_last(), rqn, trait_name, file);
        let c = s.last();
        let name = field_text_of(c);
        if (c.kind@ == "function_item"@ || c.kind@ == "function_signature_item"@) && name.len() > 0 {
            let mqn = spec_qual(rqn, name);
            lemma_qual_in(rqn, name, file);
            let base = seq![("is_async"@, crate::parser::naming::bool_text(has_async(c))), ("receiver_type"@, rqn)];
            let props = if trait_name.len() == 0 { base } else { base.push(("trait_name"@, trait_name)) };
            lemma_body_calls_ok(c, mqn, file);
            lemma_cat_ok(one(sym("Method"@, name, mqn, c, visibility(c), props), rf("HasMethod"@, rqn, mqn)),
                body_calls(c, mqn), file);
        }
        lemma_cat_ok(impl_method_list_out(s.drop_last(), rqn, trait_name), impl_method_out(c, rqn, trait_name), file);
    }
}

proof fn lemma_impl_ok(n: SyntaxNode, file: Seq<char>)
    requires
        rows_ordered(n),
    ensures
        out_ok(impl_out(n, file), file),
{
    let t = crate::parser::syntax::field_text(n, "type"@);
    if t.len() > 0 {
        lemma_qual_in(file, t, file);
        match field_index(n.children@, "body"@) {
            Some(i) => if n.children@[i].kind@ == "declaration_list"@ {
                crate::parser::syntax::lemma_field_index(n.children@, "body"@);
                lemma_rows_list(n.children@, i);
                lemma_impl_method_list_ok(n.children@[i].children@, spec_qual(file, t),
                    crate::parser::syntax::field_text(n, "trait"@), file);
            },
            None => {},
        }
    }
}

proof fn lemma_typed_ok(n: SyntaxNode, scope: Seq<char>, label: Seq<char>, key: Seq<char>, file: Seq<char>)
    requires
        rows_ordered(n),
        scope_in(scope, file),
    ensures
        out_ok(typed_out(n, scope, label, key), file),
{
    lemma_kinds();
    let name = field_text_of(n);
    if name.len() > 0 {
        lemma_qual_in(scope, name, file);
    }
}

proof fn lemma_imports_ok(ls: Seq<UseLeaf>, scope: Seq<char>, n: SyntaxNode, file: Seq<char>)
    requires
        rows_ordered(n),
        scope_in(scope, file),
    ensures
        out_ok(imports_out(ls, scope, n), file),
    decreases ls.len(),
{
    lemma_kinds();
    if ls.len() > 0 {
        lemma_imports_ok(ls.drop_last(), scope, n, file);
        let l = ls.last();
        if l.0.len() > 0 {
            let d = spec_import_display(l.0, l.1, l.2);
            assert(d.len() > 0);
            lemma_qual_in(scope, d, file);
        }
        lemma_cat_ok(imports_out(ls.drop_last(), scope, n), import_out(l, scope, n), file);
    }
}

proof fn lemma_item_ok(n: SyntaxNode, entry: Option<Seq<char>>, derives: Seq<Seq<char>>, scope: Seq<char>, file: Seq<char>)
    requires
        rows_ordered(n),
        scope_in(scope, file),
        forall|i: int| 0 <= i < derives.len() ==> (#[trigger] derives[i]).len() > 0,
    ensures
        out_ok(item_out(n, entry, derives, scope, file), file),
    decreases n,
{
    lemma_kinds();
    let k = n.kind@;
    if k == "function_item"@ {
        lemma_function_ok(n, scope, entry, file);
    } else if k == "struct_item"@ {
        lemma_struct_ok(n, scope, derives, file);
    } else if k == "enum_item"@ {
        lemma_enum_ok(n, scope, derives, file);
    } else if k == "trait_item"@ {
        lemma_trait_ok(n, scope, file);
    } else if k == "impl_item"@ {
        lemma_impl_ok(n, file);
    } else if k == "const_item"@ {
        lemma_typed_ok(n, scope, "Constant"@, "type_annotation"@, file);
    } else if k == "type_item"@ {
        lemma_typed_ok(n, scope, "TypeAlias"@, "target_type"@, file);
    } else if k == "use_declaration"@ {
        match field_index(n.children@, "argument"@) {
            Some(i) => lemma_imports_ok(use_leaves(n.children@[i], Seq::empty()), scope, n, file),
            None => {},
        }
    } else if k == "mod_item"@ {
        let name = field_text_of(n);
        if name.len() > 0 {
            let qn = spec_qual(scope, name);
            lemma_qual_in(scope, name, file);
            let head = one(sym("Module"@, name, qn, n, visibility(n), Seq::empty()), rf("Defines"@, scope, qn));
            let body = match field_index(n.children@, "body"@) {
                Some(i) => {
                    if n.children@[i].kind@ == "declaration_list"@ {
                        items_out(n.children@[i].children@, qn, file)
                    } else {
                        no_out()
                    }
                },
                None => no_out(),
            };
            match field_index(n.children@, "body"@) {
                Some(i) => {
                    crate::parser::syntax::lemma_field_index(n.children@, "body"@);
                    if n.children@[i].kind@ == "declaration_list"@ {
                        crate::parser::syntax::lemma_field_index(n.children@, "body"@);
                lemma_rows_list(n.children@, i);
                        lemma_items_ok(n.children@[i].children@, qn, file);
                    }
                },
                None => {},
            }
            lemma_cat_ok(head, body, file);
        }
    }
}

proof fn lemma_items_ok(s: Seq<SyntaxNode>, scope: Seq<char>, file: Seq<char>)
    requires
        rows_ordered_list(s),
        scope_in(scope, file),
    ensures
        out_ok(items_out(s, scope, file), file),
    decreases s,
{
    if s.len() > 0 {
        lemma_rows_list(s, s.len() - 1);
        assert(rows_ordered_list(s.drop_last()));
        lemma_items_ok(s.drop_last(), scope, file);
        lemma_pending_nonempty(s.drop_last());
        lemma_item_ok(s.last(), entry_scan_of(s.drop_last()), pending_derives(s.drop_last()), scope, file);
        lemma_cat_ok(items_out(s.drop_last(), scope, file),
            item_out(s.last(), entry_scan_of(s.drop_last()), pending_derives(s.drop_last()), scope, file), file);
    }
}

pub open spec fn entry_scan_of(p: Seq<SyntaxNode>) -> Option<Seq<char>> {
    crate::parser::rust_attrs::entry_scan(p)
}

/// Everything a Rust file yields is well formed: each symbol has a
/// non-empty name, a first line of at least 1 and at most its last line,
/// and a qualified name that starts with the file's path and `::`; each reference has a non-empty
/// kind and a non-empty target.
pub proof fn lemma_rust_out_well_formed(root: SyntaxNode, file: Seq<char>)
    requires
        rows_ordered(root),
    ensures
        out_ok(rust_file_out(root, file), file),
{
    lemma_items_ok(root.children@, file, file);
}

} // verus!
