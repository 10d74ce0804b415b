//! What the outer attributes before a Rust item say of it: whether a
//! function is a harness entry point (`#[test]`, `#[kani::proof]`), and
//! which traits a `#[derive(..)]` run gives a struct or enum.

use vstd::prelude::*;
use crate::text::{chars_of, slice_to_vec, string_from_chars, str_eq, trim, spec_trim, split_nonempty, to_owned_string, str_is_empty,
    split_pieces, Sep};
use crate::parser::syntax::{SyntaxNode, field_index, field_pos};
use crate::parser::naming::views;

verus! {

// ---------------------------------------------------------------------------
// Entry points
// ---------------------------------------------------------------------------

/// The index of the first named node of `s`.
pub open spec fn first_named(s: Seq<SyntaxNode>) -> Option<int>
    decreases s.len(),
{
    if s.len() == 0 {
        None
    } else {
        match first_named(s.drop_last()) {
            Some(i) => Some(i),
            None => if s.last().named { Some(s.len() - 1) } else { None },
        }
    }
}

proof fn lemma_first_named(s: Seq<SyntaxNode>, i: int)
    requires
        0 <= i < s.len(),
        first_named(s.take(i)) is None,
    ensures
        s[i].named ==> first_named(s) == Some(i),
        !s[i].named ==> first_named(s.take(i + 1)) is None,
        first_named(s) matches Some(j) ==> 0 <= j < s.len(),
    decreases s.len(),
{
    lemma_first_named_range(s);
    if i == s.len() - 1 {
        assert(s.drop_last() =~= s.take(i));
        assert(s.take(i + 1) =~= s);
    } else {
        assert(s.drop_last().take(i) =~= s.take(i));
        lemma_first_named(s.drop_last(), i);
        assert(s.drop_last()[i] == s[i]);
        assert(s.drop_last().take(i + 1) =~= s.take(i + 1));
    }
}

proof fn lemma_first_named_range(s: Seq<SyntaxNode>)
    ensures
        first_named(s) matches Some(j) ==> 0 <= j < s.len(),
    decreases s.len(),
{
    if s.len() > 0 {
        lemma_first_named_range(s.drop_last());
    }
}

/// The position of the first named node of `s`.
pub fn ex_first_named(s: &Vec<SyntaxNode>) -> (r: Option<usize>)
    ensures
        match r {
            Some(i) => first_named(s@) == Some(i as int) && i < s@.len(),
            None => first_named(s@) is None,
        },
{
    let mut i: usize = 0;
    assert(s@.take(0) =~= Seq::<SyntaxNode>::empty());
    while i < s.len()
        invariant
            i <= s@.len(),
            first_named(s@.take(i as int)) is None,
        decreases s@.len() - i,
    {
        proof {
            lemma_first_named(s@, i as int);
        }
        if s[i].named {
            return Some(i);
        }
        i += 1;
    }
    assert(s@.take(i as int) =~= s@);
    None
}

/// What an `attribute_item` marks: `test` for exactly `#[test]`, `proof`
/// for exactly `#[kani::proof]` (spaces around `::` allowed), nothing for
/// any other attribute or one with arguments or a value.
pub open spec fn entry_attribute(item: SyntaxNode) -> Option<Seq<char>> {
    match first_named(item.children@) {
        None => None,
        Some(a) => {
            let attr = item.children@[a];
            if attr.kind@ != "attribute"@ || field_index(attr.children@, "arguments"@) is Some
                || field_index(attr.children@, "value"@) is Some {
                None
            } else {
                match first_named(attr.children@) {
                    None => None,
                    Some(q) => {
                        let path = attr.children@[q];
                        if path.kind@ == "identifier"@ && path.text@ == "test"@ {
                            Some("test"@)
                        } else if path.kind@ != "scoped_identifier"@ {
                            None
                        } else {
                            match (field_index(path.children@, "path"@), field_index(path.children@, "name"@)) {
                                (Some(x), Some(y)) => if path.children@[x].kind@ == "identifier"@
                                    && path.children@[x].text@ == "kani"@ && path.children@[y].kind@ == "identifier"@
                                    && path.children@[y].text@ == "proof"@ {
                                    Some("proof"@)
                                } else {
                                    None
                                },
                                _ => None,
                            }
                        }
                    },
                }
            }
        },
    }
}

/// The entry mark of what follows `q`, given `e`, the mark of what follows
/// the siblings before `q`: attributes gather (a `proof` wins over a
/// `test`), comments and unnamed nodes pass through, anything else ends the
/// run.
pub open spec fn entry_step(e: Option<Seq<char>>, q: SyntaxNode) -> Option<Seq<char>> {
    if !q.named {
        e
    } else if q.kind@ == "attribute_item"@ {
        let here = entry_attribute(q);
        if here == Some("proof"@) {
            here
        } else if e is Some {
            e
        } else {
            here
        }
    } else if q.kind@ == "line_comment"@ || q.kind@ == "block_comment"@ {
        e
    } else {
        None
    }
}

/// The entry mark of an item that follows the siblings `p`.
pub open spec fn entry_scan(p: Seq<SyntaxNode>) -> Option<Seq<char>>
    decreases p.len(),
{
    if p.len() == 0 { None } else { entry_step(entry_scan(p.drop_last()), p.last()) }
}

pub open spec fn opt_str(e: Option<&'static str>) -> Option<Seq<char>> {
    match e {
        Some(s) => Some(s@),
        None => None,
    }
}

/// `entry_attribute`, computed.
pub fn ex_entry_attribute(item: &SyntaxNode) -> (r: Option<&'static str>)
    ensures
        opt_str(r) == entry_attribute(*item),
{
    proof {
        reveal_strlit("test");
        reveal_strlit("proof");
    }
    let a = match ex_first_named(&item.children) {
        Some(a) => a,
        None => return None,
    };
    let attr = &item.children[a];
    if !str_eq(attr.kind.as_str(), "attribute") || field_pos(attr, "arguments").is_some()
        || field_pos(attr, "value").is_some() {
        return None;
    }
    let q = match ex_first_named(&attr.children) {
        Some(q) => q,
        None => return None,
    };
    let path = &attr.children[q];
    if str_eq(path.kind.as_str(), "identifier") && str_eq(path.text.as_str(), "test") {
        return Some("test");
    }
    if !str_eq(path.kind.as_str(), "scoped_identifier") {
        return None;
    }
    match (field_pos(path, "path"), field_pos(path, "name")) {
        (Some(x), Some(y)) => {
            if str_eq(path.children[x].kind.as_str(), "identifier") && str_eq(path.children[x].text.as_str(), "kani")
                && str_eq(path.children[y].kind.as_str(), "identifier")
                && str_eq(path.children[y].text.as_str(), "proof") {
                Some("proof")
            } else {
                None
            }
        },
        _ => None,
    }
}

/// `entry_step`, computed.
pub fn ex_entry_step(e: Option<&'static str>, q: &SyntaxNode) -> (r: Option<&'static str>)
    ensures
        opt_str(r) == entry_step(opt_str(e), *q),
{
    proof {
        reveal_strlit("proof");
    }
    if !q.named {
        e
    } else if str_eq(q.kind.as_str(), "attribute_item") {
        let here = ex_entry_attribute(q);
        match here {
            Some(h) => {
                if str_eq(h, "proof") {
                    here
                } else if e.is_some() {
                    e
                } else {
                    here
                }
            },
            None => {
                if e.is_some() { e } else { here }
            },
        }
    } else if str_eq(q.kind.as_str(), "line_comment") || str_eq(q.kind.as_str(), "block_comment") {
        e
    } else {
        None
    }
}

// ---------------------------------------------------------------------------
// Derives
// ---------------------------------------------------------------------------

/// The argument text of a `#[derive(..)]` attribute's text, or nothing when
/// the attribute is not a derive.
pub open spec fn derive_payload(t: Seq<char>) -> Option<Seq<char>> {
    let tr = spec_trim(t);
    if tr.len() >= 3 && tr.take(2) == seq!['#', '['] && tr.last() == ']' {
        let inner = spec_trim(tr.subrange(2, tr.len() - 1));
        if inner.len() >= 8 && inner.take(7) == seq!['d', 'e', 'r', 'i', 'v', 'e', '('] && inner.last() == ')' {
            Some(inner.subrange(7, inner.len() - 1))
        } else {
            None
        }
    } else {
        None
    }
}

/// The trimmed pieces of `ps`, empty ones left out.
pub open spec fn trimmed_names(ps: Seq<Seq<char>>) -> Seq<Seq<char>>
    decreases ps.len(),
{
    if ps.len() == 0 {
        Seq::empty()
    } else {
        let t = spec_trim(ps.last());
        if t.len() > 0 { trimmed_names(ps.drop_last()).push(t) } else { trimmed_names(ps.drop_last()) }
    }
}

/// The trait names a `#[derive(A, B)]` attribute item names, in order;
/// none for any other attribute.
pub open spec fn derive_names(item: SyntaxNode) -> Seq<Seq<char>> {
    match derive_payload(item.text@) {
        Some(p) => trimmed_names(split_pieces(p, Sep::Comma)),
        None => Seq::empty(),
    }
}

/// The item kinds that take the derives gathered before them, or drop them.
pub open spec fn takes_derives(k: Seq<char>) -> bool {
    k == "function_item"@ || k == "struct_item"@ || k == "union_item"@ || k == "enum_item"@
        || k == "trait_item"@ || k == "impl_item"@ || k == "const_item"@ || k == "static_item"@
        || k == "macro_definition"@ || k == "type_item"@ || k == "use_declaration"@
        || k == "extern_crate_declaration"@ || k == "mod_item"@
}

/// The derives pending for what follows `q`, given `d`, those pending
/// before it: an attribute adds its derive names, an item takes them
/// (leaving none), anything else passes them on.
pub open spec fn pending_step(d: Seq<Seq<char>>, q: SyntaxNode) -> Seq<Seq<char>> {
    if q.kind@ == "attribute_item"@ {
        d + derive_names(q)
    } else if takes_derives(q.kind@) {
        Seq::empty()
    } else {
        d
    }
}

/// The derives pending for an item that follows the siblings `p`.
pub open spec fn pending_derives(p: Seq<SyntaxNode>) -> Seq<Seq<char>>
    decreases p.len(),
{
    if p.len() == 0 { Seq::empty() } else { pending_step(pending_derives(p.drop_last()), p.last()) }
}

fn ex_takes_derives(k: &str) -> (r: bool)
    ensures
        r == takes_derives(k@),
{
    str_eq(k, "function_item") || str_eq(k, "struct_item") || str_eq(k, "union_item") || str_eq(k, "enum_item")
        || str_eq(k, "trait_item") || str_eq(k, "impl_item") || str_eq(k, "const_item") || str_eq(k, "static_item")
        || str_eq(k, "macro_definition") || str_eq(k, "type_item") || str_eq(k, "use_declaration")
        || str_eq(k, "extern_crate_declaration") || str_eq(k, "mod_item")
}

/// `derive_payload`, computed.
fn ex_derive_payload(t: &str) -> (r: Option<String>)
    ensures
        match r {
            Some(p) => derive_payload(t@) == Some(p@),
            None => derive_payload(t@) is None,
        },
{
    let tr = trim(t);
    let cs = chars_of(tr.as_str());
    let n = cs.len();
    if n >= 3 && cs[0] == '#' && cs[1] == '[' && cs[n - 1] == ']' {
        proof {
            assert(cs@.take(2) =~= seq!['#', '[']);
        }
        let mid = slice_to_vec(cs.as_slice(), 2, n - 1);
        let mid_s = string_from_chars(mid.as_slice());
        let inner = trim(mid_s.as_str());
        let ic = chars_of(inner.as_str());
        let m = ic.len();
        if m >= 8 && ic[0] == 'd' && ic[1] == 'e' && ic[2] == 'r' && ic[3] == 'i' && ic[4] == 'v' && ic[5] == 'e'
            && ic[6] == '(' && ic[m - 1] == ')' {
            proof {
                assert(ic@.take(7) =~= seq!['d', 'e', 'r', 'i', 'v', 'e', '(']);
            }
            let body = slice_to_vec(ic.as_slice(), 7, m - 1);
            Some(string_from_chars(body.as_slice()))
        } else {
            proof {
                if m >= 8 && ic@.take(7) == seq!['d', 'e', 'r', 'i', 'v', 'e', '('] {
                    assert(ic@.take(7)[0] == 'd' && ic@.take(7)[1] == 'e' && ic@.take(7)[2] == 'r');
                    assert(ic@.take(7)[3] == 'i' && ic@.take(7)[4] == 'v' && ic@.take(7)[5] == 'e');
                    assert(ic@.take(7)[6] == '(');
                }
            }
            None
        }
    } else {
        proof {
            if n >= 3 && cs@.take(2) == seq!['#', '['] {
                assert(cs@.take(2)[0] == '#' && cs@.take(2)[1] == '[');
            }
        }
        None
    }
}

/// `derive_names`, computed.
pub fn ex_derive_names(item: &SyntaxNode) -> (r: Vec<String>)
    ensures
        views(r@) == derive_names(*item),
{
    let mut out: Vec<String> = Vec::new();
    match ex_derive_payload(item.text.as_str()) {
        None => {
            assert(views(out@) =~= Seq::<Seq<char>>::empty());
            out
        },
        Some(p) => {
            let pcs = chars_of(p.as_str());
            let pieces = split_nonempty(pcs.as_slice(), Sep::Comma);
            let ghost ps = split_pieces(p@, Sep::Comma);
            let mut i: usize = 0;
            assert(ps.take(0) =~= Seq::<Seq<char>>::empty());
            assert(views(out@) =~= Seq::<Seq<char>>::empty());
            while i < pieces.len()
                invariant
                    i <= pieces@.len(),
                    pieces@.len() == ps.len(),
                    forall|j: int| 0 <= j < pieces@.len() ==> (#[trigger] pieces@[j])@ == ps[j],
                    views(out@) == trimmed_names(ps.take(i as int)),
                decreases pieces@.len() - i,
            {
                let s = string_from_chars(pieces[i].as_slice());
                let t = trim(s.as_str());
                proof {
                    assert(ps.take(i + 1).drop_last() =~= ps.take(i as int));
                    assert(ps.take(i + 1).last() == ps[i as int]);
                }
                if !str_is_empty(t.as_str()) {
                    let ghost before = out@;
                    out.push(t);
                    proof {
                        assert(views(out@) =~= views(before).push(out@[before.len() as int]@));
                    }
                } else {
                    proof {
                        assert(t@.len() == 0);
                    }
                }
                i += 1;
            }
            assert(ps.take(pieces@.len() as int) =~= ps);
            out
        },
    }
}

/// `pending_step`, computed.
pub fn ex_pending_step(d: Vec<String>, q: &SyntaxNode) -> (r: Vec<String>)
    ensures
        views(r@) == pending_step(views(d@), *q),
{
    if str_eq(q.kind.as_str(), "attribute_item") {
        let names = ex_derive_names(q);
        let mut out = d;
        let ghost before = out@;
        let mut i: usize = 0;
        while i < names.len()
            invariant
                i <= names@.len(),
                views(out@) == views(before) + views(names@).take(i as int),
            decreases names@.len() - i,
        {
            let ghost o = out@;
            out.push(to_owned_string(names[i].as_str()));
            proof {
                assert(views(out@) =~= views(o).push(names@[i as int]@));
                assert(views(names@).take(i + 1) =~= views(names@).take(i as int).push(names@[i as int]@));
            }
            i += 1;
        }
        assert(views(names@).take(names@.len() as int) =~= views(names@));
        out
    } else if ex_takes_derives(q.kind.as_str()) {
        let out: Vec<String> = Vec::new();
        assert(views(out@) =~= Seq::<Seq<char>>::empty());
        out
    } else {
        d
    }
}

} // verus!
