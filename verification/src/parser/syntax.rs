//! A parsed syntax tree as plain values, the queries the language front
//! ends make of it, and the model of what a front end emits.

use vstd::prelude::*;
use crate::text::{str_eq, to_owned_string};
use crate::parser::{ExtractedNode, ExtractedRef};
use crate::parser::naming::views;

verus! {

/// One node of a concrete syntax tree: its grammar kind, the field name
/// it has under its parent (empty when none), whether it is a named node,
/// its source text, its start (row, column) and end row (0-based), its
/// byte span in the source, and its children in source order.
pub struct SyntaxNode {
    pub kind: String,
    pub field: String,
    pub named: bool,
    pub text: String,
    pub start_row: u64,
    pub start_col: u64,
    pub end_row: u64,
    pub start_byte: u64,
    pub end_byte: u64,
    pub children: Vec<SyntaxNode>,
}

/// Each node of the tree under `n` ends on a row at or after the row it
/// starts on.
pub open spec fn rows_ordered(n: SyntaxNode) -> bool
    decreases n,
{
    n.start_row <= n.end_row && rows_ordered_list(n.children@)
}

pub open spec fn rows_ordered_list(s: Seq<SyntaxNode>) -> bool
    decreases s,
{
    s.len() == 0 || (rows_ordered_list(s.drop_last()) && rows_ordered(s.last()))
}

/// Every node of a list whose trees are ordered is ordered.
pub proof fn lemma_rows_list(s: Seq<SyntaxNode>, i: int)
    requires
        rows_ordered_list(s),
        0 <= i < s.len(),
    ensures
        rows_ordered(s[i]),
    decreases s.len(),
{
    if i < s.len() - 1 {
        lemma_rows_list(s.drop_last(), i);
        assert(s.drop_last()[i] == s[i]);
    }
}

/// What a parse that yields no tree reports.
pub const NO_TREE: &'static str = "parse_timeout_or_none: tree-sitter returned None";

/// What a parse reports when tree-sitter refuses the grammar of the
/// language named `label` (with a trailing space; empty for Rust), `detail`
/// being tree-sitter's own text.
pub open spec fn language_refused(label: Seq<char>, detail: Seq<char>) -> Seq<char> {
    "failed to set "@ + label + "language: "@ + detail
}

/// `e` is what a parse reports when tree-sitter refuses the grammar of the
/// language named `label`, whatever tree-sitter's own text.
pub closed spec fn is_refusal(label: Seq<char>, e: Seq<char>) -> bool {
    exists|d: Seq<char>| e == language_refused(label, d)
}

/// `language_refused`, built.
pub fn language_refused_message(label: &str, detail: &str) -> (r: String)
    ensures
        r@ == language_refused(label@, detail@),
        is_refusal(label@, r@),
{
    let mut v = crate::text::chars_of("failed to set ");
    crate::parser::append_chars(&mut v, &crate::text::chars_of(label));
    crate::parser::append_chars(&mut v, &crate::text::chars_of("language: "));
    crate::parser::append_chars(&mut v, &crate::text::chars_of(detail));
    proof {
        assert(v@ =~= language_refused(label@, detail@));
    }
    crate::text::string_from_chars(&v)
}

/// The 1-based line of a 0-based row.
pub open spec fn spec_line(row: u64) -> u64 {
    if row < u64::MAX { (row + 1) as u64 } else { row }
}

pub fn line_of(row: u64) -> (r: u64)
    ensures
        r == spec_line(row),
{
    if row < u64::MAX { row + 1 } else { row }
}

/// The index of the first node of `s` with field name `f`.
pub open spec fn field_index(s: Seq<SyntaxNode>, f: Seq<char>) -> Option<int>
    decreases s.len(),
{
    if s.len() == 0 {
        None
    } else {
        match field_index(s.drop_last(), f) {
            Some(i) => Some(i),
            None => if s.last().field@ == f { Some(s.len() - 1) } else { None },
        }
    }
}

/// The index of the first node of `s` of kind `k`.
pub open spec fn kind_index(s: Seq<SyntaxNode>, k: Seq<char>) -> Option<int>
    decreases s.len(),
{
    if s.len() == 0 {
        None
    } else {
        match kind_index(s.drop_last(), k) {
            Some(i) => Some(i),
            None => if s.last().kind@ == k { Some(s.len() - 1) } else { None },
        }
    }
}

pub proof fn lemma_field_index(s: Seq<SyntaxNode>, f: Seq<char>)
    ensures
        match field_index(s, f) {
            Some(i) => 0 <= i < s.len() && s[i].field@ == f && forall|j: int| 0 <= j < i ==> (#[trigger] s[j]).field@ != f,
            None => forall|j: int| 0 <= j < s.len() ==> (#[trigger] s[j]).field@ != f,
        },
    decreases s.len(),
{
    if s.len() > 0 {
        let p = s.drop_last();
        lemma_field_index(p, f);
        assert forall|j: int| 0 <= j < p.len() implies p[j] == s[j] by {}
        match field_index(p, f) {
            Some(i) => {
                assert(p[i] == s[i]);
                assert forall|j: int| 0 <= j < i implies (#[trigger] s[j]).field@ != f by {
                    assert(p[j] == s[j]);
                }
            },
            None => {
                assert forall|j: int| 0 <= j < s.len() - 1 implies (#[trigger] s[j]).field@ != f by {
                    assert(p[j] == s[j]);
                }
            },
        }
    }
}

pub proof fn lemma_kind_index(s: Seq<SyntaxNode>, k: Seq<char>)
    ensures
        match kind_index(s, k) {
            Some(i) => 0 <= i < s.len() && s[i].kind@ == k && forall|j: int| 0 <= j < i ==> (#[trigger] s[j]).kind@ != k,
            None => forall|j: int| 0 <= j < s.len() ==> (#[trigger] s[j]).kind@ != k,
        },
    decreases s.len(),
{
    if s.len() > 0 {
        let p = s.drop_last();
        lemma_kind_index(p, k);
        assert forall|j: int| 0 <= j < p.len() implies p[j] == s[j] by {}
        match kind_index(p, k) {
            Some(i) => {
                assert(p[i] == s[i]);
                assert forall|j: int| 0 <= j < i implies (#[trigger] s[j]).kind@ != k by {
                    assert(p[j] == s[j]);
                }
            },
            None => {
                assert forall|j: int| 0 <= j < s.len() - 1 implies (#[trigger] s[j]).kind@ != k by {
                    assert(p[j] == s[j]);
                }
            },
        }
    }
}

/// The position of the first child of `n` with field name `f`.
pub fn field_pos(n: &SyntaxNode, f: &str) -> (r: Option<usize>)
    ensures
        match r {
            Some(i) => field_index(n.children@, f@) == Some(i as int) && i < n.children@.len(),
            None => field_index(n.children@, f@) is None,
        },
{
    let mut i: usize = 0;
    while i < n.children.len()
        invariant
            i <= n.children@.len(),
            field_index(n.children@.take(i as int), f@) is None,
        decreases n.children@.len() - i,
    {
        proof {
            assert(n.children@.take(i + 1).drop_last() =~= n.children@.take(i as int));
        }
        if str_eq(n.children[i].field.as_str(), f) {
            proof {
                lemma_prefix_field_index(n.children@, f@, i as int);
            }
            return Some(i);
        }
        i += 1;
    }
    assert(n.children@.take(i as int) =~= n.children@);
    None
}

proof fn lemma_prefix_field_index(s: Seq<SyntaxNode>, f: Seq<char>, i: int)
    requires
        0 <= i < s.len(),
        field_index(s.take(i), f) is None,
        s[i].field@ == f,
    ensures
        field_index(s, f) == Some(i),
{
    lemma_field_index(s.take(i), f);
    lemma_field_index(s, f);
    match field_index(s, f) {
        Some(j) => {
            if j < i {
                assert(s.take(i)[j] == s[j]);
            }
        },
        None => {},
    }
}

proof fn lemma_prefix_kind_index(s: Seq<SyntaxNode>, k: Seq<char>, i: int)
    requires
        0 <= i < s.len(),
        kind_index(s.take(i), k) is None,
        s[i].kind@ == k,
    ensures
        kind_index(s, k) == Some(i),
{
    lemma_kind_index(s.take(i), k);
    lemma_kind_index(s, k);
    match kind_index(s, k) {
        Some(j) => {
            if j < i {
                assert(s.take(i)[j] == s[j]);
            }
        },
        None => {},
    }
}

/// The position of the first child of `n` of kind `k`.
pub fn kind_pos(n: &SyntaxNode, k: &str) -> (r: Option<usize>)
    ensures
        match r {
            Some(i) => kind_index(n.children@, k@) == Some(i as int) && i < n.children@.len(),
            None => kind_index(n.children@, k@) is None,
        },
{
    let mut i: usize = 0;
    while i < n.children.len()
        invariant
            i <= n.children@.len(),
            kind_index(n.children@.take(i as int), k@) is None,
        decreases n.children@.len() - i,
    {
        proof {
            assert(n.children@.take(i + 1).drop_last() =~= n.children@.take(i as int));
        }
        if str_eq(n.children[i].kind.as_str(), k) {
            proof {
                lemma_prefix_kind_index(n.children@, k@, i as int);
            }
            return Some(i);
        }
        i += 1;
    }
    assert(n.children@.take(i as int) =~= n.children@);
    None
}

/// The text of the first child of `n` with field name `f`, or the empty
/// string.
pub open spec fn field_text(n: SyntaxNode, f: Seq<char>) -> Seq<char> {
    match field_index(n.children@, f) {
        Some(i) => n.children@[i].text@,
        None => Seq::empty(),
    }
}

pub fn exec_field_text(n: &SyntaxNode, f: &str) -> (r: String)
    ensures
        r@ == field_text(*n, f@),
{
    match field_pos(n, f) {
        Some(i) => to_owned_string(n.children[i].text.as_str()),
        None => String::new(),
    }
}

/// The text of the first child of `n` of kind `k`, or the empty string.
pub open spec fn kind_text(n: SyntaxNode, k: Seq<char>) -> Seq<char> {
    match kind_index(n.children@, k) {
        Some(i) => n.children@[i].text@,
        None => Seq::empty(),
    }
}

pub fn exec_kind_text(n: &SyntaxNode, k: &str) -> (r: String)
    ensures
        r@ == kind_text(*n, k@),
{
    match kind_pos(n, k) {
        Some(i) => to_owned_string(n.children[i].text.as_str()),
        None => String::new(),
    }
}

/// Some child of `n` has kind `k`.
pub open spec fn has_child_kind(n: SyntaxNode, k: Seq<char>) -> bool {
    exists|i: int| 0 <= i < n.children@.len() && (#[trigger] n.children@[i]).kind@ == k
}

pub fn exec_has_child_kind(n: &SyntaxNode, k: &str) -> (r: bool)
    ensures
        r == has_child_kind(*n, k@),
{
    let r = kind_pos(n, k);
    proof {
        lemma_kind_index(n.children@, k@);
    }
    r.is_some()
}

/// What a front end emits for one symbol: label, name, qualified name,
/// lines, visibility and properties.
pub struct NodeOut {
    pub label: Seq<char>,
    pub name: Seq<char>,
    pub qn: Seq<char>,
    pub start: u64,
    pub end: u64,
    pub vis: Seq<char>,
    pub props: Seq<(Seq<char>, Seq<char>)>,
}

/// What a front end emits for one reference.
pub struct RefOut {
    pub kind: Seq<char>,
    pub from: Seq<char>,
    pub to: Seq<char>,
}

/// Emitted symbols and references, each in emission order.
pub struct Out {
    pub nodes: Seq<NodeOut>,
    pub refs: Seq<RefOut>,
}

/// What a run has emitted, and the last number it gave out.
pub type Counted = (Out, u64);

pub open spec fn no_out() -> Out {
    Out { nodes: Seq::empty(), refs: Seq::empty() }
}

pub open spec fn cat(a: Out, b: Out) -> Out {
    Out { nodes: a.nodes + b.nodes, refs: a.refs + b.refs }
}

pub open spec fn one(n: NodeOut, r: RefOut) -> Out {
    Out { nodes: seq![n], refs: seq![r] }
}

pub open spec fn prop_views(p: Seq<(String, String)>) -> Seq<(Seq<char>, Seq<char>)> {
    p.map_values(|kv: (String, String)| (kv.0@, kv.1@))
}

pub open spec fn node_out(n: ExtractedNode) -> NodeOut {
    NodeOut {
        label: n.label@,
        name: n.name@,
        qn: n.qualified_name@,
        start: n.start_line,
        end: n.end_line,
        vis: n.visibility@,
        props: prop_views(n.properties@),
    }
}

pub open spec fn ref_out(r: ExtractedRef) -> RefOut {
    RefOut { kind: r.kind@, from: r.from_qualified_name@, to: r.to_qualified_name@ }
}

/// The symbols and references collected so far.
pub struct Emitted {
    pub nodes: Vec<ExtractedNode>,
    pub refs: Vec<ExtractedRef>,
}

impl Emitted {
    pub open spec fn out(&self) -> Out {
        Out {
            nodes: self.nodes@.map_values(|n: ExtractedNode| node_out(n)),
            refs: self.refs@.map_values(|r: ExtractedRef| ref_out(r)),
        }
    }

    pub fn new() -> (r: Emitted)
        ensures
            r.out() == no_out(),
    {
        let r = Emitted { nodes: Vec::new(), refs: Vec::new() };
        assert(r.out().nodes =~= Seq::<NodeOut>::empty());
        assert(r.out().refs =~= Seq::<RefOut>::empty());
        r
    }

    /// Emits one symbol and one reference.
    pub fn emit(&mut self, n: ExtractedNode, r: ExtractedRef)
        ensures
            final(self).out() == cat(old(self).out(), one(node_out(n), ref_out(r))),
    {
        self.nodes.push(n);
        self.refs.push(r);
        assert(self.out().nodes =~= cat(old(self).out(), one(node_out(n), ref_out(r))).nodes);
        assert(self.out().refs =~= cat(old(self).out(), one(node_out(n), ref_out(r))).refs);
    }

    /// Emits one reference.
    pub fn emit_ref(&mut self, r: ExtractedRef)
        ensures
            final(self).out() == cat(old(self).out(), Out { nodes: Seq::empty(), refs: seq![ref_out(r)] }),
    {
        self.refs.push(r);
        assert(self.out().nodes =~= old(self).out().nodes + Seq::<NodeOut>::empty());
        assert(self.out().refs =~= old(self).out().refs + seq![ref_out(r)]);
    }
}

pub proof fn lemma_cat_assoc(a: Out, b: Out, c: Out)
    ensures
        cat(cat(a, b), c) == cat(a, cat(b, c)),
{
    assert(cat(cat(a, b), c).nodes =~= cat(a, cat(b, c)).nodes);
    assert(cat(cat(a, b), c).refs =~= cat(a, cat(b, c)).refs);
}

pub proof fn lemma_cat_none(a: Out)
    ensures
        cat(a, no_out()) == a,
        cat(no_out(), a) == a,
{
    assert(cat(a, no_out()).nodes =~= a.nodes);
    assert(cat(a, no_out()).refs =~= a.refs);
    assert(cat(no_out(), a).nodes =~= a.nodes);
    assert(cat(no_out(), a).refs =~= a.refs);
}

/// A property pair.
pub fn prop(k: &str, v: &str) -> (r: (String, String))
    ensures
        r.0@ == k@ && r.1@ == v@,
{
    (to_owned_string(k), to_owned_string(v))
}

pub open spec fn str_views(v: Seq<String>) -> Seq<Seq<char>> {
    views(v)
}

/// A reference from `from` to `to`.
pub fn mk_ref(kind: &str, from: &str, to: &str) -> (r: ExtractedRef)
    ensures
        ref_out(r) == (RefOut { kind: kind@, from: from@, to: to@ }),
{
    ExtractedRef {
        kind: to_owned_string(kind),
        from_qualified_name: to_owned_string(from),
        to_qualified_name: to_owned_string(to),
    }
}

/// A symbol.
pub fn mk_node(label: &str, name: &str, qn: &str, start: u64, end: u64, vis: &str, props: Vec<(String, String)>)
    -> (r: ExtractedNode)
    ensures
        node_out(r) == (NodeOut { label: label@, name: name@, qn: qn@, start, end, vis: vis@, props: prop_views(props@) }),
{
    ExtractedNode {
        label: to_owned_string(label),
        name: to_owned_string(name),
        qualified_name: to_owned_string(qn),
        start_line: start,
        end_line: end,
        visibility: to_owned_string(vis),
        properties: props,
    }
}

} // verus!
