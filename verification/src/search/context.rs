//! The 360° view of one symbol, read off the code graph: where it is, what
//! it imports, calls, implements and uses and what does so to it, its
//! community and the processes it takes part in.

use vstd::prelude::*;
use crate::graph::{CodeGraph, GraphNode, GraphEdge, spec_prop_or_empty, prop_or_empty};
use crate::text::{chars_of, str_eq, string_from_chars, to_owned_string, seq_starts_with, starts_with, is_ascii_digit};
use crate::semantic_diff::{node_by_id, find_node};
use crate::search::bm25::{spec_extract_file_path, extract_file_path};
use crate::parser::append_chars;

verus! {

pub struct RelatedSymbol {
    pub qualified_name: String,
    pub name: String,
    pub label: String,
}

pub struct CommunityInfo {
    pub id: String,
    pub name: String,
    pub member_count: u64,
}

pub struct ProcessRef {
    pub name: String,
    pub role: String,
}

pub struct SymbolContext {
    pub qualified_name: String,
    pub name: String,
    pub label: String,
    pub file_path: String,
    pub start_line: Option<u64>,
    pub end_line: Option<u64>,
    pub visibility: Option<String>,
    pub imports: Vec<RelatedSymbol>,
    pub imported_by: Vec<RelatedSymbol>,
    pub calls: Vec<RelatedSymbol>,
    pub called_by: Vec<RelatedSymbol>,
    pub implements: Vec<RelatedSymbol>,
    pub implemented_by: Vec<RelatedSymbol>,
    pub uses: Vec<RelatedSymbol>,
    pub used_by: Vec<RelatedSymbol>,
    pub community: Option<CommunityInfo>,
    pub processes: Vec<ProcessRef>,
}

pub open spec fn rs_view(r: RelatedSymbol) -> (Seq<char>, Seq<char>, Seq<char>) {
    (r.qualified_name@, r.name@, r.label@)
}

pub open spec fn rs_views(s: Seq<RelatedSymbol>) -> Seq<(Seq<char>, Seq<char>, Seq<char>)> {
    s.map_values(|r: RelatedSymbol| rs_view(r))
}

pub open spec fn pr_views(s: Seq<ProcessRef>) -> Seq<(Seq<char>, Seq<char>)> {
    s.map_values(|p: ProcessRef| (p.name@, p.role@))
}

/// A node answers to `x` by qualified name or by id.
pub open spec fn matches_symbol(n: GraphNode, x: Seq<char>) -> bool {
    n.qualified_name@ == x || n.id@ == x
}

/// The first node with `label` that answers to `x`.
pub open spec fn first_labeled_match(nodes: Seq<GraphNode>, label: Seq<char>, x: Seq<char>) -> Option<GraphNode>
    decreases nodes.len(),
{
    if nodes.len() == 0 {
        None
    } else if nodes[0].label@ == label && matches_symbol(nodes[0], x) {
        Some(nodes[0])
    } else {
        first_labeled_match(nodes.drop_first(), label, x)
    }
}

/// The labels whose nodes carry line numbers and a visibility, in the order
/// they are tried.
pub open spec fn lined_labels() -> Seq<Seq<char>> {
    seq!["Function"@, "Method"@, "Struct"@, "Enum"@, "Trait"@]
}

/// The other symbol labels, tried after those.
pub open spec fn plain_labels() -> Seq<Seq<char>> {
    seq!["Module"@, "Constant"@, "TypeAlias"@]
}

/// The first label of `labels` with a node answering to `x`, and that node.
pub open spec fn first_in_labels(nodes: Seq<GraphNode>, labels: Seq<Seq<char>>, x: Seq<char>) -> Option<(Seq<char>, GraphNode)>
    decreases labels.len(),
{
    if labels.len() == 0 {
        None
    } else {
        match first_labeled_match(nodes, labels[0], x) {
            Some(n) => Some((labels[0], n)),
            None => first_in_labels(nodes, labels.drop_first(), x),
        }
    }
}

/// Where a symbol is: its label, name, file, lines and visibility.
pub struct NodeDetails {
    pub label: String,
    pub name: String,
    pub file_path: String,
    pub start_line: Option<u64>,
    pub end_line: Option<u64>,
    pub visibility: Option<String>,
}

pub open spec fn opt_view(o: Option<String>) -> Option<Seq<char>> {
    match o {
        Some(s) => Some(s@),
        None => None,
    }
}

/// The details of the symbol `x` answers to, found by label in the order
/// Function, Method, Struct, Enum, Trait (with lines and visibility), then
/// Module, Constant, TypeAlias (without).
pub open spec fn spec_details(nodes: Seq<GraphNode>, x: Seq<char>)
    -> Option<(Seq<char>, Seq<char>, Seq<char>, Option<u64>, Option<u64>, Option<Seq<char>>)>
{
    match first_in_labels(nodes, lined_labels(), x) {
        Some((l, n)) => Some((l, n.name@, spec_extract_file_path(n.qualified_name@), n.start_line, n.end_line, Some(n.visibility@))),
        None => match first_in_labels(nodes, plain_labels(), x) {
            Some((l, n)) => Some((l, n.name@, spec_extract_file_path(n.qualified_name@), None, None, None)),
            None => None,
        },
    }
}

fn labeled_match(nodes: &Vec<GraphNode>, label: &str, x: &str) -> (r: Option<usize>)
    ensures
        match r {
            Some(k) => k < nodes@.len() && first_labeled_match(nodes@, label@, x@) == Some(nodes@[k as int]),
            None => first_labeled_match(nodes@, label@, x@) is None,
        },
{
    let mut i: usize = 0;
    assert(nodes@.skip(0) =~= nodes@);
    while i < nodes.len()
        invariant
            i <= nodes@.len(),
            first_labeled_match(nodes@, label@, x@) == first_labeled_match(nodes@.skip(i as int), label@, x@),
        decreases nodes@.len() - i,
    {
        proof {
            assert(nodes@.skip(i as int)[0] == nodes@[i as int]);
            assert(nodes@.skip(i as int).drop_first() =~= nodes@.skip(i + 1));
        }
        let n = &nodes[i];
        if str_eq(n.label.as_str(), label) && (str_eq(n.qualified_name.as_str(), x) || str_eq(n.id.as_str(), x)) {
            return Some(i);
        }
        i += 1;
    }
    None
}

fn copy_opt(o: &Option<u64>) -> (r: Option<u64>)
    ensures
        r == *o,
{
    match o {
        Some(v) => Some(*v),
        None => None,
    }
}

/// Looks up where the symbol `x` answers to is.
pub fn find_node_details(graph: &CodeGraph, x: &str) -> (r: Option<NodeDetails>)
    ensures
        match r {
            Some(d) => spec_details(graph.nodes@, x@)
                == Some((d.label@, d.name@, d.file_path@, d.start_line, d.end_line, opt_view(d.visibility))),
            None => spec_details(graph.nodes@, x@) is None,
        },
{
    let nodes = &graph.nodes;
    let lined: Vec<&str> = vec!["Function", "Method", "Struct", "Enum", "Trait"];
    let plain: Vec<&str> = vec!["Module", "Constant", "TypeAlias"];
    let ghost ll = lined_labels();
    let ghost pl = plain_labels();
    proof {
        assert(lined@.len() == 5);
        assert(ll.skip(0) =~= ll);
        assert(pl.skip(0) =~= pl);
    }
    let mut j: usize = 0;
    while j < lined.len()
        invariant
            j <= lined@.len(),
            lined@.len() == 5,
            forall|k: int| 0 <= k < 5 ==> (#[trigger] lined@[k])@ == ll[k],
            ll == lined_labels(),
            nodes@ == graph.nodes@,
            first_in_labels(nodes@, ll, x@) == first_in_labels(nodes@, ll.skip(j as int), x@),
        decreases lined@.len() - j,
    {
        proof {
            assert(ll.skip(j as int)[0] == ll[j as int]);
            assert(ll.skip(j as int).drop_first() =~= ll.skip(j + 1));
        }
        match labeled_match(nodes, lined[j], x) {
            Some(k) => {
                let n = &nodes[k];
                return Some(NodeDetails {
                    label: to_owned_string(lined[j]),
                    name: to_owned_string(n.name.as_str()),
                    file_path: extract_file_path(n.qualified_name.as_str()),
                    start_line: copy_opt(&n.start_line),
                    end_line: copy_opt(&n.end_line),
                    visibility: Some(to_owned_string(n.visibility.as_str())),
                });
            },
            None => {},
        }
        j += 1;
    }
    proof {
        assert(ll.skip(5).len() == 0);
        assert(pl.skip(0) =~= pl);
    }
    let mut j: usize = 0;
    while j < plain.len()
        invariant
            j <= plain@.len(),
            plain@.len() == 3,
            forall|k: int| 0 <= k < 3 ==> (#[trigger] plain@[k])@ == pl[k],
            pl == plain_labels(),
            nodes@ == graph.nodes@,
            first_in_labels(nodes@, lined_labels(), x@) is None,
            first_in_labels(nodes@, pl, x@) == first_in_labels(nodes@, pl.skip(j as int), x@),
        decreases plain@.len() - j,
    {
        proof {
            assert(pl.skip(j as int)[0] == pl[j as int]);
            assert(pl.skip(j as int).drop_first() =~= pl.skip(j + 1));
        }
        match labeled_match(nodes, plain[j], x) {
            Some(k) => {
                let n = &nodes[k];
                return Some(NodeDetails {
                    label: to_owned_string(plain[j]),
                    name: to_owned_string(n.name.as_str()),
                    file_path: extract_file_path(n.qualified_name.as_str()),
                    start_line: None,
                    end_line: None,
                    visibility: None,
                });
            },
            None => {},
        }
        j += 1;
    }
    proof {
        assert(pl.skip(3).len() == 0);
    }
    None
}

/// The symbols reached by the edges of the tables named `prefix…` that
/// leave the symbol `x` answers to, in edge order.
pub open spec fn related_out(nodes: Seq<GraphNode>, edges: Seq<GraphEdge>, x: Seq<char>, prefix: Seq<char>)
    -> Seq<(Seq<char>, Seq<char>, Seq<char>)>
    decreases edges.len(),
{
    if edges.len() == 0 {
        Seq::empty()
    } else {
        let p = related_out(nodes, edges.drop_last(), x, prefix);
        let e = edges.last();
        if seq_starts_with(e.rel@, prefix) {
            match (node_by_id(nodes, e.from_id@), node_by_id(nodes, e.to_id@)) {
                (Some(a), Some(b)) => if matches_symbol(a, x) {
                    p.push((b.qualified_name@, b.name@, b.label@))
                } else {
                    p
                },
                _ => p,
            }
        } else {
            p
        }
    }
}

/// The symbols whose edges of the tables named `prefix…` reach the symbol
/// `x` answers to, in edge order.
pub open spec fn related_in(nodes: Seq<GraphNode>, edges: Seq<GraphEdge>, x: Seq<char>, prefix: Seq<char>)
    -> Seq<(Seq<char>, Seq<char>, Seq<char>)>
    decreases edges.len(),
{
    if edges.len() == 0 {
        Seq::empty()
    } else {
        let p = related_in(nodes, edges.drop_last(), x, prefix);
        let e = edges.last();
        if seq_starts_with(e.rel@, prefix) {
            match (node_by_id(nodes, e.from_id@), node_by_id(nodes, e.to_id@)) {
                (Some(a), Some(b)) => if matches_symbol(b, x) {
                    p.push((a.qualified_name@, a.name@, a.label@))
                } else {
                    p
                },
                _ => p,
            }
        } else {
            p
        }
    }
}

fn related_symbol(n: &GraphNode) -> (r: RelatedSymbol)
    ensures
        rs_view(r) == (n.qualified_name@, n.name@, n.label@),
{
    RelatedSymbol {
        qualified_name: to_owned_string(n.qualified_name.as_str()),
        name: to_owned_string(n.name.as_str()),
        label: to_owned_string(n.label.as_str()),
    }
}

/// The symbols `x`'s outgoing `prefix…` edges reach (`outgoing`), or those
/// whose such edges reach `x` (not `outgoing`).
pub fn find_related(graph: &CodeGraph, x: &str, prefix: &str, outgoing: bool) -> (r: Vec<RelatedSymbol>)
    ensures
        rs_views(r@) == if outgoing {
            related_out(graph.nodes@, graph.edges@, x@, prefix@)
        } else {
            related_in(graph.nodes@, graph.edges@, x@, prefix@)
        },
{
    let nodes = &graph.nodes;
    let edges = &graph.edges;
    let pv = chars_of(prefix);
    let mut out: Vec<RelatedSymbol> = Vec::new();
    let mut i: usize = 0;
    while i < edges.len()
        invariant
            i <= edges@.len(),
            nodes@ == graph.nodes@,
            edges@ == graph.edges@,
            pv@ == prefix@,
            rs_views(out@) == if outgoing {
                related_out(nodes@, edges@.take(i as int), x@, prefix@)
            } else {
                related_in(nodes@, edges@.take(i as int), x@, prefix@)
            },
        decreases edges@.len() - i,
    {
        proof {
            assert(edges@.take(i + 1).drop_last() =~= edges@.take(i as int));
            assert(edges@.take(i + 1).last() == edges@[i as int]);
        }
        let e = &edges[i];
        let rel = chars_of(e.rel.as_str());
        if starts_with(&rel, &pv) {
            match (find_node(nodes, e.from_id.as_str()), find_node(nodes, e.to_id.as_str())) {
                (Some(a), Some(b)) => {
                    let near = if outgoing { a } else { b };
                    let far = if outgoing { b } else { a };
                    if str_eq(nodes[near].qualified_name.as_str(), x) || str_eq(nodes[near].id.as_str(), x) {
                        let ghost before = rs_views(out@);
                        out.push(related_symbol(&nodes[far]));
                        proof {
                            assert(rs_views(out@) =~= before.push(rs_view(out@.last())));
                        }
                    }
                },
                _ => {},
            }
        }
        i += 1;
    }
    proof {
        assert(edges@.take(edges@.len() as int) =~= edges@);
    }
    out
}

// ---------------------------------------------------------------------------
// Numbers and quoting
// ---------------------------------------------------------------------------

/// The value of a string of decimal digits.
pub open spec fn digits_value(d: Seq<char>) -> nat
    decreases d.len(),
{
    if d.len() == 0 {
        0
    } else {
        digits_value(d.drop_last()) * 10 + ((d.last() as u32) - ('0' as u32)) as nat
    }
}

/// `str::parse::<u64>`: an optional `+` and then one or more ASCII digits
/// whose value fits in a `u64`.
pub open spec fn spec_parse_u64(s: Seq<char>) -> Option<u64> {
    let d = unsigned_digits(s);
    if d.len() > 0 && all_digits(d) && digits_value(d) <= u64::MAX {
        Some(digits_value(d) as u64)
    } else {
        None
    }
}

/// `s` without a leading `+`.
pub open spec fn unsigned_digits(s: Seq<char>) -> Seq<char> {
    if s.len() > 0 && s[0] == '+' { s.drop_first() } else { s }
}

/// Every char of `d` is an ASCII digit.
pub open spec fn all_digits(d: Seq<char>) -> bool {
    forall|i: int| 0 <= i < d.len() ==> is_ascii_digit(#[trigger] d[i])
}

proof fn lemma_digits_value_grows(d: Seq<char>, k: int)
    requires
        0 <= k <= d.len(),
        forall|i: int| 0 <= i < d.len() ==> is_ascii_digit(#[trigger] d[i]),
    ensures
        digits_value(d.take(k)) <= digits_value(d),
    decreases d.len() - k,
{
    if k < d.len() {
        lemma_digits_value_grows(d, k + 1);
        assert(d.take(k + 1).drop_last() =~= d.take(k));
    } else {
        assert(d.take(k) =~= d);
    }
}

/// Parses a `u64` as `str::parse` does.
pub fn parse_u64(s: &str) -> (r: Option<u64>)
    ensures
        r == spec_parse_u64(s@),
{
    let cs = chars_of(s);
    let start: usize = if cs.len() > 0 && cs[0] == '+' { 1 } else { 0 };
    let ghost d = unsigned_digits(s@);
    proof {
        assert(cs@.skip(start as int) =~= d);
    }
    if start >= cs.len() {
        return None;
    }
    let mut value: u64 = 0;
    let mut i: usize = start;
    while i < cs.len()
        invariant
            start <= i <= cs@.len(),
            cs@ == s@,
            cs@.skip(start as int) == d,
            d == unsigned_digits(s@),
            d.len() > 0,
            forall|k: int| 0 <= k < i - start ==> is_ascii_digit(#[trigger] d[k]),
            value == digits_value(d.take(i - start)),
        decreases cs@.len() - i,
    {
        let c = cs[i];
        proof {
            assert(d[i - start] == c);
            assert(d.take(i - start + 1).drop_last() =~= d.take(i - start));
        }
        if !('0' <= c && c <= '9') {
            proof {
                assert(!is_ascii_digit(d[i - start]));
                assert(!all_digits(d));
            }
            return None;
        }
        let digit: u64 = (c as u32 - '0' as u32) as u64;
        match value.checked_mul(10) {
            Some(m) => match m.checked_add(digit) {
                Some(v) => {
                    value = v;
                },
                None => {
                    proof {
                        assert(digits_value(d.take(i - start + 1)) > u64::MAX);
                        if all_digits(d) {
                            lemma_digits_value_grows(d, i - start + 1);
                        }
                    }
                    return None;
                },
            },
            None => {
                proof {
                    assert(digits_value(d.take(i - start + 1)) > u64::MAX);
                    if all_digits(d) {
                        lemma_digits_value_grows(d, i - start + 1);
                    }
                }
                return None;
            },
        }
        i += 1;
    }
    proof {
        assert(d.take(i - start) =~= d);
    }
    Some(value)
}

/// `s` with each `'` preceded by a backslash.
pub open spec fn escape_quotes(s: Seq<char>) -> Seq<char>
    decreases s.len(),
{
    if s.len() == 0 {
        Seq::empty()
    } else {
        escape_quotes(s.drop_last()) + if s.last() == '\'' { seq!['\\', '\''] } else { seq![s.last()] }
    }
}

pub fn escape_single_quotes(s: &str) -> (r: String)
    ensures
        r@ == escape_quotes(s@),
{
    let cs = chars_of(s);
    let mut out: Vec<char> = Vec::new();
    let mut i: usize = 0;
    while i < cs.len()
        invariant
            i <= cs@.len(),
            cs@ == s@,
            out@ == escape_quotes(cs@.take(i as int)),
        decreases cs@.len() - i,
    {
        proof {
            assert(cs@.take(i + 1).drop_last() =~= cs@.take(i as int));
            assert(cs@.take(i + 1).last() == cs@[i as int]);
        }
        let c = cs[i];
        let ghost before = out@;
        if c == '\'' {
            out.push('\\');
            out.push('\'');
            proof {
                assert(out@ =~= before + seq!['\\', '\'']);
            }
        } else {
            out.push(c);
            proof {
                assert(out@ =~= before + seq![c]);
            }
        }
        i += 1;
    }
    proof {
        assert(cs@.take(cs@.len() as int) =~= cs@);
    }
    string_from_chars(&out)
}

// ---------------------------------------------------------------------------
// Community and processes
// ---------------------------------------------------------------------------

/// The symbol labels, in the order a community is looked for.
pub open spec fn symbol_labels() -> Seq<Seq<char>> {
    seq!["Function"@, "Method"@, "Struct"@, "Enum"@, "Trait"@, "Module"@, "Constant"@, "TypeAlias"@]
}

/// `prefix` + `label` + `suffix`: a relationship table's name.
pub open spec fn table_name(prefix: Seq<char>, label: Seq<char>, suffix: Seq<char>) -> Seq<char> {
    prefix + label + suffix
}

pub fn build_table_name(prefix: &str, label: &str, suffix: &str) -> (r: Vec<char>)
    ensures
        r@ == table_name(prefix@, label@, suffix@),
{
    let mut v = chars_of(prefix);
    append_chars(&mut v, &chars_of(label));
    append_chars(&mut v, &chars_of(suffix));
    v
}

/// Edge `e` of table `rel` leaves a `label` node answering to `x` for a node
/// labelled `target_label`.
pub open spec fn edge_links(nodes: Seq<GraphNode>, e: GraphEdge, rel: Seq<char>, label: Seq<char>, x: Seq<char>, target_label: Seq<char>) -> bool {
    &&& e.rel@ == rel
    &&& node_by_id(nodes, e.from_id@) matches Some(a) && a.label@ == label && matches_symbol(a, x)
    &&& node_by_id(nodes, e.to_id@) matches Some(t) && t.label@ == target_label
}

/// The target of the first such edge.
pub open spec fn first_link(nodes: Seq<GraphNode>, edges: Seq<GraphEdge>, rel: Seq<char>, label: Seq<char>, x: Seq<char>, target_label: Seq<char>) -> Option<GraphNode>
    decreases edges.len(),
{
    if edges.len() == 0 {
        None
    } else if edge_links(nodes, edges[0], rel, label, x, target_label) {
        node_by_id(nodes, edges[0].to_id@)
    } else {
        first_link(nodes, edges.drop_first(), rel, label, x, target_label)
    }
}

/// The names of the targets of all such edges, in edge order.
pub open spec fn link_names(nodes: Seq<GraphNode>, edges: Seq<GraphEdge>, rel: Seq<char>, label: Seq<char>, x: Seq<char>, target_label: Seq<char>) -> Seq<Seq<char>>
    decreases edges.len(),
{
    if edges.len() == 0 {
        Seq::empty()
    } else {
        let p = link_names(nodes, edges.drop_last(), rel, label, x, target_label);
        if edge_links(nodes, edges.last(), rel, label, x, target_label) {
            p.push(node_by_id(nodes, edges.last().to_id@).unwrap().name@)
        } else {
            p
        }
    }
}

fn edge_links_exec(nodes: &Vec<GraphNode>, e: &GraphEdge, rel: &[char], label: &str, x: &str, target_label: &str) -> (r: Option<usize>)
    ensures
        match r {
            Some(t) => t < nodes@.len() && edge_links(nodes@, *e, rel@, label@, x@, target_label@)
                && node_by_id(nodes@, e.to_id@) == Some(nodes@[t as int]),
            None => !edge_links(nodes@, *e, rel@, label@, x@, target_label@),
        },
{
    let er = chars_of(e.rel.as_str());
    if !crate::text::chars_eq(&er, rel) {
        return None;
    }
    match (find_node(nodes, e.from_id.as_str()), find_node(nodes, e.to_id.as_str())) {
        (Some(a), Some(t)) => {
            let an = &nodes[a];
            if str_eq(an.label.as_str(), label) && (str_eq(an.qualified_name.as_str(), x) || str_eq(an.id.as_str(), x))
                && str_eq(nodes[t].label.as_str(), target_label) {
                Some(t)
            } else {
                None
            }
        },
        _ => None,
    }
}

/// The community record read off a Community node.
pub open spec fn community_view(c: GraphNode) -> (Seq<char>, Seq<char>, u64) {
    (c.id@, c.name@, match spec_parse_u64(spec_prop_or_empty(c.props@, "member_count"@)) {
        Some(v) => v,
        None => 0,
    })
}

/// The community of the symbol `x` answers to: through the first
/// `MemberOf_{label}_Community` edge, labels tried in `symbol_labels` order.
pub open spec fn community_in(nodes: Seq<GraphNode>, edges: Seq<GraphEdge>, labels: Seq<Seq<char>>, x: Seq<char>) -> Option<GraphNode>
    decreases labels.len(),
{
    if labels.len() == 0 {
        None
    } else {
        match first_link(nodes, edges, table_name("MemberOf_"@, labels[0], "_Community"@), labels[0], x, "Community"@) {
            Some(c) => Some(c),
            None => community_in(nodes, edges, labels.drop_first(), x),
        }
    }
}

pub fn find_first_link(graph: &CodeGraph, rel: &[char], label: &str, x: &str, target_label: &str) -> (r: Option<usize>)
    ensures
        match r {
            Some(t) => t < graph.nodes@.len() && first_link(graph.nodes@, graph.edges@, rel@, label@, x@, target_label@) == Some(graph.nodes@[t as int]),
            None => first_link(graph.nodes@, graph.edges@, rel@, label@, x@, target_label@) is None,
        },
{
    let edges = &graph.edges;
    let mut i: usize = 0;
    assert(edges@.skip(0) =~= edges@);
    while i < edges.len()
        invariant
            i <= edges@.len(),
            edges@ == graph.edges@,
            first_link(graph.nodes@, edges@, rel@, label@, x@, target_label@)
                == first_link(graph.nodes@, edges@.skip(i as int), rel@, label@, x@, target_label@),
        decreases edges@.len() - i,
    {
        proof {
            assert(edges@.skip(i as int)[0] == edges@[i as int]);
            assert(edges@.skip(i as int).drop_first() =~= edges@.skip(i + 1));
        }
        match edge_links_exec(&graph.nodes, &edges[i], rel, label, x, target_label) {
            Some(t) => {
                return Some(t);
            },
            None => {},
        }
        i += 1;
    }
    None
}

/// The names of the targets of every `rel` edge leaving a `label` node that
/// answers to `x` for a `target_label` node, in edge order.
pub fn find_link_names(graph: &CodeGraph, rel: &[char], label: &str, x: &str, target_label: &str) -> (r: Vec<String>)
    ensures
        crate::parser::naming::views(r@) == link_names(graph.nodes@, graph.edges@, rel@, label@, x@, target_label@),
{
    let edges = &graph.edges;
    let mut out: Vec<String> = Vec::new();
    let mut i: usize = 0;
    while i < edges.len()
        invariant
            i <= edges@.len(),
            edges@ == graph.edges@,
            crate::parser::naming::views(out@) == link_names(graph.nodes@, edges@.take(i as int), rel@, label@, x@, target_label@),
        decreases edges@.len() - i,
    {
        proof {
            assert(edges@.take(i + 1).drop_last() =~= edges@.take(i as int));
            assert(edges@.take(i + 1).last() == edges@[i as int]);
        }
        match edge_links_exec(&graph.nodes, &edges[i], rel, label, x, target_label) {
            Some(t) => {
                let ghost before = crate::parser::naming::views(out@);
                out.push(to_owned_string(graph.nodes[t].name.as_str()));
                proof {
                    assert(crate::parser::naming::views(out@) =~= before.push(graph.nodes@[t as int].name@));
                }
            },
            None => {},
        }
        i += 1;
    }
    proof {
        assert(edges@.take(edges@.len() as int) =~= edges@);
    }
    out
}

pub open spec fn ci_view(c: CommunityInfo) -> (Seq<char>, Seq<char>, u64) {
    (c.id@, c.name@, c.member_count)
}

/// The community of the symbol `x` answers to.
pub fn find_community(graph: &CodeGraph, x: &str) -> (r: Option<CommunityInfo>)
    ensures
        match r {
            Some(c) => community_in(graph.nodes@, graph.edges@, symbol_labels(), x@) matches Some(n) && ci_view(c) == community_view(n),
            None => community_in(graph.nodes@, graph.edges@, symbol_labels(), x@) is None,
        },
{
    let labels: Vec<&str> = vec!["Function", "Method", "Struct", "Enum", "Trait", "Module", "Constant", "TypeAlias"];
    let ghost ls = symbol_labels();
    proof {
        assert(labels@.len() == 8);
        assert(ls.skip(0) =~= ls);
    }
    let mut j: usize = 0;
    while j < labels.len()
        invariant
            j <= labels@.len(),
            labels@.len() == 8,
            forall|k: int| 0 <= k < 8 ==> (#[trigger] labels@[k])@ == ls[k],
            ls == symbol_labels(),
            community_in(graph.nodes@, graph.edges@, ls, x@) == community_in(graph.nodes@, graph.edges@, ls.skip(j as int), x@),
        decreases labels@.len() - j,
    {
        proof {
            assert(ls.skip(j as int)[0] == ls[j as int]);
            assert(ls.skip(j as int).drop_first() =~= ls.skip(j + 1));
        }
        let rel = build_table_name("MemberOf_", labels[j], "_Community");
        match find_first_link(graph, &rel, labels[j], x, "Community") {
            Some(t) => {
                let c = &graph.nodes[t];
                let count = match parse_u64(prop_or_empty(&c.props, "member_count").as_str()) {
                    Some(v) => v,
                    None => 0,
                };
                return Some(CommunityInfo {
                    id: to_owned_string(c.id.as_str()),
                    name: to_owned_string(c.name.as_str()),
                    member_count: count,
                });
            },
            None => {},
        }
        j += 1;
    }
    proof {
        assert(ls.skip(8).len() == 0);
    }
    None
}

/// `acc` extended by an entry-point record for each name.
pub open spec fn add_entries(acc: Seq<(Seq<char>, Seq<char>)>, names: Seq<Seq<char>>) -> Seq<(Seq<char>, Seq<char>)>
    decreases names.len(),
{
    if names.len() == 0 {
        acc
    } else {
        add_entries(acc, names.drop_last()).push((names.last(), "entry_point"@))
    }
}

/// `acc` extended by a participant record for each name no record has yet.
pub open spec fn add_participants(acc: Seq<(Seq<char>, Seq<char>)>, names: Seq<Seq<char>>) -> Seq<(Seq<char>, Seq<char>)>
    decreases names.len(),
{
    if names.len() == 0 {
        acc
    } else {
        let p = add_participants(acc, names.drop_last());
        if exists|j: int| 0 <= j < p.len() && (#[trigger] p[j]).0 == names.last() {
            p
        } else {
            p.push((names.last(), "participant"@))
        }
    }
}

/// The process records for one label: the processes the symbol is the entry
/// point of, then those it takes part in that are not listed yet.
pub open spec fn procs_for(nodes: Seq<GraphNode>, edges: Seq<GraphEdge>, acc: Seq<(Seq<char>, Seq<char>)>, label: Seq<char>, x: Seq<char>)
    -> Seq<(Seq<char>, Seq<char>)>
{
    let entries = link_names(nodes, edges, table_name("EntryPointOf_"@, label, "_Process"@), label, x, "Process"@);
    let parts = link_names(nodes, edges, table_name("ParticipatesIn_"@, label, "_Process"@), label, x, "Process"@);
    add_participants(add_entries(acc, entries), parts)
}

/// The processes of the symbol `x` answers to, Function records first.
pub open spec fn spec_processes(nodes: Seq<GraphNode>, edges: Seq<GraphEdge>, x: Seq<char>) -> Seq<(Seq<char>, Seq<char>)> {
    procs_for(nodes, edges, procs_for(nodes, edges, Seq::empty(), "Function"@, x), "Method"@, x)
}

fn has_proc_named(procs: &Vec<ProcessRef>, name: &str) -> (r: bool)
    ensures
        r == exists|j: int| 0 <= j < pr_views(procs@).len() && (#[trigger] pr_views(procs@)[j]).0 == name@,
{
    let mut i: usize = 0;
    while i < procs.len()
        invariant
            i <= procs@.len(),
            forall|k: int| 0 <= k < i ==> (#[trigger] procs@[k]).name@ != name@,
        decreases procs@.len() - i,
    {
        if str_eq(procs[i].name.as_str(), name) {
            proof {
                assert(pr_views(procs@)[i as int].0 == name@);
            }
            return true;
        }
        i += 1;
    }
    proof {
        if exists|j: int| 0 <= j < pr_views(procs@).len() && (#[trigger] pr_views(procs@)[j]).0 == name@ {
            let j = choose|j: int| 0 <= j < pr_views(procs@).len() && (#[trigger] pr_views(procs@)[j]).0 == name@;
            assert(procs@[j].name@ == name@);
        }
    }
    false
}

fn add_procs_for(graph: &CodeGraph, procs: &mut Vec<ProcessRef>, label: &str, x: &str)
    ensures
        pr_views(final(procs)@) == procs_for(graph.nodes@, graph.edges@, pr_views(old(procs)@), label@, x@),
{
    let ep = build_table_name("EntryPointOf_", label, "_Process");
    let entries = find_link_names(graph, &ep, label, x, "Process");
    let ghost acc0 = pr_views(procs@);
    let mut i: usize = 0;
    while i < entries.len()
        invariant
            i <= entries@.len(),
            pr_views(procs@) == add_entries(acc0, crate::parser::naming::views(entries@).take(i as int)),
        decreases entries@.len() - i,
    {
        proof {
            let t = crate::parser::naming::views(entries@).take(i + 1);
            assert(t.drop_last() =~= crate::parser::naming::views(entries@).take(i as int));
            assert(t.last() == entries@[i as int]@);
        }
        let ghost before = pr_views(procs@);
        procs.push(ProcessRef { name: to_owned_string(entries[i].as_str()), role: to_owned_string("entry_point") });
        proof {
            assert(pr_views(procs@) =~= before.push((entries@[i as int]@, "entry_point"@)));
        }
        i += 1;
    }
    proof {
        assert(crate::parser::naming::views(entries@).take(entries@.len() as int) =~= crate::parser::naming::views(entries@));
    }
    let pp = build_table_name("ParticipatesIn_", label, "_Process");
    let parts = find_link_names(graph, &pp, label, x, "Process");
    let ghost acc1 = pr_views(procs@);
    let mut i: usize = 0;
    while i < parts.len()
        invariant
            i <= parts@.len(),
            pr_views(procs@) == add_participants(acc1, crate::parser::naming::views(parts@).take(i as int)),
        decreases parts@.len() - i,
    {
        proof {
            let t = crate::parser::naming::views(parts@).take(i + 1);
            assert(t.drop_last() =~= crate::parser::naming::views(parts@).take(i as int));
            assert(t.last() == parts@[i as int]@);
        }
        if !has_proc_named(procs, parts[i].as_str()) {
            let ghost before = pr_views(procs@);
            procs.push(ProcessRef { name: to_owned_string(parts[i].as_str()), role: to_owned_string("participant") });
            proof {
                assert(pr_views(procs@) =~= before.push((parts@[i as int]@, "participant"@)));
            }
        }
        i += 1;
    }
    proof {
        assert(crate::parser::naming::views(parts@).take(parts@.len() as int) =~= crate::parser::naming::views(parts@));
    }
}

/// The processes the symbol `x` answers to is the entry point of or takes
/// part in.
pub fn find_processes(graph: &CodeGraph, x: &str) -> (r: Vec<ProcessRef>)
    ensures
        pr_views(r@) == spec_processes(graph.nodes@, graph.edges@, x@),
{
    let mut procs: Vec<ProcessRef> = Vec::new();
    proof {
        assert(pr_views(procs@) =~= Seq::<(Seq<char>, Seq<char>)>::empty());
    }
    add_procs_for(graph, &mut procs, "Function", x);
    add_procs_for(graph, &mut procs, "Method", x);
    procs
}

// ---------------------------------------------------------------------------
// get_context
// ---------------------------------------------------------------------------

/// The 360° view of the symbol whose qualified name or id is
/// `qualified_name`; `Err("symbol not found: …")` when there is none.
pub fn get_context(graph: &CodeGraph, qualified_name: &str) -> (r: Result<SymbolContext, String>)
    ensures
        match spec_details(graph.nodes@, qualified_name@) {
            None => r matches Err(e) && e@ == "symbol not found: "@ + escape_quotes(qualified_name@),
            Some(d) => r matches Ok(c) && {
                &&& c.qualified_name@ == qualified_name@
                &&& (c.label@, c.name@, c.file_path@, c.start_line, c.end_line, opt_view(c.visibility)) == d
                &&& rs_views(c.imports@) == related_out(graph.nodes@, graph.edges@, qualified_name@, "Imports_"@)
                &&& rs_views(c.imported_by@) == related_in(graph.nodes@, graph.edges@, qualified_name@, "Imports_"@)
                &&& rs_views(c.calls@) == related_out(graph.nodes@, graph.edges@, qualified_name@, "Calls_"@)
                &&& rs_views(c.called_by@) == related_in(graph.nodes@, graph.edges@, qualified_name@, "Calls_"@)
                &&& rs_views(c.implements@) == related_out(graph.nodes@, graph.edges@, qualified_name@, "Implements_"@)
                &&& rs_views(c.implemented_by@) == related_in(graph.nodes@, graph.edges@, qualified_name@, "Implements_"@)
                &&& rs_views(c.uses@) == related_out(graph.nodes@, graph.edges@, qualified_name@, "Uses_"@)
                &&& rs_views(c.used_by@) == related_in(graph.nodes@, graph.edges@, qualified_name@, "Uses_"@)
                &&& match c.community {
                    Some(ci) => community_in(graph.nodes@, graph.edges@, symbol_labels(), qualified_name@) matches Some(n)
                        && ci_view(ci) == community_view(n),
                    None => community_in(graph.nodes@, graph.edges@, symbol_labels(), qualified_name@) is None,
                }
                &&& pr_views(c.processes@) == spec_processes(graph.nodes@, graph.edges@, qualified_name@)
            },
        },
{
    let details = match find_node_details(graph, qualified_name) {
        Some(d) => d,
        None => {
            let mut msg = chars_of("symbol not found: ");
            append_chars(&mut msg, &chars_of(escape_single_quotes(qualified_name).as_str()));
            return Err(string_from_chars(&msg));
        },
    };
    let imports = find_related(graph, qualified_name, "Imports_", true);
    let imported_by = find_related(graph, qualified_name, "Imports_", false);
    let calls = find_related(graph, qualified_name, "Calls_", true);
    let called_by = find_related(graph, qualified_name, "Calls_", false);
    let implements = find_related(graph, qualified_name, "Implements_", true);
    let implemented_by = find_related(graph, qualified_name, "Implements_", false);
    let uses = find_related(graph, qualified_name, "Uses_", true);
    let used_by = find_related(graph, qualified_name, "Uses_", false);
    let community = find_community(graph, qualified_name);
    let processes = find_processes(graph, qualified_name);
    Ok(SymbolContext {
        qualified_name: to_owned_string(qualified_name),
        name: details.name,
        label: details.label,
        file_path: details.file_path,
        start_line: details.start_line,
        end_line: details.end_line,
        visibility: details.visibility,
        imports,
        imported_by,
        calls,
        called_by,
        implements,
        implemented_by,
        uses,
        used_by,
        community,
        processes,
    })
}

} // verus!
