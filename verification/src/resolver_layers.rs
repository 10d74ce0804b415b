//! The macro-expansion layer of resolution: a call site whose callee is a
//! macro (`name!`) stands for the standard-library calls the macro expands
//! to. Each becomes a `Calls_{Function|Method}_StdlibSymbol` edge from the
//! caller, and each standard-library target a StdlibSymbol node, created
//! once.

use vstd::prelude::*;
use crate::graph::{CodeGraph, GraphNode, spec_prop_or_empty, prop_or_empty};
use crate::text::{chars_of, str_eq, string_from_chars, to_owned_string, seq_ends_with, ends_with};
use crate::parser::append_chars;
use crate::parser::naming::{views, strings_contain};
use crate::stdlib_index::StdlibSymbol;
use crate::resolver::{ResolutionEdge, EdgeSpec, edge_views, mk_edge_spec, same_key, spec_caller_of_callsite,
    extract_caller_from_callsite_id, SymView, symbol_index, entry_views, build_symbol_index, lookup_by_qn,
    by_qn, last_segment, last_segment_of};

verus! {

/// What a macro expands to: the canonical paths of the standard-library
/// functions it calls.
pub struct MacroExpansion {
    pub name: String,
    pub emit_calls: Vec<String>,
}

/// The first expansion named `name`.
pub open spec fn expansion_for(table: Seq<MacroExpansion>, name: Seq<char>) -> Option<MacroExpansion>
    decreases table.len(),
{
    if table.len() == 0 {
        None
    } else if table[0].name@ == name {
        Some(table[0])
    } else {
        expansion_for(table.drop_first(), name)
    }
}

/// The label a caller's calls are recorded under: its symbol's label, or
/// `Function` when the index does not know it.
pub open spec fn caller_label_of(idx: Seq<SymView>, caller: Seq<char>) -> Seq<char> {
    match by_qn(idx, caller) {
        Some(e) => e.label,
        None => "Function"@,
    }
}

/// One expanded call: (caller, caller label, canonical path).
pub type MacroCall = (Seq<char>, Seq<char>, Seq<char>);

/// The expanded calls of one call-site node.
pub open spec fn calls_of_site(idx: Seq<SymView>, table: Seq<MacroExpansion>, n: GraphNode) -> Seq<MacroCall> {
    let callee = spec_prop_or_empty(n.props@, "callee_name"@);
    if n.label@ == "CallSite"@ && seq_ends_with(callee, seq!['!']) {
        match expansion_for(table, callee.drop_last()) {
            Some(x) => {
                let caller = spec_caller_of_callsite(n.id@);
                let label = caller_label_of(idx, caller);
                if label == "Function"@ || label == "Method"@ {
                    views(x.emit_calls@).map_values(|c: Seq<char>| (caller, label, c))
                } else {
                    Seq::empty()
                }
            },
            None => Seq::empty(),
        }
    } else {
        Seq::empty()
    }
}

/// The expanded calls of all call sites, in node order.
pub open spec fn macro_calls(idx: Seq<SymView>, table: Seq<MacroExpansion>, nodes: Seq<GraphNode>) -> Seq<MacroCall>
    decreases nodes.len(),
{
    if nodes.len() == 0 {
        Seq::empty()
    } else {
        macro_calls(idx, table, nodes.drop_last()) + calls_of_site(idx, table, nodes.last())
    }
}

/// The edge an expanded call adds.
pub open spec fn macro_edge(c: MacroCall) -> EdgeSpec {
    mk_edge_spec("Calls_"@ + c.1 + "_StdlibSymbol"@, c.0, c.2, 850, "macro-expansion"@)
}

/// `buf` with `e` appended unless it already holds an edge with the same
/// table and endpoints.
pub open spec fn buffer_add(buf: Seq<EdgeSpec>, e: EdgeSpec) -> Seq<EdgeSpec> {
    if exists|j: int| 0 <= j < buf.len() && same_key(#[trigger] buf[j], e) {
        buf
    } else {
        buf.push(e)
    }
}

/// The buffer after adding the edges of `calls`, in order.
pub open spec fn buffer_after(buf: Seq<EdgeSpec>, calls: Seq<MacroCall>) -> Seq<EdgeSpec>
    decreases calls.len(),
{
    if calls.len() == 0 {
        buf
    } else {
        buffer_add(buffer_after(buf, calls.drop_last()), macro_edge(calls.last()))
    }
}

/// The canonical paths created so far, after creating those of `calls`.
pub open spec fn created_after(created: Seq<Seq<char>>, calls: Seq<MacroCall>) -> Seq<Seq<char>>
    decreases calls.len(),
{
    if calls.len() == 0 {
        created
    } else {
        let p = created_after(created, calls.drop_last());
        if p.contains(calls.last().2) { p } else { p.push(calls.last().2) }
    }
}

/// The receiver type of the first table entry with `canonical` as its
/// path, or the empty string.
pub open spec fn receiver_of(table: Seq<StdlibSymbol>, canonical: Seq<char>) -> Seq<char>
    decreases table.len(),
{
    if table.len() == 0 {
        Seq::empty()
    } else if table[0].canonical_path@ == canonical {
        table[0].receiver_type@
    } else {
        receiver_of(table.drop_first(), canonical)
    }
}

/// A StdlibSymbol node: its id and canonical path are the path, its name
/// the last `::` segment, with the language and receiver type.
pub open spec fn is_stdlib_node(n: GraphNode, canonical: Seq<char>, language: Seq<char>, table: Seq<StdlibSymbol>) -> bool {
    &&& n.label@ == "StdlibSymbol"@
    &&& n.id@ == canonical
    &&& n.qualified_name@ == canonical
    &&& n.name@ == last_segment(canonical)
    &&& spec_prop_or_empty(n.props@, "language"@) == language
    &&& spec_prop_or_empty(n.props@, "receiver_type"@) == receiver_of(table, canonical)
    &&& spec_prop_or_empty(n.props@, "canonical_path"@) == canonical
}

fn find_receiver(table: &Vec<StdlibSymbol>, canonical: &str) -> (r: String)
    ensures
        r@ == receiver_of(table@, canonical@),
{
    let mut i: usize = 0;
    assert(table@.skip(0) =~= table@);
    while i < table.len()
        invariant
            i <= table@.len(),
            receiver_of(table@, canonical@) == receiver_of(table@.skip(i as int), canonical@),
        decreases table@.len() - i,
    {
        proof {
            assert(table@.skip(i as int)[0] == table@[i as int]);
            assert(table@.skip(i as int).drop_first() =~= table@.skip(i + 1));
        }
        if str_eq(table[i].canonical_path, canonical) {
            return to_owned_string(table[i].receiver_type);
        }
        i += 1;
    }
    String::new()
}

proof fn lemma_prop_lookup(a: (String, String), b: (String, String), c: (String, String), props: Seq<(String, String)>)
    requires
        props == seq![a, b, c],
        a.0@ == "language"@,
        b.0@ == "receiver_type"@,
        c.0@ == "canonical_path"@,
    ensures
        spec_prop_or_empty(props, "language"@) == a.1@,
        spec_prop_or_empty(props, "receiver_type"@) == b.1@,
        spec_prop_or_empty(props, "canonical_path"@) == c.1@,
{
    reveal_strlit("language");
    reveal_strlit("receiver_type");
    reveal_strlit("canonical_path");
    assert(props.drop_first() =~= seq![b, c]);
    assert(props.drop_first().drop_first() =~= seq![c]);
    assert("language"@.len() == 8);
    assert("receiver_type"@.len() == 13);
    assert("canonical_path"@.len() == 14);
    assert("language"@ != "receiver_type"@);
    assert("language"@ != "canonical_path"@);
    assert("receiver_type"@ != "canonical_path"@);
    reveal_with_fuel(crate::graph::spec_prop, 4);
}

/// Creates the StdlibSymbol node for `canonical_path` unless this run has
/// created it already; `table` is the language's standard-library table.
pub fn ensure_stdlib_symbol(
    created: &mut Vec<String>,
    canonical_path: &str,
    language: &str,
    table: &Vec<StdlibSymbol>,
) -> (r: Option<GraphNode>)
    ensures
        views(old(created)@).contains(canonical_path@) ==> r is None && final(created)@ == old(created)@,
        !views(old(created)@).contains(canonical_path@) ==> {
            &&& views(final(created)@) == views(old(created)@).push(canonical_path@)
            &&& r matches Some(n) && is_stdlib_node(n, canonical_path@, language@, table@)
        },
{
    if strings_contain(created, canonical_path) {
        proof {
            let k = choose|k: int| 0 <= k < created@.len() && (#[trigger] created@[k])@ == canonical_path@;
            assert(views(created@)[k] == canonical_path@);
        }
        return None;
    }
    proof {
        assert(!views(created@).contains(canonical_path@)) by {
            if views(created@).contains(canonical_path@) {
                let k = choose|k: int| 0 <= k < views(created@).len() && views(created@)[k] == canonical_path@;
                assert(created@[k]@ == canonical_path@);
            }
        }
    }
    let name = string_from_chars(&last_segment_of(&chars_of(canonical_path)));
    let receiver_type = find_receiver(table, canonical_path);
    let a = (to_owned_string("language"), to_owned_string(language));
    let b = (to_owned_string("receiver_type"), receiver_type);
    let c = (to_owned_string("canonical_path"), to_owned_string(canonical_path));
    let mut props: Vec<(String, String)> = Vec::new();
    props.push(a);
    props.push(b);
    props.push(c);
    proof {
        assert(props@ =~= seq![props@[0], props@[1], props@[2]]);
        lemma_prop_lookup(props@[0], props@[1], props@[2], props@);
    }
    let node = GraphNode {
        label: to_owned_string("StdlibSymbol"),
        id: to_owned_string(canonical_path),
        name,
        qualified_name: to_owned_string(canonical_path),
        start_line: None,
        end_line: None,
        visibility: String::new(),
        props,
    };
    let ghost before = views(created@);
    created.push(to_owned_string(canonical_path));
    proof {
        assert(views(created@) =~= before.push(canonical_path@));
    }
    Some(node)
}

/// What the macro-expansion layer produced.
pub struct MacroExpansionOutcome {
    /// How many edges it added to the buffer.
    pub edges_added: u64,
    /// The StdlibSymbol nodes to create, each once.
    pub new_nodes: Vec<GraphNode>,
}

fn buffer_has(buf: &Vec<ResolutionEdge>, rel: &str, from: &str, to: &str) -> (r: bool)
    ensures
        r == exists|j: int| 0 <= j < buf@.len() && same_key(#[trigger] edge_views(buf@)[j], mk_edge_spec(rel@, from@, to@, 850, "macro-expansion"@)),
{
    let mut i: usize = 0;
    while i < buf.len()
        invariant
            i <= buf@.len(),
            forall|j: int| 0 <= j < i ==> !same_key(#[trigger] edge_views(buf@)[j], mk_edge_spec(rel@, from@, to@, 850, "macro-expansion"@)),
        decreases buf@.len() - i,
    {
        if str_eq(buf[i].rel.as_str(), rel) && str_eq(buf[i].from_id.as_str(), from) && str_eq(buf[i].to_id.as_str(), to) {
            proof {
                assert(same_key(edge_views(buf@)[i as int], mk_edge_spec(rel@, from@, to@, 850, "macro-expansion"@)));
            }
            return true;
        }
        i += 1;
    }
    false
}

fn expansion_index(table: &Vec<MacroExpansion>, name: &[char]) -> (r: Option<usize>)
    ensures
        match r {
            Some(k) => k < table@.len() && expansion_for(table@, name@) == Some(table@[k as int]),
            None => expansion_for(table@, name@) is None,
        },
{
    let mut i: usize = 0;
    assert(table@.skip(0) =~= table@);
    while i < table.len()
        invariant
            i <= table@.len(),
            expansion_for(table@, name@) == expansion_for(table@.skip(i as int), name@),
        decreases table@.len() - i,
    {
        proof {
            assert(table@.skip(i as int)[0] == table@[i as int]);
            assert(table@.skip(i as int).drop_first() =~= table@.skip(i + 1));
        }
        if crate::text::chars_eq(&chars_of(table[i].name.as_str()), name) {
            return Some(i);
        }
        i += 1;
    }
    None
}

/// Every created path has its node, in creation order.
pub open spec fn nodes_match(nodes: Seq<GraphNode>, created: Seq<Seq<char>>, table: Seq<StdlibSymbol>) -> bool {
    nodes.len() == created.len()
        && forall|j: int| 0 <= j < nodes.len() ==> is_stdlib_node(#[trigger] nodes[j], created[j], "rust"@, table)
}

/// Expands the macro call sites of the graph: for each call site whose
/// callee is `name!` with an expansion in `expansions`, and whose caller is
/// a Function or Method, each expanded call adds a
/// `Calls_{label}_StdlibSymbol` edge to `buf` (unless `buf` has it) and its
/// target StdlibSymbol node (once). `table` is the Rust standard-library
/// table.
pub fn run_macro_expansion(
    graph: &CodeGraph,
    expansions: &Vec<MacroExpansion>,
    table: &Vec<StdlibSymbol>,
    buf: &mut Vec<ResolutionEdge>,
) -> (r: MacroExpansionOutcome)
    ensures
        ({
            let calls = macro_calls(symbol_index(graph.nodes@), expansions@, graph.nodes@);
            &&& edge_views(final(buf)@) == buffer_after(edge_views(old(buf)@), calls)
            &&& r.edges_added == final(buf)@.len() - old(buf)@.len()
            &&& nodes_match(r.new_nodes@, created_after(Seq::empty(), calls), table@)
        }),
{
    let idx = build_symbol_index(graph);
    let ghost sidx = symbol_index(graph.nodes@);
    let ghost b0 = edge_views(buf@);
    let start_len = buf.len();
    let mut created: Vec<String> = Vec::new();
    let mut new_nodes: Vec<GraphNode> = Vec::new();
    let nodes = &graph.nodes;
    let ghost mut done: Seq<MacroCall> = Seq::empty();
    proof {
        assert(views(created@) =~= Seq::<Seq<char>>::empty());
    }
    let mut i: usize = 0;
    while i < nodes.len()
        invariant
            i <= nodes@.len(),
            nodes@ == graph.nodes@,
            entry_views(idx@) == sidx,
            sidx == symbol_index(graph.nodes@),
            done == macro_calls(sidx, expansions@, nodes@.take(i as int)),
            start_len == old(buf)@.len(),
            b0 == edge_views(old(buf)@),
            buf@.len() >= start_len,
            edge_views(buf@) == buffer_after(b0, done),
            views(created@) == created_after(Seq::empty(), done),
            nodes_match(new_nodes@, views(created@), table@),
        decreases nodes@.len() - i,
    {
        proof {
            assert(nodes@.take(i + 1).drop_last() =~= nodes@.take(i as int));
            assert(nodes@.take(i + 1).last() == nodes@[i as int]);
        }
        let n = &nodes[i];
        let ghost site = calls_of_site(sidx, expansions@, nodes@[i as int]);
        let mut handled = false;
        if str_eq(n.label.as_str(), "CallSite") {
            let callee = chars_of(prop_or_empty(&n.props, "callee_name").as_str());
            let bang: Vec<char> = vec!['!'];
            proof {
                assert(bang@ =~= seq!['!']);
            }
            if ends_with(&callee, &bang) {
                let name = crate::text::slice_to_vec(&callee, 0, callee.len() - 1);
                proof {
                    assert(name@ =~= callee@.drop_last());
                }
                match expansion_index(expansions, &name) {
                    Some(x) => {
                        let caller = extract_caller_from_callsite_id(n.id.as_str());
                        let label = match lookup_by_qn(&idx, &chars_of(caller.as_str())) {
                            Some(e) => e.label,
                            None => to_owned_string("Function"),
                        };
                        if str_eq(label.as_str(), "Function") || str_eq(label.as_str(), "Method") {
                            let emit = &expansions[x].emit_calls;
                            let mut rel = chars_of("Calls_");
                            append_chars(&mut rel, &chars_of(label.as_str()));
                            append_chars(&mut rel, &chars_of("_StdlibSymbol"));
                            let rel_s = string_from_chars(&rel);
                            let ghost d0 = done;
                            let mut k: usize = 0;
                            while k < emit.len()
                                invariant
                                    k <= emit@.len(),
                                    emit@ == expansions@[x as int].emit_calls@,
                                    site == views(emit@).map_values(|c: Seq<char>| (caller@, label@, c)),
                                    rel_s@ == "Calls_"@ + label@ + "_StdlibSymbol"@,
                                    done == d0 + site.take(k as int),
                                    buf@.len() >= start_len,
                                    start_len == old(buf)@.len(),
                                    edge_views(buf@) == buffer_after(b0, done),
                                    views(created@) == created_after(Seq::empty(), done),
                                    nodes_match(new_nodes@, views(created@), table@),
                                decreases emit@.len() - k,
                            {
                                let canonical = emit[k].as_str();
                                let ghost call = (caller@, label@, canonical@);
                                proof {
                                    assert(site[k as int] == call);
                                    assert(site.take(k + 1) =~= site.take(k as int).push(call));
                                    assert((d0 + site.take(k as int)).push(call) =~= d0 + site.take(k + 1));
                                }
                                let ghost cr0 = views(created@);
                                match ensure_stdlib_symbol(&mut created, canonical, "rust", table) {
                                    Some(node) => {
                                        new_nodes.push(node);
                                        proof {
                                            assert forall|j: int| 0 <= j < new_nodes@.len() implies
                                                is_stdlib_node(#[trigger] new_nodes@[j], views(created@)[j], "rust"@, table@) by {
                                                if j < new_nodes@.len() - 1 {
                                                    assert(views(created@)[j] == cr0[j]);
                                                }
                                            }
                                        }
                                    },
                                    None => {},
                                }
                                if !buffer_has(buf, rel_s.as_str(), caller.as_str(), canonical) {
                                    let ghost bv = edge_views(buf@);
                                    buf.push(ResolutionEdge {
                                        rel: to_owned_string(rel_s.as_str()),
                                        from_id: to_owned_string(caller.as_str()),
                                        to_id: to_owned_string(canonical),
                                        confidence_permille: 850,
                                        method: to_owned_string("macro-expansion"),
                                    });
                                    proof {
                                        assert(edge_views(buf@) =~= bv.push(macro_edge(call)));
                                    }
                                }
                                proof {
                                    done = done.push(call);
                                    assert(done.drop_last() =~= d0 + site.take(k as int));
                                }
                                k += 1;
                            }
                            proof {
                                assert(site.take(emit@.len() as int) =~= site);
                            }
                            handled = true;
                        }
                    },
                    None => {},
                }
            }
        }
        proof {
            if !handled {
                assert(site =~= Seq::<MacroCall>::empty());
                assert(done + site =~= done);
            }
            assert(macro_calls(sidx, expansions@, nodes@.take(i + 1)) == done);
        }
        i += 1;
    }
    proof {
        assert(nodes@.take(nodes@.len() as int) =~= nodes@);
    }
    let added = buf.len() - start_len;
    MacroExpansionOutcome { edges_added: added as u64, new_nodes }
}

} // verus!
