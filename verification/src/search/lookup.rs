//! What graph search reads off the code graph for a symbol: its file, its
//! community, the processes it takes part in, its lines, and the facts the
//! ranking boosts by. (Scores are floating point and are computed in the
//! application from these facts.)

use vstd::prelude::*;
use crate::graph::{CodeGraph, GraphNode};
use crate::text::{chars_of, str_eq, to_owned_string, seq_ascii_lower, exec_ascii_lower};
use crate::parser::naming::views;
use crate::search::bm25::{spec_extract_file_path, extract_file_path};
use crate::search::context::{first_link, link_names, table_name, build_table_name, find_first_link, find_link_names};
use crate::prd_input::{spec_community_size, lookup_community_size};

verus! {

/// The labels search looks at, in order.
pub open spec fn searchable_labels() -> Seq<Seq<char>> {
    seq!["Function"@, "Method"@, "Struct"@, "Enum"@, "Trait"@, "Module"@, "Constant"@, "TypeAlias"@]
}

pub fn searchable_label_list() -> (r: Vec<&'static str>)
    ensures
        r@.len() == 8,
        forall|i: int| 0 <= i < 8 ==> (#[trigger] r@[i])@ == searchable_labels()[i],
{
    vec!["Function", "Method", "Struct", "Enum", "Trait", "Module", "Constant", "TypeAlias"]
}

/// The labels whose nodes carry start and end lines.
pub open spec fn has_lines(label: Seq<char>) -> bool {
    label == "Function"@ || label == "Method"@ || label == "Struct"@ || label == "Enum"@ || label == "Trait"@
}

pub fn exec_has_lines(label: &str) -> (r: bool)
    ensures
        r == has_lines(label@),
{
    str_eq(label, "Function") || str_eq(label, "Method") || str_eq(label, "Struct") || str_eq(label, "Enum")
        || str_eq(label, "Trait")
}

/// The community of the `label` node answering to `node_id`: the target of
/// its first `MemberOf_{label}_Community` edge.
pub open spec fn spec_lookup_community(g: CodeGraph, label: Seq<char>, node_id: Seq<char>) -> Option<Seq<char>> {
    match first_link(g.nodes@, g.edges@, table_name("MemberOf_"@, label, "_Community"@), label, node_id, "Community"@) {
        Some(c) => Some(c.id@),
        None => None,
    }
}

pub fn lookup_community(graph: &CodeGraph, label: &str, node_id: &str) -> (r: Option<String>)
    ensures
        match r {
            Some(c) => spec_lookup_community(*graph, label@, node_id@) == Some(c@),
            None => spec_lookup_community(*graph, label@, node_id@) is None,
        },
{
    let rel = build_table_name("MemberOf_", label, "_Community");
    match find_first_link(graph, &rel, label, node_id, "Community") {
        Some(t) => Some(to_owned_string(graph.nodes[t].id.as_str())),
        None => None,
    }
}

/// The processes a Function or Method node takes part in (through its
/// `ParticipatesIn_{label}_Process` edges, in edge order); none for other
/// labels.
pub open spec fn spec_lookup_processes(g: CodeGraph, label: Seq<char>, node_id: Seq<char>) -> Seq<Seq<char>> {
    if label == "Function"@ || label == "Method"@ {
        link_names(g.nodes@, g.edges@, table_name("ParticipatesIn_"@, label, "_Process"@), label, node_id, "Process"@)
    } else {
        Seq::empty()
    }
}

pub fn lookup_processes(graph: &CodeGraph, label: &str, node_id: &str) -> (r: Vec<String>)
    ensures
        views(r@) == spec_lookup_processes(*graph, label@, node_id@),
{
    if !(str_eq(label, "Function") || str_eq(label, "Method")) {
        let r: Vec<String> = Vec::new();
        assert(views(r@) =~= Seq::<Seq<char>>::empty());
        return r;
    }
    let rel = build_table_name("ParticipatesIn_", label, "_Process");
    find_link_names(graph, &rel, label, node_id, "Process")
}

/// How many processes the symbol `qn` takes part in, as a per-name count:
/// the Method count when it has any, else the Function count.
pub open spec fn spec_process_count(g: CodeGraph, qn: Seq<char>) -> nat {
    let m = spec_lookup_processes(g, "Method"@, qn).len();
    if m > 0 { m } else { spec_lookup_processes(g, "Function"@, qn).len() }
}

pub fn process_count(graph: &CodeGraph, qn: &str) -> (r: u64)
    ensures
        r == spec_process_count(*graph, qn@),
{
    let m = lookup_processes(graph, "Method", qn);
    proof { lemma_views_len(m@); }
    if m.len() > 0 {
        return m.len() as u64;
    }
    let f = lookup_processes(graph, "Function", qn);
    proof { lemma_views_len(f@); }
    f.len() as u64
}

proof fn lemma_views_len(v: Seq<String>)
    ensures
        views(v).len() == v.len(),
{
}

/// One search candidate, as graph search reads it.
pub struct SearchCandidate {
    pub qualified_name: String,
    pub name: String,
    pub label: String,
    pub file_path: String,
    pub community_id: Option<String>,
    pub process_names: Vec<String>,
    pub start_line: Option<u64>,
    pub end_line: Option<u64>,
}

pub open spec fn opt_chars(o: Option<String>) -> Option<Seq<char>> {
    match o {
        Some(s) => Some(s@),
        None => None,
    }
}

/// `c` is the candidate a `label` node `n` of the graph yields.
pub open spec fn is_candidate_of(g: CodeGraph, label: Seq<char>, n: GraphNode, c: SearchCandidate) -> bool {
    &&& c.qualified_name@ == n.qualified_name@
    &&& c.name@ == n.name@
    &&& c.label@ == label
    &&& c.file_path@ == spec_extract_file_path(n.qualified_name@)
    &&& opt_chars(c.community_id) == spec_lookup_community(g, label, n.id@)
    &&& views(c.process_names@) == spec_lookup_processes(g, label, n.id@)
    &&& c.start_line == (if has_lines(label) { n.start_line } else { None })
    &&& c.end_line == (if has_lines(label) { n.end_line } else { None })
}

pub fn candidate_of(graph: &CodeGraph, label: &str, n: &GraphNode) -> (r: SearchCandidate)
    ensures
        is_candidate_of(*graph, label@, *n, r),
{
    let lines = exec_has_lines(label);
    SearchCandidate {
        qualified_name: to_owned_string(n.qualified_name.as_str()),
        name: to_owned_string(n.name.as_str()),
        label: to_owned_string(label),
        file_path: extract_file_path(n.qualified_name.as_str()),
        community_id: lookup_community(graph, label, n.id.as_str()),
        process_names: lookup_processes(graph, label, n.id.as_str()),
        start_line: if lines { n.start_line } else { None },
        end_line: if lines { n.end_line } else { None },
    }
}

/// The `label` nodes of the graph, in order.
pub open spec fn labelled(nodes: Seq<GraphNode>, label: Seq<char>) -> Seq<GraphNode>
    decreases nodes.len(),
{
    if nodes.len() == 0 {
        Seq::empty()
    } else if nodes.last().label@ == label {
        labelled(nodes.drop_last(), label).push(nodes.last())
    } else {
        labelled(nodes.drop_last(), label)
    }
}

/// Every `label` node of the graph as a search candidate, in node order.
pub fn fetch_candidates(graph: &CodeGraph, label: &str) -> (r: Vec<SearchCandidate>)
    ensures
        r@.len() == labelled(graph.nodes@, label@).len(),
        forall|i: int| 0 <= i < r@.len() ==> is_candidate_of(*graph, label@, labelled(graph.nodes@, label@)[i], #[trigger] r@[i]),
{
    let nodes = &graph.nodes;
    let mut out: Vec<SearchCandidate> = Vec::new();
    let mut i: usize = 0;
    while i < nodes.len()
        invariant
            i <= nodes@.len(),
            nodes@ == graph.nodes@,
            out@.len() == labelled(nodes@.take(i as int), label@).len(),
            forall|k: int| 0 <= k < out@.len() ==> is_candidate_of(*graph, label@, labelled(nodes@.take(i as int), label@)[k], #[trigger] out@[k]),
        decreases nodes@.len() - i,
    {
        proof {
            assert(nodes@.take(i + 1).drop_last() =~= nodes@.take(i as int));
            assert(nodes@.take(i + 1).last() == nodes@[i as int]);
        }
        if str_eq(nodes[i].label.as_str(), label) {
            let c = candidate_of(graph, label, &nodes[i]);
            out.push(c);
        }
        i += 1;
    }
    assert(nodes@.take(nodes@.len() as int) =~= nodes@);
    out
}

/// `a` and `b` are equal ignoring ASCII case.
pub open spec fn eq_ignore_ascii_case(a: Seq<char>, b: Seq<char>) -> bool {
    seq_ascii_lower(a) == seq_ascii_lower(b)
}

pub fn exec_eq_ignore_ascii_case(a: &str, b: &str) -> (r: bool)
    ensures
        r == eq_ignore_ascii_case(a@, b@),
{
    let x = chars_of(a);
    let y = chars_of(b);
    if x.len() != y.len() {
        assert(seq_ascii_lower(a@).len() != seq_ascii_lower(b@).len());
        return false;
    }
    let mut i: usize = 0;
    while i < x.len()
        invariant
            i <= x@.len(),
            x@ == a@,
            y@ == b@,
            x@.len() == y@.len(),
            forall|k: int| 0 <= k < i ==> crate::text::ascii_lower(x@[k]) == crate::text::ascii_lower(y@[k]),
        decreases x@.len() - i,
    {
        if exec_ascii_lower(x[i]) != exec_ascii_lower(y[i]) {
            assert(seq_ascii_lower(a@)[i as int] != seq_ascii_lower(b@)[i as int]);
            return false;
        }
        i += 1;
    }
    assert(seq_ascii_lower(a@) =~= seq_ascii_lower(b@));
    true
}

/// The label filter admits `label`.
pub open spec fn admits(filter: Option<Seq<char>>, label: Seq<char>) -> bool {
    match filter {
        Some(f) => eq_ignore_ascii_case(f, label),
        None => true,
    }
}

/// The first `label` node whose qualified name is `qn`.
pub open spec fn first_named(nodes: Seq<GraphNode>, label: Seq<char>, qn: Seq<char>) -> Option<GraphNode>
    decreases nodes.len(),
{
    if nodes.len() == 0 {
        None
    } else if nodes[0].label@ == label && nodes[0].qualified_name@ == qn {
        Some(nodes[0])
    } else {
        first_named(nodes.drop_first(), label, qn)
    }
}

/// The label under which a fused result is found: the first searchable
/// label the filter admits with a node named `qn`.
pub open spec fn enriched_in(g: CodeGraph, labels: Seq<Seq<char>>, qn: Seq<char>, filter: Option<Seq<char>>)
    -> Option<(Seq<char>, GraphNode)>
    decreases labels.len(),
{
    if labels.len() == 0 {
        None
    } else if admits(filter, labels[0]) && first_named(g.nodes@, labels[0], qn) is Some {
        Some((labels[0], first_named(g.nodes@, labels[0], qn).unwrap()))
    } else {
        enriched_in(g, labels.drop_first(), qn, filter)
    }
}

fn find_named(nodes: &Vec<GraphNode>, label: &str, qn: &str) -> (r: Option<usize>)
    ensures
        match r {
            Some(k) => k < nodes@.len() && first_named(nodes@, label@, qn@) == Some(nodes@[k as int]),
            None => first_named(nodes@, label@, qn@) is None,
        },
{
    let mut i: usize = 0;
    assert(nodes@.skip(0) =~= nodes@);
    while i < nodes.len()
        invariant
            i <= nodes@.len(),
            first_named(nodes@, label@, qn@) == first_named(nodes@.skip(i as int), label@, qn@),
        decreases nodes@.len() - i,
    {
        proof {
            assert(nodes@.skip(i as int)[0] == nodes@[i as int]);
            assert(nodes@.skip(i as int).drop_first() =~= nodes@.skip(i + 1));
        }
        if str_eq(nodes[i].label.as_str(), label) && str_eq(nodes[i].qualified_name.as_str(), qn) {
            return Some(i);
        }
        i += 1;
    }
    None
}

/// Enriches one fused search result from the graph: the candidate of the
/// first searchable label (admitted by the filter) that has a node with
/// that qualified name; `None` when there is none.
pub fn enrich_from_graph(graph: &CodeGraph, qualified_name: &str, label_filter: Option<&str>) -> (r: Option<SearchCandidate>)
    ensures
        match enriched_in(*graph, searchable_labels(), qualified_name@, match label_filter { Some(f) => Some(f@), None => None }) {
            Some((l, n)) => r matches Some(c) && is_candidate_of(*graph, l, n, c),
            None => r is None,
        },
{
    let labels = searchable_label_list();
    let ghost filter = match label_filter { Some(f) => Some(f@), None => None };
    let mut k: usize = 0;
    assert(searchable_labels().skip(0) =~= searchable_labels());
    while k < labels.len()
        invariant
            k <= 8,
            labels@.len() == 8,
            forall|i: int| 0 <= i < 8 ==> (#[trigger] labels@[i])@ == searchable_labels()[i],
            filter == match label_filter { Some(f) => Some(f@), None => None },
            enriched_in(*graph, searchable_labels(), qualified_name@, filter)
                == enriched_in(*graph, searchable_labels().skip(k as int), qualified_name@, filter),
        decreases 8 - k,
    {
        let label = labels[k];
        proof {
            assert(searchable_labels().skip(k as int)[0] == searchable_labels()[k as int]);
            assert(searchable_labels().skip(k as int).drop_first() =~= searchable_labels().skip(k + 1));
        }
        let ok = match label_filter {
            Some(f) => exec_eq_ignore_ascii_case(f, label),
            None => true,
        };
        if ok {
            match find_named(&graph.nodes, label, qualified_name) {
                Some(i) => {
                    return Some(candidate_of(graph, label, &graph.nodes[i]));
                },
                None => {},
            }
        }
        k += 1;
    }
    None
}

/// What the ranking boosts a candidate by: whether its community is small
/// (fewer than 20 members, a community of unknown size counting as 100),
/// and how many processes it takes part in, at most 3.
pub struct BoostFacts {
    pub small_community: bool,
    pub process_count_capped: u64,
}

pub open spec fn spec_small_community(g: CodeGraph, community: Option<Seq<char>>) -> bool {
    match community {
        Some(cid) => (match spec_community_size(g.nodes@, cid) { Some(s) => s, None => 100 }) < 20,
        None => false,
    }
}

pub fn boost_facts(graph: &CodeGraph, c: &SearchCandidate) -> (r: BoostFacts)
    ensures
        r.small_community == spec_small_community(*graph, opt_chars(c.community_id)),
        r.process_count_capped == (if spec_process_count(*graph, c.qualified_name@) < 3 {
            spec_process_count(*graph, c.qualified_name@)
        } else {
            3
        }),
{
    let small = match &c.community_id {
        Some(cid) => {
            let size = match lookup_community_size(graph, cid.as_str()) {
                Some(s) => s,
                None => 100,
            };
            size < 20
        },
        None => false,
    };
    let n = process_count(graph, c.qualified_name.as_str());
    BoostFacts { small_community: small, process_count_capped: if n < 3 { n } else { 3 } }
}

/// What building the search indexes reports.
pub struct SearchIndexResult {
    pub bm25_doc_count: usize,
    pub vector_doc_count: usize,
    pub elapsed_ms: u64,
}

/// The text a symbol is indexed by: its name, label and qualified name.
pub open spec fn doc_text(label: Seq<char>, n: GraphNode) -> Seq<char> {
    n.name@ + " "@ + label + " "@ + n.qualified_name@
}

/// One document of the vector index before weighting.
pub struct RawDoc {
    pub qualified_name: String,
    pub name: String,
    pub label: String,
    pub file_path: String,
    pub tokens: Vec<String>,
}

pub open spec fn is_raw_doc(label: Seq<char>, n: GraphNode, d: RawDoc) -> bool {
    &&& d.qualified_name@ == n.qualified_name@
    &&& d.name@ == n.name@
    &&& d.label@ == label
    &&& d.file_path@ == spec_extract_file_path(n.qualified_name@)
    &&& views(d.tokens@) == crate::search::vector::spec_terms(doc_text(label, n))
}

/// The symbols indexed, label by label in `labels` order and in node order
/// within a label.
pub open spec fn indexed_symbols(nodes: Seq<GraphNode>, labels: Seq<Seq<char>>) -> Seq<(Seq<char>, GraphNode)>
    decreases labels.len(),
{
    if labels.len() == 0 {
        Seq::empty()
    } else {
        indexed_symbols(nodes, labels.drop_last())
            + labelled(nodes, labels.last()).map_values(|n: GraphNode| (labels.last(), n))
    }
}

fn raw_doc(label: &str, n: &GraphNode) -> (r: RawDoc)
    ensures
        is_raw_doc(label@, *n, r),
{
    let mut text = chars_of(n.name.as_str());
    crate::parser::append_chars(&mut text, &chars_of(" "));
    crate::parser::append_chars(&mut text, &chars_of(label));
    crate::parser::append_chars(&mut text, &chars_of(" "));
    crate::parser::append_chars(&mut text, &chars_of(n.qualified_name.as_str()));
    let t = crate::text::string_from_chars(&text);
    assert(t@ =~= doc_text(label@, *n));
    RawDoc {
        qualified_name: to_owned_string(n.qualified_name.as_str()),
        name: to_owned_string(n.name.as_str()),
        label: to_owned_string(label),
        file_path: extract_file_path(n.qualified_name.as_str()),
        tokens: crate::search::vector::tokenize_to_terms(t.as_str()),
    }
}

/// Every searchable symbol of the graph as an unweighted vector-index
/// document.
pub fn collect_raw_docs(graph: &CodeGraph) -> (r: Vec<RawDoc>)
    ensures
        r@.len() == indexed_symbols(graph.nodes@, searchable_labels()).len(),
        forall|i: int| 0 <= i < r@.len() ==> is_raw_doc(indexed_symbols(graph.nodes@, searchable_labels())[i].0,
            indexed_symbols(graph.nodes@, searchable_labels())[i].1, #[trigger] r@[i]),
{
    let labels = searchable_label_list();
    let nodes = &graph.nodes;
    let mut out: Vec<RawDoc> = Vec::new();
    let mut k: usize = 0;
    assert(searchable_labels().take(0) =~= Seq::<Seq<char>>::empty());
    while k < labels.len()
        invariant
            k <= 8,
            labels@.len() == 8,
            forall|i: int| 0 <= i < 8 ==> (#[trigger] labels@[i])@ == searchable_labels()[i],
            nodes@ == graph.nodes@,
            out@.len() == indexed_symbols(nodes@, searchable_labels().take(k as int)).len(),
            forall|i: int| 0 <= i < out@.len() ==> is_raw_doc(indexed_symbols(nodes@, searchable_labels().take(k as int))[i].0,
                indexed_symbols(nodes@, searchable_labels().take(k as int))[i].1, #[trigger] out@[i]),
        decreases 8 - k,
    {
        let label = labels[k];
        let ghost base = indexed_symbols(nodes@, searchable_labels().take(k as int));
        let ghost start = out@.len();
        let mut i: usize = 0;
        while i < nodes.len()
            invariant
                i <= nodes@.len(),
                nodes@ == graph.nodes@,
                base.len() == start,
                out@.len() == start + labelled(nodes@.take(i as int), label@).len(),
                forall|j: int| 0 <= j < start ==> is_raw_doc(base[j].0, base[j].1, #[trigger] out@[j]),
                forall|j: int| 0 <= j < labelled(nodes@.take(i as int), label@).len()
                    ==> is_raw_doc(label@, labelled(nodes@.take(i as int), label@)[j], #[trigger] out@[start + j]),
            decreases nodes@.len() - i,
        {
            proof {
                assert(nodes@.take(i + 1).drop_last() =~= nodes@.take(i as int));
                assert(nodes@.take(i + 1).last() == nodes@[i as int]);
            }
            if str_eq(nodes[i].label.as_str(), label) {
                let d = raw_doc(label, &nodes[i]);
                out.push(d);
            }
            i += 1;
        }
        proof {
            assert(nodes@.take(nodes@.len() as int) =~= nodes@);
            let t = searchable_labels().take(k + 1);
            assert(t.drop_last() =~= searchable_labels().take(k as int));
            assert(t.last() == searchable_labels()[k as int]);
            let added = labelled(nodes@, label@).map_values(|n: GraphNode| (label@, n));
            assert(indexed_symbols(nodes@, t) == base + added);
            assert forall|j: int| 0 <= j < out@.len() implies is_raw_doc(indexed_symbols(nodes@, t)[j].0,
                indexed_symbols(nodes@, t)[j].1, #[trigger] out@[j]) by {
                if j >= start {
                    assert(out@[start + (j - start)] == out@[j]);
                }
            }
        }
        k += 1;
    }
    assert(searchable_labels().take(8) =~= searchable_labels());
    out
}

} // verus!
