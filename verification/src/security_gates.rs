//! Graph-aware pre-merge security gates. For each changed symbol:
//!   S1 auth_critical_touch: it shares a community with a symbol whose name
//!      mentions authentication or cryptography (critical);
//!   S2 unsafe_symbol: detection is unavailable (the parsers record no
//!      `unsafe` marker), reported as information;
//!   S3 public_api_change: it is a `pub` symbol defined directly by a file
//!      (warning);
//!   S4 unresolved_imports: its file scope holds unresolved imports (warning
//!      for one, critical for more);
//!   S5 test_coverage_gap: no test-entry process reaches it (warning).
//! The gates pass exactly when no flag is critical. Read-only on the graph.

use vstd::prelude::*;
use crate::graph::{CodeGraph, GraphNode, GraphEdge, spec_prop_or_empty, prop_or_empty};
use crate::text::{trim, spec_trim, chars_of, str_eq, string_from_chars, to_owned_string, str_is_empty,
    seq_ascii_lower, exec_ascii_lower, seq_contains_seq, contains_seq, seq_starts_with, starts_with,
    spec_find, find, slice_to_vec};
use crate::parser::append_chars;
use crate::parser::naming::{views, strings_contain, decimal, push_decimal};
use crate::semantic_diff::{node_by_id, find_node};
use crate::search::context::table_name;
use crate::prd_validator::{community_of, community_of_in, community_labels, opt_view, links_by_qn, spec_resolve_exact, resolve_exact};

verus! {

/// The security artifact's file name.
pub const SECURITY_FILE: &'static str = "stage-8.security.json";

/// The lower-case name fragments that mark a symbol as auth-critical.
pub open spec fn auth_patterns() -> Seq<Seq<char>> {
    seq!["auth"@, "password"@, "token"@, "permission"@, "role"@, "crypto"@, "encrypt"@, "decrypt"@,
        "verify"@, "jwt"@, "oauth"@, "session"@]
}

/// The auth-critical name fragments, in order.
pub fn auth_critical_patterns() -> (r: Vec<&'static str>)
    ensures
        r@.len() == 12,
        forall|i: int| 0 <= i < 12 ==> (#[trigger] r@[i])@ == auth_patterns()[i],
{
    vec!["auth", "password", "token", "permission", "role", "crypto", "encrypt", "decrypt",
        "verify", "jwt", "oauth", "session"]
}

/// A name mentions an auth-critical fragment (compared lower-cased).
pub open spec fn has_auth_pattern(name: Seq<char>) -> bool {
    exists|i: int| 0 <= i < 12 && seq_contains_seq(seq_ascii_lower(name), #[trigger] auth_patterns()[i])
}

fn lower_ascii(s: &str) -> (r: Vec<char>)
    ensures
        r@ == seq_ascii_lower(s@),
{
    let cs = chars_of(s);
    let mut out: Vec<char> = Vec::new();
    let mut i: usize = 0;
    while i < cs.len()
        invariant
            i <= cs@.len(),
            cs@ == s@,
            out@ == seq_ascii_lower(cs@.take(i as int)),
        decreases cs@.len() - i,
    {
        out.push(exec_ascii_lower(cs[i]));
        proof {
            assert(out@ =~= seq_ascii_lower(cs@.take(i + 1)));
        }
        i += 1;
    }
    proof {
        assert(cs@.take(cs@.len() as int) =~= cs@);
    }
    out
}

pub fn name_has_auth_pattern(name: &str) -> (r: bool)
    ensures
        r == has_auth_pattern(name@),
{
    let low = lower_ascii(name);
    let pats = auth_critical_patterns();
    let mut i: usize = 0;
    while i < pats.len()
        invariant
            i <= 12,
            pats@.len() == 12,
            forall|k: int| 0 <= k < 12 ==> (#[trigger] pats@[k])@ == auth_patterns()[k],
            low@ == seq_ascii_lower(name@),
            forall|k: int| 0 <= k < i ==> !seq_contains_seq(seq_ascii_lower(name@), #[trigger] auth_patterns()[k]),
        decreases 12 - i,
    {
        if contains_seq(&low, &chars_of(pats[i])) {
            return true;
        }
        i += 1;
    }
    false
}

/// The labels whose symbols can be community members, in scan order.
pub open spec fn member_labels() -> Seq<Seq<char>> {
    seq!["Function"@, "Method"@, "Struct"@, "Enum"@, "Trait"@, "Constant"@, "TypeAlias"@, "Module"@]
}

/// Edge `e` makes a `label` symbol with an auth-critical name a member of
/// community `cid`.
pub open spec fn auth_membership(nodes: Seq<GraphNode>, e: GraphEdge, label: Seq<char>, cid: Seq<char>) -> bool {
    &&& e.rel@ == table_name("MemberOf_"@, label, "_Community"@)
    &&& node_by_id(nodes, e.from_id@) matches Some(s) && s.label@ == label && has_auth_pattern(s.name@)
    &&& node_by_id(nodes, e.to_id@) matches Some(c) && c.label@ == "Community"@ && c.id@ == cid
}

/// `cid` is a non-empty community id some auth-critical symbol belongs to.
pub open spec fn is_auth_community(graph: CodeGraph, cid: Seq<char>) -> bool {
    cid.len() > 0 && exists|l: int, k: int| 0 <= l < 8 && 0 <= k < graph.edges@.len()
        && auth_membership(graph.nodes@, #[trigger] graph.edges@[k], #[trigger] member_labels()[l], cid)
}

/// The communities that hold an auth-critical symbol, each once.
pub fn find_auth_communities(graph: &CodeGraph) -> (r: Vec<String>)
    ensures
        views(r@).no_duplicates(),
        forall|cid: Seq<char>| views(r@).contains(cid) <==> is_auth_community(*graph, cid),
{
    let labels: Vec<&str> = vec!["Function", "Method", "Struct", "Enum", "Trait", "Constant", "TypeAlias", "Module"];
    let mut out: Vec<String> = Vec::new();
    let edges = &graph.edges;
    let nodes = &graph.nodes;
    let mut l: usize = 0;
    while l < labels.len()
        invariant
            l <= 8,
            labels@.len() == 8,
            forall|k: int| 0 <= k < 8 ==> (#[trigger] labels@[k])@ == member_labels()[k],
            edges@ == graph.edges@,
            nodes@ == graph.nodes@,
            views(out@).no_duplicates(),
            forall|cid: Seq<char>| views(out@).contains(cid) <==> cid.len() > 0 && exists|a: int, k: int|
                0 <= a < l && 0 <= k < edges@.len() && auth_membership(nodes@, #[trigger] edges@[k], #[trigger] member_labels()[a], cid),
        decreases 8 - l,
    {
        let rel = {
            let mut v = chars_of("MemberOf_");
            append_chars(&mut v, &chars_of(labels[l]));
            append_chars(&mut v, &chars_of("_Community"));
            v
        };
        let mut i: usize = 0;
        while i < edges.len()
            invariant
                i <= edges@.len(),
                l < 8,
                labels@.len() == 8,
                forall|k: int| 0 <= k < 8 ==> (#[trigger] labels@[k])@ == member_labels()[k],
                rel@ == table_name("MemberOf_"@, member_labels()[l as int], "_Community"@),
                edges@ == graph.edges@,
                nodes@ == graph.nodes@,
                views(out@).no_duplicates(),
                forall|cid: Seq<char>| views(out@).contains(cid) <==> cid.len() > 0 && ((exists|a: int, k: int|
                    0 <= a < l && 0 <= k < edges@.len() && auth_membership(nodes@, #[trigger] edges@[k], #[trigger] member_labels()[a], cid))
                    || (exists|k: int| 0 <= k < i && auth_membership(nodes@, #[trigger] edges@[k], member_labels()[l as int], cid))),
            decreases edges@.len() - i,
        {
            let e = &edges[i];
            let er = chars_of(e.rel.as_str());
            let ghost before = views(out@);
            let mut hit: Option<usize> = None;
            if crate::text::chars_eq(&er, &rel) {
                match (find_node(nodes, e.from_id.as_str()), find_node(nodes, e.to_id.as_str())) {
                    (Some(s), Some(c)) => {
                        if str_eq(nodes[s].label.as_str(), labels[l]) && name_has_auth_pattern(nodes[s].name.as_str())
                            && str_eq(nodes[c].label.as_str(), "Community") {
                            hit = Some(c);
                        }
                    },
                    _ => {},
                }
            }
            proof {
                match hit {
                    Some(c) => {
                        assert forall|cid: Seq<char>| auth_membership(nodes@, edges@[i as int], member_labels()[l as int], cid)
                            <==> cid == nodes@[c as int].id@ by {}
                    },
                    None => {
                        assert forall|cid: Seq<char>| !auth_membership(nodes@, edges@[i as int], member_labels()[l as int], cid) by {}
                    },
                }
            }
            match hit {
                Some(c) => {
                    let cid = nodes[c].id.as_str();
                    if !str_is_empty(cid) {
                        if !strings_contain(&out, cid) {
                            out.push(to_owned_string(cid));
                            proof {
                                assert(views(out@) =~= before.push(cid@));
                                assert(!before.contains(cid@)) by {
                                    if before.contains(cid@) {
                                        let j = choose|j: int| 0 <= j < before.len() && before[j] == cid@;
                                        assert(out@[j]@ == cid@);
                                    }
                                }
                                assert(views(out@)[before.len() as int] == cid@);
                                assert forall|x: Seq<char>| views(out@).contains(x) <==> before.contains(x) || (x == cid@ && x.len() > 0) by {
                                    if views(out@).contains(x) && x != cid@ {
                                        let j = choose|j: int| 0 <= j < views(out@).len() && views(out@)[j] == x;
                                        assert(before[j] == x);
                                    }
                                    if before.contains(x) {
                                        let j = choose|j: int| 0 <= j < before.len() && before[j] == x;
                                        assert(views(out@)[j] == x);
                                    }
                                }
                            }
                        } else {
                            proof {
                                let j = choose|j: int| 0 <= j < out@.len() && (#[trigger] out@[j])@ == cid@;
                                assert(before[j] == cid@);
                                assert(views(out@) == before);
                            }
                        }
                    } else {
                        proof {
                            assert(views(out@) == before);
                        }
                    }
                },
                None => {},
            }
            proof {
                let lab = member_labels()[l as int];
                assert forall|x: Seq<char>| views(out@).contains(x) <==> before.contains(x)
                    || (x.len() > 0 && auth_membership(nodes@, edges@[i as int], lab, x)) by {
                    match hit {
                        Some(c) => {
                            assert(auth_membership(nodes@, edges@[i as int], lab, x) <==> x == nodes@[c as int].id@);
                        },
                        None => {
                            assert(!auth_membership(nodes@, edges@[i as int], lab, x));
                            assert(views(out@) == before);
                        },
                    }
                }
                assert forall|cid: Seq<char>| views(out@).contains(cid) <==> cid.len() > 0 && ((exists|a: int, k: int|
                    0 <= a < l && 0 <= k < edges@.len() && auth_membership(nodes@, #[trigger] edges@[k], #[trigger] member_labels()[a], cid))
                    || (exists|k: int| 0 <= k < i + 1 && auth_membership(nodes@, #[trigger] edges@[k], lab, cid))) by {
                    let bi = exists|k: int| 0 <= k < i && auth_membership(nodes@, #[trigger] edges@[k], lab, cid);
                    let bi1 = exists|k: int| 0 <= k < i + 1 && auth_membership(nodes@, #[trigger] edges@[k], lab, cid);
                    let mi = auth_membership(nodes@, edges@[i as int], lab, cid);
                    let aa = exists|a: int, k: int| 0 <= a < l && 0 <= k < edges@.len()
                        && auth_membership(nodes@, #[trigger] edges@[k], #[trigger] member_labels()[a], cid);
                    assert(before.contains(cid) <==> cid.len() > 0 && (aa || bi));
                    assert(views(out@).contains(cid) <==> before.contains(cid) || (cid.len() > 0 && mi));
                    if bi1 {
                        let k = choose|k: int| 0 <= k < i + 1 && auth_membership(nodes@, #[trigger] edges@[k], lab, cid);
                        if k < i {
                            assert(bi);
                        } else {
                            assert(mi);
                        }
                    }
                    if bi {
                        let k = choose|k: int| 0 <= k < i && auth_membership(nodes@, #[trigger] edges@[k], lab, cid);
                        assert(auth_membership(nodes@, edges@[k], lab, cid));
                        assert(bi1);
                    }
                    if mi {
                        assert(auth_membership(nodes@, edges@[i as int], lab, cid));
                        assert(bi1);
                    }
                    assert(bi1 <==> bi || mi);
                }
            }
            i += 1;
        }
        l += 1;
    }
    out
}

// ---------------------------------------------------------------------------
// Flags
// ---------------------------------------------------------------------------

/// What a flag reports besides its message.
pub enum FlagDetails {
    AuthTouch { community_id: String },
    UnsafeSkipped,
    PublicApi { defined_in: Option<String> },
    UnresolvedImports { file_path: String, scope: String, unresolved_count: u64 },
    CoverageGap,
    InputUnresolved { did_you_mean: Vec<String> },
}

/// A flag's details as plain values.
pub enum DetailsView {
    AuthTouch(Seq<char>),
    UnsafeSkipped,
    PublicApi(Option<Seq<char>>),
    UnresolvedImports(Seq<char>, Seq<char>, u64),
    CoverageGap,
    InputUnresolved(Seq<Seq<char>>),
}

pub open spec fn details_view(d: FlagDetails) -> DetailsView {
    match d {
        FlagDetails::AuthTouch { community_id } => DetailsView::AuthTouch(community_id@),
        FlagDetails::UnsafeSkipped => DetailsView::UnsafeSkipped,
        FlagDetails::PublicApi { defined_in } => DetailsView::PublicApi(opt_view(defined_in)),
        FlagDetails::UnresolvedImports { file_path, scope, unresolved_count } =>
            DetailsView::UnresolvedImports(file_path@, scope@, unresolved_count),
        FlagDetails::CoverageGap => DetailsView::CoverageGap,
        FlagDetails::InputUnresolved { did_you_mean } => DetailsView::InputUnresolved(views(did_you_mean@)),
    }
}

/// One gate's finding about one symbol.
pub struct SecurityFlag {
    pub gate: String,
    pub severity: String,
    pub symbol: String,
    pub message: String,
    pub details: FlagDetails,
}

pub open spec fn flag_view(f: SecurityFlag) -> (Seq<char>, Seq<char>, Seq<char>, Seq<char>, DetailsView) {
    (f.gate@, f.severity@, f.symbol@, f.message@, details_view(f.details))
}

pub open spec fn flag_views(fs: Seq<SecurityFlag>) -> Seq<(Seq<char>, Seq<char>, Seq<char>, Seq<char>, DetailsView)> {
    fs.map_values(|f: SecurityFlag| flag_view(f))
}

fn make_flag(gate: &str, severity: &str, symbol: &str, message: String, details: FlagDetails) -> (r: SecurityFlag)
    ensures
        flag_view(r) == (gate@, severity@, symbol@, message@, details_view(details)),
{
    SecurityFlag {
        gate: to_owned_string(gate),
        severity: to_owned_string(severity),
        symbol: to_owned_string(symbol),
        message,
        details,
    }
}

// ---------------------------------------------------------------------------
// Symbol metadata
// ---------------------------------------------------------------------------

/// The first node with `label` whose qualified name is `qn`.
pub open spec fn first_with_qn(nodes: Seq<GraphNode>, label: Seq<char>, qn: Seq<char>) -> Option<GraphNode>
    decreases nodes.len(),
{
    if nodes.len() == 0 {
        None
    } else if nodes[0].label@ == label && nodes[0].qualified_name@ == qn {
        Some(nodes[0])
    } else {
        first_with_qn(nodes.drop_first(), label, qn)
    }
}

fn first_with_qn_exec(nodes: &Vec<GraphNode>, label: &str, qn: &str) -> (r: Option<usize>)
    ensures
        match r {
            Some(k) => k < nodes@.len() && first_with_qn(nodes@, label@, qn@) == Some(nodes@[k as int]),
            None => first_with_qn(nodes@, label@, qn@) is None,
        },
{
    let mut i: usize = 0;
    assert(nodes@.skip(0) =~= nodes@);
    while i < nodes.len()
        invariant
            i <= nodes@.len(),
            first_with_qn(nodes@, label@, qn@) == first_with_qn(nodes@.skip(i as int), label@, qn@),
        decreases nodes@.len() - i,
    {
        proof {
            assert(nodes@.skip(i as int)[0] == nodes@[i as int]);
            assert(nodes@.skip(i as int).drop_first() =~= nodes@.skip(i + 1));
        }
        if str_eq(nodes[i].label.as_str(), label) && str_eq(nodes[i].qualified_name.as_str(), qn) {
            return Some(i);
        }
        i += 1;
    }
    None
}

/// The labels that carry a visibility, in lookup order.
pub open spec fn visibility_labels() -> Seq<Seq<char>> {
    seq!["Function"@, "Method"@, "Struct"@, "Enum"@, "Trait"@]
}

/// The visibility of the symbol `qn`, trimmed (`None` when blank), found by
/// label in lookup order; `None` overall when no such symbol carries one.
pub open spec fn visibility_in(nodes: Seq<GraphNode>, labels: Seq<Seq<char>>, qn: Seq<char>) -> Option<Option<Seq<char>>>
    decreases labels.len(),
{
    if labels.len() == 0 {
        None
    } else {
        match first_with_qn(nodes, labels[0], qn) {
            Some(n) => Some(if spec_trim(n.visibility@).len() == 0 { None } else { Some(spec_trim(n.visibility@)) }),
            None => visibility_in(nodes, labels.drop_first(), qn),
        }
    }
}

pub fn fetch_visibility(graph: &CodeGraph, qn: &str) -> (r: Option<Option<String>>)
    ensures
        match r {
            Some(v) => visibility_in(graph.nodes@, visibility_labels(), qn@) == Some(opt_view(v)),
            None => visibility_in(graph.nodes@, visibility_labels(), qn@) is None,
        },
{
    let labels: Vec<&str> = vec!["Function", "Method", "Struct", "Enum", "Trait"];
    let ghost ls = visibility_labels();
    proof {
        assert(labels@.len() == 5);
        assert(ls.skip(0) =~= ls);
    }
    let mut j: usize = 0;
    while j < labels.len()
        invariant
            j <= labels@.len(),
            labels@.len() == 5,
            forall|k: int| 0 <= k < 5 ==> (#[trigger] labels@[k])@ == ls[k],
            ls == visibility_labels(),
            visibility_in(graph.nodes@, ls, qn@) == visibility_in(graph.nodes@, ls.skip(j as int), qn@),
        decreases labels@.len() - j,
    {
        proof {
            assert(ls.skip(j as int)[0] == ls[j as int]);
            assert(ls.skip(j as int).drop_first() =~= ls.skip(j + 1));
        }
        match first_with_qn_exec(&graph.nodes, labels[j], qn) {
            Some(k) => {
                let t = trim(graph.nodes[k].visibility.as_str());
                if str_is_empty(t.as_str()) {
                    return Some(None);
                } else {
                    return Some(Some(t));
                }
            },
            None => {},
        }
        j += 1;
    }
    proof {
        assert(ls.skip(5).len() == 0);
    }
    None
}

/// The `Defines_File_*` tables, in lookup order.
pub open spec fn defines_rels() -> Seq<Seq<char>> {
    seq!["Defines_File_Function"@, "Defines_File_Struct"@, "Defines_File_Enum"@, "Defines_File_Trait"@,
        "Defines_File_Constant"@, "Defines_File_TypeAlias"@]
}

/// Edge `e` of table `rel` goes from a File to the symbol `qn`; the file.
pub open spec fn defining_file(nodes: Seq<GraphNode>, e: GraphEdge, rel: Seq<char>, qn: Seq<char>) -> Option<GraphNode> {
    if e.rel@ == rel {
        match (node_by_id(nodes, e.from_id@), node_by_id(nodes, e.to_id@)) {
            (Some(f), Some(n)) => if f.label@ == "File"@ && n.qualified_name@ == qn { Some(f) } else { None },
            _ => None,
        }
    } else {
        None
    }
}

/// The file of the first `rel` edge defining `qn`.
pub open spec fn first_defining_file(nodes: Seq<GraphNode>, edges: Seq<GraphEdge>, rel: Seq<char>, qn: Seq<char>) -> Option<GraphNode>
    decreases edges.len(),
{
    if edges.len() == 0 {
        None
    } else {
        match defining_file(nodes, edges[0], rel, qn) {
            Some(f) => Some(f),
            None => first_defining_file(nodes, edges.drop_first(), rel, qn),
        }
    }
}

/// Some File defines `qn` directly.
pub open spec fn spec_has_file_parent(nodes: Seq<GraphNode>, edges: Seq<GraphEdge>, qn: Seq<char>) -> bool {
    exists|r: int| 0 <= r < 6 && first_defining_file(nodes, edges, #[trigger] defines_rels()[r], qn) is Some
}

/// The path of the file defining `qn`: through the first edge of the first
/// table, in lookup order, whose file has a non-empty path.
pub open spec fn file_path_in(nodes: Seq<GraphNode>, edges: Seq<GraphEdge>, rels: Seq<Seq<char>>, qn: Seq<char>) -> Option<Seq<char>>
    decreases rels.len(),
{
    if rels.len() == 0 {
        None
    } else {
        match first_defining_file(nodes, edges, rels[0], qn) {
            Some(f) => if f.qualified_name@.len() > 0 { Some(f.qualified_name@) } else { file_path_in(nodes, edges, rels.drop_first(), qn) },
            None => file_path_in(nodes, edges, rels.drop_first(), qn),
        }
    }
}

fn first_defining_file_exec(graph: &CodeGraph, rel: &str, qn: &str) -> (r: Option<usize>)
    ensures
        match r {
            Some(k) => k < graph.nodes@.len() && first_defining_file(graph.nodes@, graph.edges@, rel@, qn@) == Some(graph.nodes@[k as int]),
            None => first_defining_file(graph.nodes@, graph.edges@, rel@, qn@) is None,
        },
{
    let edges = &graph.edges;
    let nodes = &graph.nodes;
    let mut i: usize = 0;
    assert(edges@.skip(0) =~= edges@);
    while i < edges.len()
        invariant
            i <= edges@.len(),
            edges@ == graph.edges@,
            nodes@ == graph.nodes@,
            first_defining_file(nodes@, edges@, rel@, qn@) == first_defining_file(nodes@, edges@.skip(i as int), rel@, qn@),
        decreases edges@.len() - i,
    {
        proof {
            assert(edges@.skip(i as int)[0] == edges@[i as int]);
            assert(edges@.skip(i as int).drop_first() =~= edges@.skip(i + 1));
        }
        let e = &edges[i];
        if str_eq(e.rel.as_str(), rel) {
            match (find_node(nodes, e.from_id.as_str()), find_node(nodes, e.to_id.as_str())) {
                (Some(f), Some(n)) => {
                    if str_eq(nodes[f].label.as_str(), "File") && str_eq(nodes[n].qualified_name.as_str(), qn) {
                        return Some(f);
                    }
                },
                _ => {},
            }
        }
        i += 1;
    }
    None
}

fn defines_rel_names() -> (r: Vec<&'static str>)
    ensures
        r@.len() == 6,
        forall|k: int| 0 <= k < 6 ==> (#[trigger] r@[k])@ == defines_rels()[k],
{
    vec!["Defines_File_Function", "Defines_File_Struct", "Defines_File_Enum", "Defines_File_Trait",
        "Defines_File_Constant", "Defines_File_TypeAlias"]
}

pub fn has_file_parent(graph: &CodeGraph, qn: &str) -> (r: bool)
    ensures
        r == spec_has_file_parent(graph.nodes@, graph.edges@, qn@),
{
    let rels = defines_rel_names();
    let mut j: usize = 0;
    while j < rels.len()
        invariant
            j <= 6,
            rels@.len() == 6,
            forall|k: int| 0 <= k < 6 ==> (#[trigger] rels@[k])@ == defines_rels()[k],
            forall|r: int| 0 <= r < j ==> first_defining_file(graph.nodes@, graph.edges@, #[trigger] defines_rels()[r], qn@) is None,
        decreases 6 - j,
    {
        if first_defining_file_exec(graph, rels[j], qn).is_some() {
            return true;
        }
        j += 1;
    }
    false
}

pub fn lookup_file_path(graph: &CodeGraph, qn: &str) -> (r: Option<String>)
    ensures
        opt_view(r) == file_path_in(graph.nodes@, graph.edges@, defines_rels(), qn@),
{
    let rels = defines_rel_names();
    let ghost ls = defines_rels();
    proof {
        assert(ls.skip(0) =~= ls);
    }
    let mut j: usize = 0;
    while j < rels.len()
        invariant
            j <= 6,
            rels@.len() == 6,
            forall|k: int| 0 <= k < 6 ==> (#[trigger] rels@[k])@ == ls[k],
            ls == defines_rels(),
            file_path_in(graph.nodes@, graph.edges@, ls, qn@) == file_path_in(graph.nodes@, graph.edges@, ls.skip(j as int), qn@),
        decreases 6 - j,
    {
        proof {
            assert(ls.skip(j as int)[0] == ls[j as int]);
            assert(ls.skip(j as int).drop_first() =~= ls.skip(j + 1));
        }
        match first_defining_file_exec(graph, rels[j], qn) {
            Some(f) => {
                if !str_is_empty(graph.nodes[f].qualified_name.as_str()) {
                    return Some(to_owned_string(graph.nodes[f].qualified_name.as_str()));
                }
            },
            None => {},
        }
        j += 1;
    }
    proof {
        assert(ls.skip(6).len() == 0);
    }
    None
}

/// A file path without its first component (`src/main.rs` gives
/// `main.rs`), matching the scope prefix the parsers give qualified names.
pub open spec fn spec_file_scope(p: Seq<char>) -> Seq<char> {
    match spec_find(p, seq!['/']) {
        Some(i) => p.skip(i + 1),
        None => p,
    }
}

pub fn file_scope_from_path(file_path: &str) -> (r: String)
    ensures
        r@ == spec_file_scope(file_path@),
{
    let cs = chars_of(file_path);
    let slash: Vec<char> = vec!['/'];
    proof {
        assert(slash@ =~= seq!['/']);
    }
    match find(&cs, &slash) {
        Some(i) => {
            proof {
                assert(crate::text::is_first_occurrence(cs@, slash@, i as int));
                assert(crate::text::occurs_at(cs@, slash@, i as int));
                assert(slash@.len() == 1);
                assert(i + 1 <= cs@.len());
                assert(i < cs.len());
            }
            let start: usize = i + 1;
            let v = slice_to_vec(&cs, start, cs.len());
            proof {
                assert(v@ =~= file_path@.skip(i + 1));
            }
            string_from_chars(&v)
        },
        None => string_from_chars(&cs),
    }
}

/// How many Import nodes have a qualified name starting with `prefix`.
pub open spec fn imports_with_prefix(nodes: Seq<GraphNode>, prefix: Seq<char>) -> nat
    decreases nodes.len(),
{
    if nodes.len() == 0 {
        0
    } else {
        imports_with_prefix(nodes.drop_last(), prefix)
            + if nodes.last().label@ == "Import"@ && seq_starts_with(nodes.last().qualified_name@, prefix) { 1nat } else { 0nat }
    }
}

pub fn count_imports_with_prefix(graph: &CodeGraph, prefix: &[char]) -> (r: u64)
    ensures
        r == imports_with_prefix(graph.nodes@, prefix@),
{
    let nodes = &graph.nodes;
    let mut n: u64 = 0;
    let mut i: usize = 0;
    while i < nodes.len()
        invariant
            i <= nodes@.len(),
            nodes@ == graph.nodes@,
            n == imports_with_prefix(nodes@.take(i as int), prefix@),
            n <= i,
        decreases nodes@.len() - i,
    {
        proof {
            assert(nodes@.take(i + 1).drop_last() =~= nodes@.take(i as int));
            assert(nodes@.take(i + 1).last() == nodes@[i as int]);
        }
        if str_eq(nodes[i].label.as_str(), "Import") && starts_with(&chars_of(nodes[i].qualified_name.as_str()), prefix) {
            n += 1;
        }
        i += 1;
    }
    proof {
        assert(nodes@.take(nodes@.len() as int) =~= nodes@);
    }
    n
}

/// Edge `e` joins the `label` symbol `qn` to a test-entry process.
pub open spec fn reaches_test(nodes: Seq<GraphNode>, e: GraphEdge, label: Seq<char>, qn: Seq<char>) -> bool {
    &&& links_by_qn(nodes, e, table_name("ParticipatesIn_"@, label, "_Process"@), label, qn, "Process"@)
    &&& spec_prop_or_empty(node_by_id(nodes, e.to_id@).unwrap().props@, "entry_kind"@) == "test"@
}

/// How many test-entry processes the `label` symbol `qn` takes part in.
pub open spec fn test_reach(nodes: Seq<GraphNode>, edges: Seq<GraphEdge>, label: Seq<char>, qn: Seq<char>) -> nat
    decreases edges.len(),
{
    if edges.len() == 0 {
        0
    } else {
        test_reach(nodes, edges.drop_last(), label, qn) + if reaches_test(nodes, edges.last(), label, qn) { 1nat } else { 0nat }
    }
}

fn count_test_reach(graph: &CodeGraph, label: &str, qn: &str) -> (r: u64)
    ensures
        r == test_reach(graph.nodes@, graph.edges@, label@, qn@),
{
    let mut rel = chars_of("ParticipatesIn_");
    append_chars(&mut rel, &chars_of(label));
    append_chars(&mut rel, &chars_of("_Process"));
    let edges = &graph.edges;
    let nodes = &graph.nodes;
    let mut n: u64 = 0;
    let mut i: usize = 0;
    while i < edges.len()
        invariant
            i <= edges@.len(),
            edges@ == graph.edges@,
            nodes@ == graph.nodes@,
            rel@ == table_name("ParticipatesIn_"@, label@, "_Process"@),
            n == test_reach(nodes@, edges@.take(i as int), label@, qn@),
            n <= i,
        decreases edges@.len() - i,
    {
        proof {
            assert(edges@.take(i + 1).drop_last() =~= edges@.take(i as int));
            assert(edges@.take(i + 1).last() == edges@[i as int]);
        }
        let e = &edges[i];
        let er = chars_of(e.rel.as_str());
        if crate::text::chars_eq(&er, &rel) {
            match (find_node(nodes, e.from_id.as_str()), find_node(nodes, e.to_id.as_str())) {
                (Some(a), Some(p)) => {
                    if str_eq(nodes[a].label.as_str(), label) && str_eq(nodes[a].qualified_name.as_str(), qn)
                        && str_eq(nodes[p].label.as_str(), "Process")
                        && str_eq(prop_or_empty(&nodes[p].props, "entry_kind").as_str(), "test") {
                        n += 1;
                    }
                },
                _ => {},
            }
        }
        i += 1;
    }
    proof {
        assert(edges@.take(edges@.len() as int) =~= edges@);
    }
    n
}

pub type FlagView = (Seq<char>, Seq<char>, Seq<char>, Seq<char>, DetailsView);

pub open spec fn auth_message(cid: Seq<char>) -> Seq<char> {
    "changed symbol shares community '"@ + cid + "' with auth-critical symbols"@
}

pub open spec fn unsafe_message() -> Seq<char> {
    "unsafe detection unavailable: rust_parser does not record is_unsafe"@
}

pub open spec fn public_api_message() -> Seq<char> {
    "touches a crate-root public API symbol — downstream consumers may break"@
}

pub open spec fn imports_message(count: nat) -> Seq<char> {
    decimal(count) + " unresolved Import node(s) in the changed symbol's file — drift or supply-chain risk"@
}

pub open spec fn coverage_message() -> Seq<char> {
    "no ParticipatesIn path from any test-entry process — structural coverage gap"@
}

/// S1: the symbol's community holds an auth-critical symbol.
pub open spec fn s1_flags(g: CodeGraph, qn: Seq<char>) -> Seq<FlagView> {
    match community_of_in(g.nodes@, g.edges@, community_labels(), qn) {
        Some(cid) => if is_auth_community(g, cid) {
            seq![("auth_critical_touch"@, "critical"@, qn, auth_message(cid), DetailsView::AuthTouch(cid))]
        } else {
            Seq::empty()
        },
        None => Seq::empty(),
    }
}

/// S2: always reported as unavailable.
pub open spec fn s2_flags(qn: Seq<char>) -> Seq<FlagView> {
    seq![("unsafe_symbol"@, "info"@, qn, unsafe_message(), DetailsView::UnsafeSkipped)]
}

/// S3: a `pub` symbol defined directly by a file.
pub open spec fn s3_flags(g: CodeGraph, qn: Seq<char>) -> Seq<FlagView> {
    if visibility_in(g.nodes@, visibility_labels(), qn) == Some(Some("pub"@)) && spec_has_file_parent(g.nodes@, g.edges@, qn) {
        seq![("public_api_change"@, "warning"@, qn, public_api_message(),
            DetailsView::PublicApi(file_path_in(g.nodes@, g.edges@, defines_rels(), qn)))]
    } else {
        Seq::empty()
    }
}

/// S4: unresolved imports in the symbol's file scope.
pub open spec fn s4_flags(g: CodeGraph, qn: Seq<char>) -> Seq<FlagView> {
    match file_path_in(g.nodes@, g.edges@, defines_rels(), qn) {
        Some(fp) => {
            let scope = spec_file_scope(fp);
            let count = imports_with_prefix(g.nodes@, scope + seq![':', ':']);
            if count == 0 {
                Seq::empty()
            } else {
                seq![("unresolved_imports"@, if count >= 2 { "critical"@ } else { "warning"@ }, qn, imports_message(count),
                    DetailsView::UnresolvedImports(fp, scope, count as u64))]
            }
        },
        None => Seq::empty(),
    }
}

/// S5: no test-entry process reaches the symbol.
pub open spec fn s5_flags(g: CodeGraph, qn: Seq<char>) -> Seq<FlagView> {
    if test_reach(g.nodes@, g.edges@, "Function"@, qn) + test_reach(g.nodes@, g.edges@, "Method"@, qn) > 0 {
        Seq::empty()
    } else {
        seq![("test_coverage_gap"@, "warning"@, qn, coverage_message(), DetailsView::CoverageGap)]
    }
}

/// The flags of all five gates for one resolved symbol.
pub open spec fn gate_flags(g: CodeGraph, qn: Seq<char>) -> Seq<FlagView> {
    s1_flags(g, qn) + s2_flags(qn) + s3_flags(g, qn) + s4_flags(g, qn) + s5_flags(g, qn)
}

fn push_flag(flags: &mut Vec<SecurityFlag>, f: SecurityFlag)
    ensures
        flag_views(final(flags)@) == flag_views(old(flags)@).push(flag_view(f)),
{
    flags.push(f);
    proof {
        assert(flag_views(flags@) =~= flag_views(old(flags)@).push(flag_view(f)));
    }
}

/// Runs the five gates on one resolved symbol.
pub fn run_gates(graph: &CodeGraph, qn: &str, any_auth: bool, auth: &Vec<String>, flags: &mut Vec<SecurityFlag>)
    requires
        any_auth == exists|c: Seq<char>| is_auth_community(*graph, c),
        forall|c: Seq<char>| views(auth@).contains(c) <==> is_auth_community(*graph, c),
    ensures
        flag_views(final(flags)@) == flag_views(old(flags)@) + gate_flags(*graph, qn@),
{
    let ghost base = flag_views(flags@);
    // S1
    if any_auth {
        match community_of(graph, qn) {
            Some(cid) => {
                if strings_contain(auth, cid.as_str()) {
                    let parts: Vec<&str> = vec!["changed symbol shares community '", cid.as_str(), "' with auth-critical symbols"];
                    let message = concat(&parts);
                    proof {
                        assert(concat_views(parts@) =~= auth_message(cid@)) by {
                            reveal_with_fuel(concat_views, 4);
                        }
                        let k = choose|k: int| 0 <= k < auth@.len() && (#[trigger] auth@[k])@ == cid@;
                        assert(views(auth@)[k] == cid@);
                    }
                    let f = make_flag("auth_critical_touch", "critical", qn, message, FlagDetails::AuthTouch { community_id: cid });
                    push_flag(flags, f);
                } else {
                    proof {
                        if is_auth_community(*graph, cid@) {
                            assert(views(auth@).contains(cid@));
                            let k = choose|k: int| 0 <= k < views(auth@).len() && views(auth@)[k] == cid@;
                            assert(auth@[k]@ == cid@);
                        }
                    }
                }
            },
            None => {},
        }
    } else {
        proof {
            if let Some(cid) = community_of_in(graph.nodes@, graph.edges@, community_labels(), qn@) {
                assert(!is_auth_community(*graph, cid));
            }
        }
    }
    proof {
        assert(flag_views(flags@) == base + s1_flags(*graph, qn@));
    }
    // S2
    let f = make_flag("unsafe_symbol", "info", qn, to_owned_string("unsafe detection unavailable: rust_parser does not record is_unsafe"), FlagDetails::UnsafeSkipped);
    push_flag(flags, f);
    proof {
        assert(flag_views(flags@) =~= base + s1_flags(*graph, qn@) + s2_flags(qn@));
    }
    let ghost b3 = flag_views(flags@);
    // S3
    match fetch_visibility(graph, qn) {
        Some(Some(v)) => {
            if str_eq(v.as_str(), "pub") && has_file_parent(graph, qn) {
                let f = make_flag("public_api_change", "warning", qn,
                    to_owned_string("touches a crate-root public API symbol — downstream consumers may break"),
                    FlagDetails::PublicApi { defined_in: lookup_file_path(graph, qn) });
                push_flag(flags, f);
            }
        },
        _ => {},
    }
    proof {
        assert(flag_views(flags@) =~= b3 + s3_flags(*graph, qn@));
    }
    let ghost b4 = flag_views(flags@);
    // S4
    match lookup_file_path(graph, qn) {
        Some(fp) => {
            let scope = file_scope_from_path(fp.as_str());
            let mut prefix = chars_of(scope.as_str());
            append_chars(&mut prefix, &chars_of("::"));
            proof {
                reveal_strlit("::");
                assert(prefix@ =~= scope@ + seq![':', ':']);
            }
            let count = count_imports_with_prefix(graph, &prefix);
            if count > 0 {
                let severity = if count >= 2 { "critical" } else { "warning" };
                let mut msg: Vec<char> = Vec::new();
                push_decimal(&mut msg, count);
                append_chars(&mut msg, &chars_of(" unresolved Import node(s) in the changed symbol's file — drift or supply-chain risk"));
                proof {
                    assert(msg@ =~= imports_message(count as nat));
                }
                let f = make_flag("unresolved_imports", severity, qn, string_from_chars(&msg),
                    FlagDetails::UnresolvedImports { file_path: fp, scope, unresolved_count: count });
                push_flag(flags, f);
            }
        },
        None => {},
    }
    proof {
        assert(flag_views(flags@) =~= b4 + s4_flags(*graph, qn@));
    }
    let ghost b5 = flag_views(flags@);
    // S5
    let reached_fn = count_test_reach(graph, "Function", qn);
    let reached_m = count_test_reach(graph, "Method", qn);
    if reached_fn == 0 && reached_m == 0 {
        let f = make_flag("test_coverage_gap", "warning", qn,
            to_owned_string("no ParticipatesIn path from any test-entry process — structural coverage gap"),
            FlagDetails::CoverageGap);
        push_flag(flags, f);
    }
    proof {
        assert(flag_views(flags@) =~= b5 + s5_flags(*graph, qn@));
        assert(base + gate_flags(*graph, qn@) =~= base + s1_flags(*graph, qn@) + s2_flags(qn@) + s3_flags(*graph, qn@)
            + s4_flags(*graph, qn@) + s5_flags(*graph, qn@));
    }
}

pub open spec fn concat_views(parts: Seq<&str>) -> Seq<char>
    decreases parts.len(),
{
    if parts.len() == 0 { Seq::empty() } else { concat_views(parts.drop_last()) + parts.last()@ }
}

fn concat(parts: &Vec<&str>) -> (r: String)
    ensures
        r@ == concat_views(parts@),
{
    let mut v: Vec<char> = Vec::new();
    let mut i: usize = 0;
    while i < parts.len()
        invariant
            i <= parts@.len(),
            v@ == concat_views(parts@.take(i as int)),
        decreases parts@.len() - i,
    {
        append_chars(&mut v, &chars_of(parts[i]));
        proof {
            assert(parts@.take(i + 1).drop_last() =~= parts@.take(i as int));
        }
        i += 1;
    }
    proof {
        assert(parts@.take(parts@.len() as int) =~= parts@);
    }
    string_from_chars(&v)
}

// ---------------------------------------------------------------------------
// The report
// ---------------------------------------------------------------------------

/// The counts a security check reports.
pub struct SecuritySummary {
    pub changed_symbols: u64,
    pub critical_count: u64,
    pub warning_count: u64,
    pub info_count: u64,
}

/// A whole security check.
pub struct SecurityReport {
    pub gates_passed: bool,
    pub flags: Vec<SecurityFlag>,
    pub summary: SecuritySummary,
}

/// How many flags have severity `sev`.
pub open spec fn severity_count(fs: Seq<FlagView>, sev: Seq<char>) -> nat
    decreases fs.len(),
{
    if fs.len() == 0 {
        0
    } else {
        severity_count(fs.drop_last(), sev) + if fs.last().1 == sev { 1nat } else { 0nat }
    }
}

/// How many flags are neither critical nor warnings.
pub open spec fn other_count(fs: Seq<FlagView>) -> nat
    decreases fs.len(),
{
    if fs.len() == 0 {
        0
    } else {
        other_count(fs.drop_last()) + if fs.last().1 != "critical"@ && fs.last().1 != "warning"@ { 1nat } else { 0nat }
    }
}

/// Counts the flags by severity.
pub fn tally(flags: &Vec<SecurityFlag>, changed_symbols: u64) -> (r: SecuritySummary)
    ensures
        r.changed_symbols == changed_symbols,
        r.critical_count == severity_count(flag_views(flags@), "critical"@),
        r.warning_count == severity_count(flag_views(flags@), "warning"@),
        r.info_count == other_count(flag_views(flags@)),
{
    let mut critical: u64 = 0;
    let mut warning: u64 = 0;
    let mut info: u64 = 0;
    let mut i: usize = 0;
    while i < flags.len()
        invariant
            i <= flags@.len(),
            critical == severity_count(flag_views(flags@).take(i as int), "critical"@),
            warning == severity_count(flag_views(flags@).take(i as int), "warning"@),
            info == other_count(flag_views(flags@).take(i as int)),
            critical + warning + info == i,
        decreases flags@.len() - i,
    {
        proof {
            let t = flag_views(flags@).take(i + 1);
            assert(t.drop_last() =~= flag_views(flags@).take(i as int));
            assert(t.last() == flag_view(flags@[i as int]));
            reveal_strlit("critical");
            reveal_strlit("warning");
            assert("critical"@.len() == 8);
            assert("warning"@.len() == 7);
        }
        if str_eq(flags[i].severity.as_str(), "critical") {
            critical += 1;
        } else if str_eq(flags[i].severity.as_str(), "warning") {
            warning += 1;
        } else {
            info += 1;
        }
        i += 1;
    }
    proof {
        assert(flag_views(flags@).take(flags@.len() as int) =~= flag_views(flags@));
    }
    SecuritySummary { changed_symbols, critical_count: critical, warning_count: warning, info_count: info }
}

/// Gate flags for each changed symbol that resolves, in the order given.
pub open spec fn resolved_flags(g: CodeGraph, inputs: Seq<Seq<char>>) -> Seq<FlagView>
    decreases inputs.len(),
{
    if inputs.len() == 0 {
        Seq::empty()
    } else {
        resolved_flags(g, inputs.drop_last()) + match spec_resolve_exact(g.nodes@, inputs.last()) {
            Some(qn) => gate_flags(g, qn),
            None => Seq::empty(),
        }
    }
}

pub open spec fn unresolved_message(input: Seq<char>) -> Seq<char> {
    "changed symbol '"@ + input + "' did not resolve in graph"@
}

/// An information flag for each input that did not resolve, in order.
pub open spec fn unresolved_flags(g: CodeGraph, inputs: Seq<Seq<char>>) -> Seq<FlagView>
    decreases inputs.len(),
{
    if inputs.len() == 0 {
        Seq::empty()
    } else {
        unresolved_flags(g, inputs.drop_last()) + if spec_resolve_exact(g.nodes@, inputs.last()) is None {
            seq![("input_unresolved"@, "info"@, inputs.last(), unresolved_message(inputs.last()),
                DetailsView::InputUnresolved(Seq::empty()))]
        } else {
            Seq::empty()
        }
    }
}

/// Runs every gate on every changed symbol (resolved by exact lookup).
pub fn check_gates(graph: &CodeGraph, changed_symbols: &Vec<String>) -> (r: SecurityReport)
    ensures
        flag_views(r.flags@) == resolved_flags(*graph, views(changed_symbols@)) + unresolved_flags(*graph, views(changed_symbols@)),
        r.summary.changed_symbols == changed_symbols@.len(),
        r.summary.critical_count == severity_count(flag_views(r.flags@), "critical"@),
        r.summary.warning_count == severity_count(flag_views(r.flags@), "warning"@),
        r.summary.info_count == other_count(flag_views(r.flags@)),
        r.gates_passed <==> r.summary.critical_count == 0,
        r.gates_passed <==> forall|i: int| 0 <= i < r.flags@.len() ==> (#[trigger] r.flags@[i]).severity@ != "critical"@,
        r.summary.critical_count + r.summary.warning_count + r.summary.info_count == r.flags@.len(),
{
    let auth = find_auth_communities(graph);
    let any_auth = auth.len() > 0;
    proof {
        if any_auth {
            assert(views(auth@).contains(auth@[0]@)) by {
                assert(views(auth@)[0] == auth@[0]@);
            }
            assert(is_auth_community(*graph, auth@[0]@));
        }
        if !any_auth {
            assert forall|c: Seq<char>| !is_auth_community(*graph, c) by {
                if is_auth_community(*graph, c) {
                    assert(views(auth@).contains(c));
                }
            }
        }
    }
    let mut flags: Vec<SecurityFlag> = Vec::new();
    proof {
        assert(flag_views(flags@) =~= Seq::<FlagView>::empty());
    }
    let ghost ins = views(changed_symbols@);
    let mut i: usize = 0;
    while i < changed_symbols.len()
        invariant
            i <= changed_symbols@.len(),
            ins == views(changed_symbols@),
            any_auth == exists|c: Seq<char>| is_auth_community(*graph, c),
            forall|c: Seq<char>| views(auth@).contains(c) <==> is_auth_community(*graph, c),
            flag_views(flags@) == resolved_flags(*graph, ins.take(i as int)),
        decreases changed_symbols@.len() - i,
    {
        proof {
            assert(ins.take(i + 1).drop_last() =~= ins.take(i as int));
            assert(ins.take(i + 1).last() == changed_symbols@[i as int]@);
        }
        match resolve_exact(graph, changed_symbols[i].as_str()) {
            Some(qn) => {
                run_gates(graph, qn.as_str(), any_auth, &auth, &mut flags);
            },
            None => {
                proof {
                    assert(flag_views(flags@) =~= resolved_flags(*graph, ins.take(i + 1)));
                }
            },
        }
        i += 1;
    }
    proof {
        assert(ins.take(ins.len() as int) =~= ins);
    }
    let ghost rf = flag_views(flags@);
    let mut i: usize = 0;
    while i < changed_symbols.len()
        invariant
            i <= changed_symbols@.len(),
            ins == views(changed_symbols@),
            flag_views(flags@) == rf + unresolved_flags(*graph, ins.take(i as int)),
        decreases changed_symbols@.len() - i,
    {
        proof {
            assert(ins.take(i + 1).drop_last() =~= ins.take(i as int));
            assert(ins.take(i + 1).last() == changed_symbols@[i as int]@);
        }
        let input = changed_symbols[i].as_str();
        if resolve_exact(graph, input).is_none() {
            let parts: Vec<&str> = vec!["changed symbol '", input, "' did not resolve in graph"];
            let message = concat(&parts);
            proof {
                assert(concat_views(parts@) =~= unresolved_message(input@)) by {
                    reveal_with_fuel(concat_views, 4);
                }
            }
            let dym: Vec<String> = Vec::new();
            proof {
                assert(views(dym@) =~= Seq::<Seq<char>>::empty());
            }
            let f = make_flag("input_unresolved", "info", input, message, FlagDetails::InputUnresolved { did_you_mean: dym });
            push_flag(&mut flags, f);
            proof {
                assert(flag_views(flags@) =~= rf + unresolved_flags(*graph, ins.take(i + 1)));
            }
        } else {
            proof {
                assert(flag_views(flags@) =~= rf + unresolved_flags(*graph, ins.take(i + 1)));
            }
        }
        i += 1;
    }
    proof {
        assert(ins.take(ins.len() as int) =~= ins);
    }
    let summary = tally(&flags, changed_symbols.len() as u64);
    proof {
        let fv = flag_views(flags@);
        lemma_tally_laws(fv);
        assert forall|i: int| 0 <= i < flags@.len() implies
            ((#[trigger] flags@[i]).severity@ != "critical"@ <==> fv[i].1 != "critical"@) by {}
    }
    SecurityReport { gates_passed: summary.critical_count == 0, flags, summary }
}

proof fn lemma_test_reach_positive(nodes: Seq<GraphNode>, edges: Seq<GraphEdge>, label: Seq<char>, qn: Seq<char>)
    ensures
        test_reach(nodes, edges, label, qn) > 0 <==> exists|i: int| 0 <= i < edges.len()
            && reaches_test(nodes, #[trigger] edges[i], label, qn),
    decreases edges.len(),
{
    if edges.len() > 0 {
        let d = edges.drop_last();
        lemma_test_reach_positive(nodes, d, label, qn);
        if exists|i: int| 0 <= i < d.len() && reaches_test(nodes, #[trigger] d[i], label, qn) {
            let i = choose|i: int| 0 <= i < d.len() && reaches_test(nodes, #[trigger] d[i], label, qn);
            assert(edges[i] == d[i]);
        }
        if exists|i: int| 0 <= i < edges.len() && reaches_test(nodes, #[trigger] edges[i], label, qn) {
            let i = choose|i: int| 0 <= i < edges.len() && reaches_test(nodes, #[trigger] edges[i], label, qn);
            if i < edges.len() - 1 {
                assert(d[i] == edges[i]);
            }
        }
    }
}

/// No coverage-gap flag is raised for a symbol exactly when an edge of the
/// table ParticipatesIn_ + label + _Process, with the label Function or
/// Method, joins a node with that label and qualified name to a Process
/// node whose entry_kind property is test; a process with another entry
/// kind does not count. When there is no such edge, a single flag is
/// raised, of severity warning.
pub proof fn lemma_coverage_gap_law(g: CodeGraph, qn: Seq<char>)
    ensures
        ({
            let joins = |e: GraphEdge, label: Seq<char>| {
                &&& e.rel@ == "ParticipatesIn_"@ + label + "_Process"@
                &&& node_by_id(g.nodes@, e.from_id@) matches Some(a) && a.label@ == label && a.qualified_name@ == qn
                &&& node_by_id(g.nodes@, e.to_id@) matches Some(p) && p.label@ == "Process"@
                    && spec_prop_or_empty(p.props@, "entry_kind"@) == "test"@
            };
            s5_flags(g, qn).len() == 0 <==> exists|i: int| 0 <= i < g.edges@.len()
                && (joins(#[trigger] g.edges@[i], "Function"@) || joins(g.edges@[i], "Method"@))
        }),
        s5_flags(g, qn).len() == 0
            || s5_flags(g, qn) == seq![("test_coverage_gap"@, "warning"@, qn, coverage_message(), DetailsView::CoverageGap)],
{
    lemma_test_reach_positive(g.nodes@, g.edges@, "Function"@, qn);
    lemma_test_reach_positive(g.nodes@, g.edges@, "Method"@, qn);
}

/// Every flag is counted once, and the gates pass exactly when no flag is
/// critical.
pub proof fn lemma_tally_laws(fs: Seq<FlagView>)
    ensures
        severity_count(fs, "critical"@) + severity_count(fs, "warning"@) + other_count(fs) == fs.len(),
        severity_count(fs, "critical"@) == 0 <==> forall|i: int| 0 <= i < fs.len() ==> (#[trigger] fs[i]).1 != "critical"@,
    decreases fs.len(),
{
    reveal_strlit("critical");
    reveal_strlit("warning");
    assert("critical"@.len() == 8);
    assert("warning"@.len() == 7);
    if fs.len() > 0 {
        lemma_tally_laws(fs.drop_last());
        assert forall|i: int| 0 <= i < fs.drop_last().len() implies #[trigger] fs.drop_last()[i] == fs[i] by {}
        if severity_count(fs, "critical"@) == 0 {
            assert forall|i: int| 0 <= i < fs.len() implies (#[trigger] fs[i]).1 != "critical"@ by {
                if i < fs.len() - 1 {
                    assert(fs.drop_last()[i] == fs[i]);
                }
            }
        } else {
            if fs.last().1 != "critical"@ {
                let j = choose|j: int| 0 <= j < fs.drop_last().len() && (#[trigger] fs.drop_last()[j]).1 == "critical"@;
                assert(fs[j] == fs.drop_last()[j]);
            } else {
                assert(fs[fs.len() - 1].1 == "critical"@);
            }
        }
    }
}

} // verus!
