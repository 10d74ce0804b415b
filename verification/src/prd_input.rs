//! Bundles a verified finding with what the code graph knows about the
//! symbols its description mentions, for the PRD generator. This module
//! holds the decisions: how a description becomes search tokens, how the
//! search hits are merged and enriched from the graph, and what the
//! artifact aggregates. Reading and writing the run's files is the
//! application's part.

use vstd::prelude::*;
use crate::graph::{CodeGraph, GraphNode, spec_prop_or_empty, prop_or_empty};
use crate::text::{is_ascii_upper, chars_of, str_eq, string_from_chars, to_owned_string, split_nonempty, split_pieces, Sep,
    is_ascii_alnum, exec_is_ascii_alnum, ascii_lower, exec_ascii_lower, seq_ascii_lower};
use crate::parser::append_chars;
use crate::parser::naming::{views, strings_contain};
use crate::search::context::{get_context, spec_details, related_out, related_in, spec_parse_u64, parse_u64,
    rs_views};

verus! {

/// Matches kept per description token.
pub const MATCHES_PER_TOKEN: usize = 3;
/// The artifact's schema version.
pub const PREPARER_VERSION: &'static str = "1.0.0";
/// The artifact's file name.
pub const PRD_INPUT_FILE_NAME: &'static str = "stage-4.prd_input.json";
/// Shorter cleaned tokens are noise and are dropped.
pub const MIN_TOKEN_LEN: usize = 3;
/// At most this many tokens are searched.
pub const MAX_TOKENS: usize = 32;

/// Where the run lives and which finding to prepare.
pub struct PrdInputArgs {
    pub run_id: String,
    pub finding_id: String,
    pub output_dir: String,
    pub graph_path: String,
}

/// What a successful preparation reports.
pub struct PrdInputOutcome {
    pub artifact_path: String,
    pub matched_symbol_count: usize,
    pub impacted_community_count: usize,
    pub impacted_process_count: usize,
}

/// The finding as the refinement stage left it.
pub struct FindingSummary {
    pub finding_id: String,
    pub title: String,
    pub description: String,
    pub relevance_category: String,
}

// ---------------------------------------------------------------------------
// Tokenization
// ---------------------------------------------------------------------------

/// The chars of `s` that are ASCII letters or digits, `_` or `:`.
pub open spec fn token_chars(s: Seq<char>) -> Seq<char>
    decreases s.len(),
{
    if s.len() == 0 {
        Seq::empty()
    } else {
        let p = token_chars(s.drop_last());
        let c = s.last();
        if is_ascii_alnum(c) || c == '_' || c == ':' {
            p.push(c)
        } else {
            p
        }
    }
}

/// A raw word cleaned into a search token: other chars dropped, ASCII
/// letters lower-cased.
pub open spec fn spec_clean_token(raw: Seq<char>) -> Seq<char> {
    seq_ascii_lower(token_chars(raw))
}

pub fn clean_token(raw: &str) -> (r: String)
    ensures
        r@ == spec_clean_token(raw@),
{
    let cs = chars_of(raw);
    let mut out: Vec<char> = Vec::new();
    let mut i: usize = 0;
    while i < cs.len()
        invariant
            i <= cs@.len(),
            cs@ == raw@,
            out@ == seq_ascii_lower(token_chars(cs@.take(i as int))),
        decreases cs@.len() - i,
    {
        proof {
            assert(cs@.take(i + 1).drop_last() =~= cs@.take(i as int));
            assert(cs@.take(i + 1).last() == cs@[i as int]);
        }
        let c = cs[i];
        let ghost before = out@;
        if exec_is_ascii_alnum(c) || c == '_' || c == ':' {
            out.push(exec_ascii_lower(c));
            proof {
                let t = token_chars(cs@.take(i as int));
                assert(seq_ascii_lower(t.push(c)) =~= seq_ascii_lower(t).push(ascii_lower(c)));
            }
        }
        i += 1;
    }
    proof {
        assert(cs@.take(cs@.len() as int) =~= cs@);
    }
    string_from_chars(&out)
}

/// The tokens taken from the words `raws`, `seen` being those taken so far:
/// each word cleaned, kept when at least `MIN_TOKEN_LEN` long and new, until
/// `MAX_TOKENS` are held.
pub open spec fn tokens_from(raws: Seq<Seq<char>>, seen: Seq<Seq<char>>) -> Seq<Seq<char>>
    decreases raws.len(),
{
    if raws.len() == 0 || seen.len() >= 32 {
        seen
    } else {
        let c = spec_clean_token(raws[0]);
        let next = if c.len() < 3 || seen.contains(c) { seen } else { seen.push(c) };
        tokens_from(raws.drop_first(), next)
    }
}

/// The search tokens of a finding: the words of its title and description.
pub open spec fn spec_description_tokens(title: Seq<char>, description: Seq<char>) -> Seq<Seq<char>> {
    tokens_from(split_pieces(title + seq![' '] + description, Sep::Whitespace), Seq::empty())
}

/// Tokens are at least `MIN_TOKEN_LEN` long, distinct, and at most
/// `MAX_TOKENS` of them.
pub open spec fn tokens_well_formed(t: Seq<Seq<char>>) -> bool {
    &&& t.len() <= 32
    &&& forall|i: int| 0 <= i < t.len() ==> (#[trigger] t[i]).len() >= 3
    &&& t.no_duplicates()
}

pub proof fn lemma_tokens_well_formed(raws: Seq<Seq<char>>, seen: Seq<Seq<char>>)
    requires
        tokens_well_formed(seen),
    ensures
        tokens_well_formed(tokens_from(raws, seen)),
    decreases raws.len(),
{
    if raws.len() > 0 && seen.len() < 32 {
        let c = spec_clean_token(raws[0]);
        if !(c.len() < 3 || seen.contains(c)) {
            let next = seen.push(c);
            assert forall|i: int, j: int| 0 <= i < j < next.len() implies next[i] != next[j] by {
                if j == next.len() - 1 {
                    assert(seen.contains(next[i]));
                }
            }
        }
        let next = if c.len() < 3 || seen.contains(c) { seen } else { seen.push(c) };
        lemma_tokens_well_formed(raws.drop_first(), next);
    }
}

/// A char a search token may hold: a lower-case ASCII letter, a digit,
/// `_` or `:`.
pub open spec fn desc_token_char(c: char) -> bool {
    ('a' <= c && c <= 'z') || ('0' <= c && c <= '9') || c == '_' || c == ':'
}

proof fn lemma_token_chars_kept(s: Seq<char>)
    ensures
        forall|j: int| 0 <= j < token_chars(s).len()
            ==> is_ascii_alnum(#[trigger] token_chars(s)[j]) || token_chars(s)[j] == '_' || token_chars(s)[j] == ':',
    decreases s.len(),
{
    if s.len() > 0 {
        lemma_token_chars_kept(s.drop_last());
        let p = token_chars(s.drop_last());
        let c = s.last();
        if is_ascii_alnum(c) || c == '_' || c == ':' {
            assert forall|j: int| 0 <= j < p.push(c).len() implies
                is_ascii_alnum(#[trigger] p.push(c)[j]) || p.push(c)[j] == '_' || p.push(c)[j] == ':' by {
                if j < p.len() {
                    assert(p.push(c)[j] == p[j]);
                }
            }
        }
    }
}

/// Every char of a cleaned token is one a search token may hold.
pub proof fn lemma_clean_token_chars(raw: Seq<char>)
    ensures
        forall|j: int| 0 <= j < spec_clean_token(raw).len() ==> desc_token_char(#[trigger] spec_clean_token(raw)[j]),
{
    lemma_token_chars_kept(raw);
    let t = token_chars(raw);
    let l = spec_clean_token(raw);
    assert forall|j: int| 0 <= j < l.len() implies desc_token_char(#[trigger] l[j]) by {
        assert(l[j] == ascii_lower(t[j]));
        if is_ascii_upper(t[j]) {
            assert(l[j] as u32 == (t[j] as u32) + 32);
        }
    }
}

proof fn lemma_tokens_from_law(raws: Seq<Seq<char>>, seen: Seq<Seq<char>>)
    ensures
        forall|k: int| 0 <= k < seen.len() ==> tokens_from(raws, seen).contains(#[trigger] seen[k]),
        forall|k: int| 0 <= k < tokens_from(raws, seen).len() ==> seen.contains(#[trigger] tokens_from(raws, seen)[k])
            || exists|w: int| 0 <= w < raws.len() && tokens_from(raws, seen)[k] == spec_clean_token(#[trigger] raws[w]),
        tokens_from(raws, seen).len() < 32 ==> forall|w: int| 0 <= w < raws.len()
            && #[trigger] spec_clean_token(raws[w]).len() >= 3 ==> tokens_from(raws, seen).contains(spec_clean_token(raws[w])),
    decreases raws.len(),
{
    if raws.len() > 0 && seen.len() < 32 {
        let c = spec_clean_token(raws[0]);
        let next = if c.len() < 3 || seen.contains(c) { seen } else { seen.push(c) };
        let rest = raws.drop_first();
        lemma_tokens_from_law(rest, next);
        let r = tokens_from(raws, seen);
        assert(r == tokens_from(rest, next));
        assert forall|k: int| 0 <= k < seen.len() implies r.contains(#[trigger] seen[k]) by {
            assert(next.contains(seen[k])) by {
                if next != seen {
                    assert(next[k] == seen[k]);
                }
            }
            let m = choose|m: int| 0 <= m < next.len() && next[m] == seen[k];
            assert(r.contains(next[m]));
        }
        assert forall|k: int| 0 <= k < r.len() implies seen.contains(#[trigger] r[k])
            || exists|w: int| 0 <= w < raws.len() && r[k] == spec_clean_token(#[trigger] raws[w]) by {
            if next.contains(r[k]) {
                let m = choose|m: int| 0 <= m < next.len() && next[m] == r[k];
                if m < seen.len() {
                    assert(next[m] == seen[m]);
                } else {
                    assert(r[k] == spec_clean_token(raws[0]));
                }
            } else {
                let w = choose|w: int| 0 <= w < rest.len() && r[k] == spec_clean_token(#[trigger] rest[w]);
                assert(rest[w] == raws[w + 1]);
            }
        }
        if r.len() < 32 {
            assert forall|w: int| 0 <= w < raws.len() && #[trigger] spec_clean_token(raws[w]).len() >= 3
                implies r.contains(spec_clean_token(raws[w])) by {
                if w == 0 {
                    assert(next.contains(c)) by {
                        if !seen.contains(c) {
                            assert(next[next.len() - 1] == c);
                        }
                    }
                    let m = choose|m: int| 0 <= m < next.len() && next[m] == c;
                    assert(r.contains(next[m]));
                } else {
                    assert(rest[w - 1] == raws[w]);
                }
            }
        }
    } else {
        let r = tokens_from(raws, seen);
        assert forall|k: int| 0 <= k < seen.len() implies r.contains(#[trigger] seen[k]) by {
            assert(r[k] == seen[k]);
        }
        assert forall|k: int| 0 <= k < r.len() implies seen.contains(#[trigger] r[k])
            || exists|w: int| 0 <= w < raws.len() && r[k] == spec_clean_token(#[trigger] raws[w]) by {
            assert(seen[k] == r[k]);
        }
    }
}

/// The search tokens of a finding are at most 32 distinct tokens of at
/// least 3 chars, each made of lower-case ASCII letters, digits, `_` and `:`,
/// each the cleaned form of a word of the title and description; and when
/// fewer than 32 were taken, every word whose cleaned form has at least 3
/// chars gave one of them.
pub proof fn lemma_description_tokens_law(title: Seq<char>, description: Seq<char>)
    ensures
        ({
            let t = spec_description_tokens(title, description);
            let ws = split_pieces(title + seq![' '] + description, Sep::Whitespace);
            &&& tokens_well_formed(t)
            &&& forall|k: int, j: int| 0 <= k < t.len() && 0 <= j < t[k].len() ==> desc_token_char(#[trigger] t[k][j])
            &&& forall|k: int| 0 <= k < t.len() ==> exists|w: int| 0 <= w < ws.len() && #[trigger] t[k] == spec_clean_token(#[trigger] ws[w])
            &&& t.len() < 32 ==> forall|w: int| 0 <= w < ws.len() && #[trigger] spec_clean_token(ws[w]).len() >= 3
                ==> t.contains(spec_clean_token(ws[w]))
        }),
{
    let t = spec_description_tokens(title, description);
    let ws = split_pieces(title + seq![' '] + description, Sep::Whitespace);
    lemma_tokens_well_formed(ws, Seq::empty());
    lemma_tokens_from_law(ws, Seq::empty());
    assert forall|k: int, j: int| 0 <= k < t.len() && 0 <= j < t[k].len() implies desc_token_char(#[trigger] t[k][j]) by {
        assert(!Seq::<Seq<char>>::empty().contains(t[k]));
        let w = choose|w: int| 0 <= w < ws.len() && t[k] == spec_clean_token(#[trigger] ws[w]);
        lemma_clean_token_chars(ws[w]);
    }
    assert forall|k: int| 0 <= k < t.len() implies exists|w: int| 0 <= w < ws.len() && #[trigger] t[k] == spec_clean_token(#[trigger] ws[w]) by {
        assert(!Seq::<Seq<char>>::empty().contains(t[k]));
    }
}

/// The search tokens of a finding's title and description.
pub fn tokenize_description(summary: &FindingSummary) -> (r: Vec<String>)
    ensures
        views(r@) == spec_description_tokens(summary.title@, summary.description@),
        tokens_well_formed(views(r@)),
{
    let mut combined = chars_of(summary.title.as_str());
    combined.push(' ');
    append_chars(&mut combined, &chars_of(summary.description.as_str()));
    let raws = split_nonempty(&combined, Sep::Whitespace);
    let ghost rs = split_pieces(summary.title@ + seq![' '] + summary.description@, Sep::Whitespace);
    proof {
        assert(combined@ =~= summary.title@ + seq![' '] + summary.description@);
        assert(rs.skip(0) =~= rs);
    }
    let mut seen: Vec<String> = Vec::new();
    proof {
        assert(views(seen@) =~= Seq::<Seq<char>>::empty());
    }
    let mut i: usize = 0;
    while i < raws.len()
        invariant
            i <= raws@.len(),
            raws@.len() == rs.len(),
            forall|k: int| 0 <= k < raws@.len() ==> (#[trigger] raws@[k])@ == rs[k],
            tokens_from(rs.skip(i as int), views(seen@)) == spec_description_tokens(summary.title@, summary.description@),
        ensures
            views(seen@) == spec_description_tokens(summary.title@, summary.description@),
        decreases raws@.len() - i,
    {
        proof {
            assert(rs.skip(i as int)[0] == rs[i as int]);
            assert(rs.skip(i as int).drop_first() =~= rs.skip(i + 1));
        }
        if seen.len() >= MAX_TOKENS {
            proof {
                assert(views(seen@).len() >= 32);
            }
            break;
        }
        let raw = string_from_chars(&raws[i]);
        let cleaned = clean_token(raw.as_str());
        let n = chars_of(cleaned.as_str()).len();
        if n >= MIN_TOKEN_LEN && !strings_contain(&seen, cleaned.as_str()) {
            let ghost before = views(seen@);
            seen.push(cleaned);
            proof {
                assert(views(seen@) =~= before.push(spec_clean_token(rs[i as int])));
                assert(!before.contains(spec_clean_token(rs[i as int]))) by {
                    if before.contains(spec_clean_token(rs[i as int])) {
                        let k = choose|k: int| 0 <= k < before.len() && before[k] == spec_clean_token(rs[i as int]);
                        assert(seen@[k]@ == before[k]);
                    }
                }
            }
        } else {
            proof {
                if n >= MIN_TOKEN_LEN {
                    let k = choose|k: int| 0 <= k < seen@.len() && (#[trigger] seen@[k])@ == cleaned@;
                    assert(views(seen@)[k] == cleaned@);
                }
            }
        }
        i += 1;
        proof {
            if i == raws@.len() {
                assert(rs.skip(i as int).len() == 0);
            }
        }
    }
    proof {
        lemma_tokens_well_formed(rs, Seq::empty());
    }
    seen
}

// ---------------------------------------------------------------------------
// Search hits and their enrichment
// ---------------------------------------------------------------------------

/// One search hit, as the search returns it (its score aside).
pub struct SearchHit {
    pub qualified_name: String,
    pub name: String,
    pub label: String,
    pub file_path: String,
    pub community_id: Option<String>,
    pub process_names: Vec<String>,
}

/// A matched symbol with its 1-hop neighbourhood.
pub struct MatchedSymbol {
    pub qualified_name: String,
    pub name: String,
    pub label: String,
    pub file_path: String,
    pub community_id: Option<String>,
    pub community_size: Option<u64>,
    pub processes: Vec<String>,
    pub calls: Vec<String>,
    pub called_by: Vec<String>,
    pub uses: Vec<String>,
}

pub open spec fn opt_str(o: Option<String>) -> Option<Seq<char>> {
    match o {
        Some(s) => Some(s@),
        None => None,
    }
}

/// The first Community node with id `cid`.
pub open spec fn community_node(nodes: Seq<GraphNode>, cid: Seq<char>) -> Option<GraphNode>
    decreases nodes.len(),
{
    if nodes.len() == 0 {
        None
    } else if nodes[0].label@ == "Community"@ && nodes[0].id@ == cid {
        Some(nodes[0])
    } else {
        community_node(nodes.drop_first(), cid)
    }
}

/// The member count recorded on community `cid`, when it parses.
pub open spec fn spec_community_size(nodes: Seq<GraphNode>, cid: Seq<char>) -> Option<u64> {
    match community_node(nodes, cid) {
        Some(c) => spec_parse_u64(spec_prop_or_empty(c.props@, "member_count"@)),
        None => None,
    }
}

pub fn lookup_community_size(graph: &CodeGraph, community_id: &str) -> (r: Option<u64>)
    ensures
        r == spec_community_size(graph.nodes@, community_id@),
{
    let nodes = &graph.nodes;
    let mut i: usize = 0;
    assert(nodes@.skip(0) =~= nodes@);
    while i < nodes.len()
        invariant
            i <= nodes@.len(),
            nodes@ == graph.nodes@,
            community_node(nodes@, community_id@) == community_node(nodes@.skip(i as int), community_id@),
        decreases nodes@.len() - i,
    {
        proof {
            assert(nodes@.skip(i as int)[0] == nodes@[i as int]);
            assert(nodes@.skip(i as int).drop_first() =~= nodes@.skip(i + 1));
        }
        if str_eq(nodes[i].label.as_str(), "Community") && str_eq(nodes[i].id.as_str(), community_id) {
            return parse_u64(prop_or_empty(&nodes[i].props, "member_count").as_str());
        }
        i += 1;
    }
    None
}

/// The names of a list of related symbols.
pub open spec fn rel_names(rs: Seq<(Seq<char>, Seq<char>, Seq<char>)>) -> Seq<Seq<char>> {
    rs.map_values(|r: (Seq<char>, Seq<char>, Seq<char>)| r.1)
}

/// The names of the symbols `qn` calls, is called by and uses, when the
/// graph knows `qn`; none otherwise.
pub open spec fn spec_neighbours(graph: CodeGraph, qn: Seq<char>) -> (Seq<Seq<char>>, Seq<Seq<char>>, Seq<Seq<char>>) {
    if spec_details(graph.nodes@, qn) is Some {
        (
            rel_names(related_out(graph.nodes@, graph.edges@, qn, "Calls_"@)),
            rel_names(related_in(graph.nodes@, graph.edges@, qn, "Calls_"@)),
            rel_names(related_out(graph.nodes@, graph.edges@, qn, "Uses_"@)),
        )
    } else {
        (Seq::empty(), Seq::empty(), Seq::empty())
    }
}

fn names_of_related(rs: &Vec<crate::search::context::RelatedSymbol>) -> (r: Vec<String>)
    ensures
        views(r@) == rel_names(rs_views(rs@)),
{
    let mut out: Vec<String> = Vec::new();
    let mut i: usize = 0;
    while i < rs.len()
        invariant
            i <= rs@.len(),
            views(out@) == rel_names(rs_views(rs@)).take(i as int),
        decreases rs@.len() - i,
    {
        let ghost before = views(out@);
        out.push(to_owned_string(rs[i].name.as_str()));
        proof {
            assert(views(out@) =~= before.push(rs@[i as int].name@));
            assert(views(out@) =~= rel_names(rs_views(rs@)).take(i + 1));
        }
        i += 1;
    }
    proof {
        assert(rel_names(rs_views(rs@)).take(rs@.len() as int) =~= rel_names(rs_views(rs@)));
    }
    out
}

/// A hit is enriched from the graph as described above.
pub open spec fn is_enriched(graph: CodeGraph, hit: SearchHit, m: MatchedSymbol) -> bool {
    &&& m.qualified_name@ == hit.qualified_name@
    &&& m.name@ == hit.name@
    &&& m.label@ == hit.label@
    &&& m.file_path@ == hit.file_path@
    &&& opt_str(m.community_id) == opt_str(hit.community_id)
    &&& m.community_size == match hit.community_id {
        Some(cid) => spec_community_size(graph.nodes@, cid@),
        None => None,
    }
    &&& views(m.processes@) == views(hit.process_names@)
    &&& (views(m.calls@), views(m.called_by@), views(m.uses@)) == spec_neighbours(graph, hit.qualified_name@)
}

fn copy_strings(v: &Vec<String>) -> (r: Vec<String>)
    ensures
        views(r@) == views(v@),
{
    let mut out: Vec<String> = Vec::new();
    let mut i: usize = 0;
    while i < v.len()
        invariant
            i <= v@.len(),
            views(out@) == views(v@).take(i as int),
        decreases v@.len() - i,
    {
        let ghost before = views(out@);
        out.push(to_owned_string(v[i].as_str()));
        proof {
            assert(views(out@) =~= before.push(v@[i as int]@));
            assert(views(out@) =~= views(v@).take(i + 1));
        }
        i += 1;
    }
    proof {
        assert(views(v@).take(v@.len() as int) =~= views(v@));
    }
    out
}

fn copy_opt_string(o: &Option<String>) -> (r: Option<String>)
    ensures
        opt_str(r) == opt_str(*o),
{
    match o {
        Some(s) => Some(to_owned_string(s.as_str())),
        None => None,
    }
}

/// Enriches one hit with its community size and 1-hop neighbours.
pub fn enrich(graph: &CodeGraph, hit: &SearchHit) -> (r: MatchedSymbol)
    ensures
        is_enriched(*graph, *hit, r),
{
    let community_size = match &hit.community_id {
        Some(cid) => lookup_community_size(graph, cid.as_str()),
        None => None,
    };
    let (calls, called_by, uses) = match get_context(graph, hit.qualified_name.as_str()) {
        Ok(ctx) => (names_of_related(&ctx.calls), names_of_related(&ctx.called_by), names_of_related(&ctx.uses)),
        Err(_) => (Vec::new(), Vec::new(), Vec::new()),
    };
    proof {
        if spec_details(graph.nodes@, hit.qualified_name@) is None {
            assert(views(calls@) =~= Seq::<Seq<char>>::empty());
            assert(views(called_by@) =~= Seq::<Seq<char>>::empty());
            assert(views(uses@) =~= Seq::<Seq<char>>::empty());
        }
    }
    MatchedSymbol {
        qualified_name: to_owned_string(hit.qualified_name.as_str()),
        name: to_owned_string(hit.name.as_str()),
        label: to_owned_string(hit.label.as_str()),
        file_path: to_owned_string(hit.file_path.as_str()),
        community_id: copy_opt_string(&hit.community_id),
        community_size,
        processes: copy_strings(&hit.process_names),
        calls,
        called_by,
        uses,
    }
}

/// The hits of all tokens, in order, each qualified name kept once (its
/// first hit).
pub open spec fn first_hits(hits: Seq<SearchHit>) -> Seq<SearchHit>
    decreases hits.len(),
{
    if hits.len() == 0 {
        Seq::empty()
    } else {
        let p = first_hits(hits.drop_last());
        if exists|j: int| 0 <= j < p.len() && (#[trigger] p[j]).qualified_name@ == hits.last().qualified_name@ {
            p
        } else {
            p.push(hits.last())
        }
    }
}

/// The hits of each token's search laid end to end.
pub open spec fn all_hits(per_token: Seq<Vec<SearchHit>>) -> Seq<SearchHit>
    decreases per_token.len(),
{
    if per_token.len() == 0 {
        Seq::empty()
    } else {
        all_hits(per_token.drop_last()) + per_token.last()@
    }
}

/// Merges the hits of the per-token searches (up to `MATCHES_PER_TOKEN`
/// each, as the application ran them) and enriches each distinct symbol.
pub fn search_and_enrich(graph: &CodeGraph, per_token: &Vec<Vec<SearchHit>>) -> (r: Vec<MatchedSymbol>)
    ensures
        r@.len() == first_hits(all_hits(per_token@)).len(),
        forall|i: int| 0 <= i < r@.len() ==> is_enriched(*graph, first_hits(all_hits(per_token@))[i], #[trigger] r@[i]),
{
    let mut by_qn: Vec<MatchedSymbol> = Vec::new();
    let ghost mut seen_hits: Seq<SearchHit> = Seq::empty();
    let mut t: usize = 0;
    while t < per_token.len()
        invariant
            t <= per_token@.len(),
            seen_hits == all_hits(per_token@.take(t as int)),
            by_qn@.len() == first_hits(seen_hits).len(),
            forall|i: int| 0 <= i < by_qn@.len() ==> is_enriched(*graph, first_hits(seen_hits)[i], #[trigger] by_qn@[i]),
        decreases per_token@.len() - t,
    {
        let hits = &per_token[t];
        let ghost base = seen_hits;
        let mut h: usize = 0;
        while h < hits.len()
            invariant
                h <= hits@.len(),
                hits@ == per_token@[t as int]@,
                seen_hits == base + hits@.take(h as int),
                by_qn@.len() == first_hits(seen_hits).len(),
                forall|i: int| 0 <= i < by_qn@.len() ==> is_enriched(*graph, first_hits(seen_hits)[i], #[trigger] by_qn@[i]),
            decreases hits@.len() - h,
        {
            let hit = &hits[h];
            let ghost prev = first_hits(seen_hits);
            let mut present = false;
            let mut k: usize = 0;
            while k < by_qn.len()
                invariant
                    k <= by_qn@.len(),
                    by_qn@.len() == prev.len(),
                    forall|i: int| 0 <= i < by_qn@.len() ==> is_enriched(*graph, prev[i], #[trigger] by_qn@[i]),
                    present == exists|j: int| 0 <= j < k && (#[trigger] prev[j]).qualified_name@ == hit.qualified_name@,
                decreases by_qn@.len() - k,
            {
                if str_eq(by_qn[k].qualified_name.as_str(), hit.qualified_name.as_str()) {
                    proof {
                        assert(is_enriched(*graph, prev[k as int], by_qn@[k as int]));
                    }
                    present = true;
                }
                k += 1;
            }
            proof {
                seen_hits = seen_hits.push(*hit);
                assert(seen_hits.drop_last() =~= base + hits@.take(h as int));
                assert(base + hits@.take(h + 1) =~= seen_hits);
            }
            if !present {
                by_qn.push(enrich(graph, hit));
                proof {
                    assert(first_hits(seen_hits) == prev.push(*hit));
                }
            } else {
                proof {
                    assert(first_hits(seen_hits) == prev);
                }
            }
            h += 1;
        }
        proof {
            assert(hits@.take(hits@.len() as int) =~= hits@);
            assert(per_token@.take(t + 1).drop_last() =~= per_token@.take(t as int));
            assert(per_token@.take(t + 1).last() == per_token@[t as int]);
        }
        t += 1;
    }
    proof {
        assert(per_token@.take(per_token@.len() as int) =~= per_token@);
    }
    by_qn
}

/// The non-empty keys, each once, in order.
pub open spec fn distinct_keys(keys: Seq<Option<Seq<char>>>) -> Seq<Seq<char>>
    decreases keys.len(),
{
    if keys.len() == 0 {
        Seq::empty()
    } else {
        let p = distinct_keys(keys.drop_last());
        match keys.last() {
            Some(k) => if k.len() > 0 && !p.contains(k) { p.push(k) } else { p },
            None => p,
        }
    }
}

pub open spec fn community_keys(matched: Seq<MatchedSymbol>) -> Seq<Option<Seq<char>>> {
    matched.map_values(|m: MatchedSymbol| opt_str(m.community_id))
}

/// The impacted communities: the matched symbols' community ids, each once.
pub fn dedup_keys(matched: &Vec<MatchedSymbol>) -> (r: Vec<String>)
    ensures
        views(r@) == distinct_keys(community_keys(matched@)),
{
    let mut out: Vec<String> = Vec::new();
    let mut i: usize = 0;
    while i < matched.len()
        invariant
            i <= matched@.len(),
            views(out@) == distinct_keys(community_keys(matched@).take(i as int)),
        decreases matched@.len() - i,
    {
        proof {
            assert(community_keys(matched@).take(i + 1).drop_last() =~= community_keys(matched@).take(i as int));
            assert(community_keys(matched@).take(i + 1).last() == opt_str(matched@[i as int].community_id));
        }
        match &matched[i].community_id {
            Some(k) => {
                let ghost before = views(out@);
                if !crate::text::str_is_empty(k.as_str()) && !strings_contain(&out, k.as_str()) {
                    out.push(to_owned_string(k.as_str()));
                    proof {
                        assert(views(out@) =~= before.push(k@));
                        assert(!before.contains(k@)) by {
                            if before.contains(k@) {
                                let j = choose|j: int| 0 <= j < before.len() && before[j] == k@;
                                assert(out@[j]@ == k@);
                            }
                        }
                    }
                } else {
                    proof {
                        if k@.len() > 0 {
                            let j = choose|j: int| 0 <= j < out@.len() && (#[trigger] out@[j])@ == k@;
                            assert(before[j] == k@);
                        }
                    }
                }
            },
            None => {},
        }
        i += 1;
    }
    proof {
        assert(community_keys(matched@).take(matched@.len() as int) =~= community_keys(matched@));
    }
    out
}

/// The processes of all matched symbols laid end to end.
pub open spec fn all_processes(matched: Seq<MatchedSymbol>) -> Seq<Seq<char>>
    decreases matched.len(),
{
    if matched.len() == 0 {
        Seq::empty()
    } else {
        all_processes(matched.drop_last()) + views(matched.last().processes@)
    }
}

/// `s` with each element kept once, at its first place.
pub open spec fn distinct(s: Seq<Seq<char>>) -> Seq<Seq<char>>
    decreases s.len(),
{
    if s.len() == 0 {
        Seq::empty()
    } else {
        let p = distinct(s.drop_last());
        if p.contains(s.last()) { p } else { p.push(s.last()) }
    }
}

/// The impacted processes: every matched symbol's processes, each once.
pub fn impacted_processes_from_symbols(matched: &Vec<MatchedSymbol>) -> (r: Vec<String>)
    ensures
        views(r@) == distinct(all_processes(matched@)),
{
    let mut out: Vec<String> = Vec::new();
    let ghost mut acc: Seq<Seq<char>> = Seq::empty();
    let mut i: usize = 0;
    while i < matched.len()
        invariant
            i <= matched@.len(),
            acc == all_processes(matched@.take(i as int)),
            views(out@) == distinct(acc),
        decreases matched@.len() - i,
    {
        let procs = &matched[i].processes;
        let ghost base = acc;
        let mut k: usize = 0;
        while k < procs.len()
            invariant
                k <= procs@.len(),
                procs@ == matched@[i as int].processes@,
                acc == base + views(procs@).take(k as int),
                views(out@) == distinct(acc),
            decreases procs@.len() - k,
        {
            let ghost before = views(out@);
            let p = &procs[k];
            if !strings_contain(&out, p.as_str()) {
                out.push(to_owned_string(p.as_str()));
                proof {
                    assert(views(out@) =~= before.push(p@));
                    assert(!before.contains(p@)) by {
                        if before.contains(p@) {
                            let j = choose|j: int| 0 <= j < before.len() && before[j] == p@;
                            assert(out@[j]@ == p@);
                        }
                    }
                }
            } else {
                proof {
                    let j = choose|j: int| 0 <= j < out@.len() && (#[trigger] out@[j])@ == p@;
                    assert(before[j] == p@);
                }
            }
            proof {
                acc = acc.push(p@);
                assert(acc.drop_last() =~= base + views(procs@).take(k as int));
                assert(acc =~= base + views(procs@).take(k + 1));
            }
            k += 1;
        }
        proof {
            assert(views(procs@).take(procs@.len() as int) =~= views(procs@));
            assert(matched@.take(i + 1).drop_last() =~= matched@.take(i as int));
            assert(matched@.take(i + 1).last() == matched@[i as int]);
        }
        i += 1;
    }
    proof {
        assert(matched@.take(matched@.len() as int) =~= matched@);
    }
    out
}

// ---------------------------------------------------------------------------
// Graph statistics
// ---------------------------------------------------------------------------

/// Sanity counts for the PRD generator.
pub struct GraphStats {
    pub nodes: u64,
    pub edges: u64,
    pub communities: u64,
    pub processes: u64,
}

/// How many nodes carry `label`.
pub open spec fn label_count(nodes: Seq<GraphNode>, label: Seq<char>) -> nat
    decreases nodes.len(),
{
    if nodes.len() == 0 {
        0
    } else {
        label_count(nodes.drop_last(), label) + if nodes.last().label@ == label { 1nat } else { 0nat }
    }
}

pub fn count_label(graph: &CodeGraph, label: &str) -> (r: u64)
    ensures
        r == label_count(graph.nodes@, label@),
{
    let nodes = &graph.nodes;
    let mut count: u64 = 0;
    let mut i: usize = 0;
    while i < nodes.len()
        invariant
            i <= nodes@.len(),
            nodes@ == graph.nodes@,
            count == label_count(nodes@.take(i as int), label@),
            count <= i,
        decreases nodes@.len() - i,
    {
        proof {
            assert(nodes@.take(i + 1).drop_last() =~= nodes@.take(i as int));
            assert(nodes@.take(i + 1).last() == nodes@[i as int]);
        }
        if str_eq(nodes[i].label.as_str(), label) {
            count += 1;
        }
        i += 1;
    }
    proof {
        assert(nodes@.take(nodes@.len() as int) =~= nodes@);
    }
    count
}

pub fn collect_graph_stats(graph: &CodeGraph) -> (r: GraphStats)
    ensures
        r.nodes == graph.nodes@.len(),
        r.edges == graph.edges@.len(),
        r.communities == label_count(graph.nodes@, "Community"@),
        r.processes == label_count(graph.nodes@, "Process"@),
{
    GraphStats {
        nodes: graph.nodes.len() as u64,
        edges: graph.edges.len() as u64,
        communities: count_label(graph, "Community"),
        processes: count_label(graph, "Process"),
    }
}

// ---------------------------------------------------------------------------
// The verification gate and the artifact's text fields
// ---------------------------------------------------------------------------

/// The fields of the verification receipt, as read from its JSON (absent
/// fields, or fields of another type, are `None`).
pub struct VerifiedFields {
    pub verified: Option<bool>,
    pub finalized_at: Option<String>,
    pub stage1_refined_path: Option<String>,
}

/// The verification receipt a preparation requires.
pub struct VerifiedReceipt {
    pub finalized_at: String,
    pub stage1_refined_path: String,
    pub verified: bool,
}

/// Accepts a receipt only when its `verified` flag is true; the other
/// fields default to empty.
pub fn check_verified(fields: &VerifiedFields) -> (r: Result<VerifiedReceipt, String>)
    ensures
        fields.verified == Some(true) <==> r is Ok,
        r matches Ok(v) ==> v.verified && v.finalized_at@ == (match fields.finalized_at { Some(s) => s@, None => Seq::empty() })
            && v.stage1_refined_path@ == (match fields.stage1_refined_path { Some(s) => s@, None => Seq::empty() }),
        r matches Err(e) ==> e@ == "stage_2_not_verified: verified flag is false"@,
{
    let verified = match fields.verified {
        Some(b) => b,
        None => false,
    };
    if !verified {
        return Err(to_owned_string("stage_2_not_verified: verified flag is false"));
    }
    Ok(VerifiedReceipt {
        finalized_at: match &fields.finalized_at {
            Some(s) => to_owned_string(s.as_str()),
            None => String::new(),
        },
        stage1_refined_path: match &fields.stage1_refined_path {
            Some(s) => to_owned_string(s.as_str()),
            None => String::new(),
        },
        verified,
    })
}

/// The finding's one-line summary: the title, followed by ` — ` and the
/// description when there is one.
pub open spec fn spec_summary_text(title: Seq<char>, description: Seq<char>) -> Seq<char> {
    if description.len() == 0 {
        title
    } else {
        title + " — "@ + description
    }
}

pub fn summary_text(summary: &FindingSummary) -> (r: String)
    ensures
        r@ == spec_summary_text(summary.title@, summary.description@),
{
    if crate::text::str_is_empty(summary.description.as_str()) {
        to_owned_string(summary.title.as_str())
    } else {
        let mut v = chars_of(summary.title.as_str());
        append_chars(&mut v, &chars_of(" — "));
        append_chars(&mut v, &chars_of(summary.description.as_str()));
        string_from_chars(&v)
    }
}

/// `findings/{finding_id}/{file}`: a finding's file relative to its run.
pub open spec fn spec_finding_rel(finding_id: Seq<char>, file: Seq<char>) -> Seq<char> {
    "findings/"@ + finding_id + "/"@ + file
}

pub fn finding_rel_path(finding_id: &str, file: &str) -> (r: String)
    ensures
        r@ == spec_finding_rel(finding_id@, file@),
{
    let mut v = chars_of("findings/");
    append_chars(&mut v, &chars_of(finding_id));
    append_chars(&mut v, &chars_of("/"));
    append_chars(&mut v, &chars_of(file));
    string_from_chars(&v)
}

// ---------------------------------------------------------------------------
// The preparation as a whole
// ---------------------------------------------------------------------------

/// `rel` under `dir`, joined by one `/` as a path join does (no separator
/// after an empty directory or one that already ends in `/`).
pub open spec fn spec_join(dir: Seq<char>, rel: Seq<char>) -> Seq<char> {
    if dir.len() == 0 || dir.last() == '/' {
        dir + rel
    } else {
        dir + "/"@ + rel
    }
}

/// `{output_dir}/runs/{run_id}/findings/{finding_id}/stage-4.prd_input.json`.
pub open spec fn spec_artifact_path(output_dir: Seq<char>, run_id: Seq<char>, finding_id: Seq<char>) -> Seq<char> {
    spec_join(output_dir, "runs/"@ + run_id + "/"@ + spec_finding_rel(finding_id, PRD_INPUT_FILE_NAME@))
}

pub fn artifact_path(args: &PrdInputArgs) -> (r: String)
    ensures
        r@ == spec_artifact_path(args.output_dir@, args.run_id@, args.finding_id@),
{
    let dir = chars_of(args.output_dir.as_str());
    let mut v = chars_of(args.output_dir.as_str());
    if dir.len() > 0 && dir[dir.len() - 1] != '/' {
        append_chars(&mut v, &chars_of("/"));
    }
    append_chars(&mut v, &chars_of("runs/"));
    append_chars(&mut v, &chars_of(args.run_id.as_str()));
    append_chars(&mut v, &chars_of("/"));
    let rel = finding_rel_path(args.finding_id.as_str(), PRD_INPUT_FILE_NAME);
    append_chars(&mut v, &chars_of(rel.as_str()));
    proof {
        let tail = "runs/"@ + args.run_id@ + "/"@ + spec_finding_rel(args.finding_id@, PRD_INPUT_FILE_NAME@);
        if dir@.len() == 0 || dir@.last() == '/' {
            assert(v@ =~= args.output_dir@ + tail);
        } else {
            assert(v@ =~= args.output_dir@ + "/"@ + tail);
        }
    }
    string_from_chars(&v)
}

/// The community ids of a list of hits.
pub open spec fn hit_community_keys(hits: Seq<SearchHit>) -> Seq<Option<Seq<char>>> {
    hits.map_values(|h: SearchHit| opt_str(h.community_id))
}

/// The process names of a list of hits laid end to end.
pub open spec fn hit_processes(hits: Seq<SearchHit>) -> Seq<Seq<char>>
    decreases hits.len(),
{
    if hits.len() == 0 {
        Seq::empty()
    } else {
        hit_processes(hits.drop_last()) + views(hits.last().process_names@)
    }
}

proof fn lemma_enriched_processes(graph: CodeGraph, hits: Seq<SearchHit>, matched: Seq<MatchedSymbol>)
    requires
        matched.len() == hits.len(),
        forall|i: int| 0 <= i < matched.len() ==> is_enriched(graph, hits[i], #[trigger] matched[i]),
    ensures
        all_processes(matched) == hit_processes(hits),
        community_keys(matched) == hit_community_keys(hits),
    decreases hits.len(),
{
    if hits.len() > 0 {
        lemma_enriched_processes(graph, hits.drop_last(), matched.drop_last());
        assert(is_enriched(graph, hits[hits.len() - 1], matched[matched.len() - 1]));
    }
    assert(community_keys(matched) =~= hit_community_keys(hits)) by {
        assert forall|i: int| 0 <= i < matched.len() implies community_keys(matched)[i] == hit_community_keys(hits)[i] by {
            assert(is_enriched(graph, hits[i], matched[i]));
        }
    }
}

/// Runs the preparation on what the application has read: the
/// verification receipt's fields, the code graph, and the hits of the
/// search for each token of the finding's description (as
/// `tokenize_description` gives them). Refuses a finding that is not
/// verified; otherwise reports where the artifact goes and how many
/// symbols, communities and processes it names.
pub fn prepare(args: &PrdInputArgs, fields: &VerifiedFields, graph: &CodeGraph, per_token: &Vec<Vec<SearchHit>>)
    -> (r: Result<PrdInputOutcome, String>)
    ensures
        r is Ok <==> fields.verified == Some(true),
        r matches Err(e) ==> e@ == "stage_2_not_verified: verified flag is false"@,
        r matches Ok(o) ==> {
            let hits = first_hits(all_hits(per_token@));
            &&& o.artifact_path@ == spec_artifact_path(args.output_dir@, args.run_id@, args.finding_id@)
            &&& o.matched_symbol_count == hits.len()
            &&& o.impacted_community_count == distinct_keys(hit_community_keys(hits)).len()
            &&& o.impacted_process_count == distinct(hit_processes(hits)).len()
        },
{
    match check_verified(fields) {
        Err(e) => Err(e),
        Ok(_receipt) => {
            let matched = search_and_enrich(graph, per_token);
            let communities = dedup_keys(&matched);
            let processes = impacted_processes_from_symbols(&matched);
            proof {
                lemma_enriched_processes(*graph, first_hits(all_hits(per_token@)), matched@);
            }
            Ok(PrdInputOutcome {
                artifact_path: artifact_path(args),
                matched_symbol_count: matched.len(),
                impacted_community_count: communities.len(),
                impacted_process_count: processes.len(),
            })
        },
    }
}

} // verus!
