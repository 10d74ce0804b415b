//! Validates a PRD's claimed changes against the resolved and clustered
//! code graph, on three axes: claimed symbols that do not exist, claimed
//! changes that span too many communities, and claimed process exclusions
//! that the graph contradicts. Deterministic for a given PRD and graph.

use vstd::prelude::*;
use crate::graph::{CodeGraph, GraphNode, GraphEdge};
use crate::text::{chars_of, str_eq, string_from_chars, to_owned_string, split_nonempty, split_pieces, Sep,
    is_ascii_alnum, is_ascii_alpha, exec_is_ascii_alnum, exec_is_ascii_alpha, seq_ends_with, ends_with, str_is_empty};
use crate::parser::append_chars;
use crate::parser::naming::{views, strings_contain, decimal, push_decimal};
use crate::semantic_diff::{node_by_id, find_node};
use crate::search::context::table_name;
use crate::sorting::{sort_strings, lex_leq};
use crate::prd_input::distinct;

verus! {

/// The structured affected-symbols contract's file name.
pub const AFFECTED_SYMBOLS_FILE: &'static str = "stage-5.affected_symbols.json";
/// The validation artifact's file name.
pub const VALIDATION_FILE: &'static str = "stage-6.validation.json";
/// Symbols spanning this many communities raise a warning.
pub const COMMUNITY_SPAN_WARNING_THRESHOLD: u64 = 2;
/// Symbols spanning this many communities are critical.
pub const COMMUNITY_SPAN_CRITICAL_THRESHOLD: u64 = 3;
/// Fallback tokens shorter than this are dropped.
pub const FALLBACK_MIN_TOKEN_LEN: usize = 3;
/// The fallback extraction keeps at most this many tokens.
pub const FALLBACK_MAX_TOKENS: usize = 64;

/// A symbol the PRD claims to change.
pub struct SymbolClaim {
    pub token: String,
    pub change_kind: String,
    pub rationale: String,
}

/// A scope claim of the structured contract.
pub enum ScopeClaim {
    CommunityScope { assertion: String },
    ProcessExclusion { processes: Vec<String> },
}

// ---------------------------------------------------------------------------
// Fallback extraction: backticked identifiers and file paths
// ---------------------------------------------------------------------------

/// A char an identifier or qualified name may hold.
pub open spec fn is_ident_char(c: char) -> bool {
    is_ascii_alnum(c) || c == '_' || c == ':'
}

/// Non-empty, made of identifier chars, with at least one letter or `_`.
pub open spec fn spec_is_identifier_or_qn(s: Seq<char>) -> bool {
    &&& s.len() > 0
    &&& forall|i: int| 0 <= i < s.len() ==> is_ident_char(#[trigger] s[i])
    &&& exists|i: int| 0 <= i < s.len() && (is_ascii_alpha(#[trigger] s[i]) || s[i] == '_')
}

pub fn is_identifier_or_qn(s: &str) -> (r: bool)
    ensures
        r == spec_is_identifier_or_qn(s@),
{
    let cs = chars_of(s);
    if cs.len() == 0 {
        return false;
    }
    let mut all = true;
    let mut any = false;
    let mut i: usize = 0;
    while i < cs.len()
        invariant
            i <= cs@.len(),
            cs@ == s@,
            all == forall|k: int| 0 <= k < i ==> is_ident_char(#[trigger] cs@[k]),
            any == exists|k: int| 0 <= k < i && (is_ascii_alpha(#[trigger] cs@[k]) || cs@[k] == '_'),
        decreases cs@.len() - i,
    {
        let c = cs[i];
        if !(exec_is_ascii_alnum(c) || c == '_' || c == ':') {
            all = false;
        }
        if exec_is_ascii_alpha(c) || c == '_' {
            any = true;
        }
        i += 1;
    }
    all && any
}

/// The backticked spans of `t` scanned from position `i`: at each backtick,
/// the text up to the next backtick on the same line is a span (kept when it
/// is an identifier or qualified name), and scanning resumes after the
/// closing backtick; an unclosed backtick is skipped.
pub open spec fn backticked_from(t: Seq<char>, i: int) -> Seq<Seq<char>>
    decreases t.len() - i,
{
    if i < 0 || i >= t.len() {
        Seq::empty()
    } else if t[i] == '`' && close_of(t, i + 1) < t.len() && t[close_of(t, i + 1)] == '`' {
        let j = close_of(t, i + 1);
        proof {
            lemma_close_of_bounds(t, i + 1);
        }
        let span = t.subrange(i + 1, j);
        let rest = backticked_from(t, j + 1);
        if spec_is_identifier_or_qn(span) { seq![span] + rest } else { rest }
    } else {
        backticked_from(t, i + 1)
    }
}

/// The first position at or after `j` holding a backtick or a line feed
/// (`t.len()` when there is none).
pub open spec fn close_of(t: Seq<char>, j: int) -> int
    decreases t.len() - j,
{
    if j < 0 || j >= t.len() {
        if j < 0 { 0 } else { t.len() as int }
    } else if t[j] == '`' || t[j] == '\n' {
        j
    } else {
        close_of(t, j + 1)
    }
}

pub proof fn lemma_close_of_bounds(t: Seq<char>, j: int)
    requires
        0 <= j,
    ensures
        j <= close_of(t, j) <= t.len() || (j > t.len() && close_of(t, j) == t.len()),
        close_of(t, j) >= j || j > t.len(),
        forall|k: int| j <= k < close_of(t, j) ==> t[k] != '`' && t[k] != '\n',
    decreases t.len() - j,
{
    if j < t.len() && !(t[j] == '`' || t[j] == '\n') {
        lemma_close_of_bounds(t, j + 1);
    }
}

/// The backticked identifiers and qualified names of `text`, in order.
pub fn extract_backticked(text: &str) -> (r: Vec<String>)
    ensures
        views(r@) == backticked_from(text@, 0),
{
    let t = chars_of(text);
    let mut out: Vec<String> = Vec::new();
    let ghost mut done: Seq<Seq<char>> = Seq::empty();
    let mut i: usize = 0;
    while i < t.len()
        invariant
            i <= t@.len(),
            t@ == text@,
            views(out@) == done,
            done + backticked_from(t@, i as int) == backticked_from(t@, 0),
        decreases t@.len() - i,
    {
        if t[i] == '`' {
            let start = i + 1;
            let mut j = start;
            proof {
                lemma_close_of_bounds(t@, start as int);
            }
            while j < t.len() && t[j] != '`' && t[j] != '\n'
                invariant
                    start <= j <= t@.len(),
                    close_of(t@, start as int) == close_of(t@, j as int),
                decreases t@.len() - j,
            {
                j += 1;
            }
            if j < t.len() && t[j] == '`' {
                let span: Vec<char> = crate::text::slice_to_vec(&t, start, j);
                let s = string_from_chars(&span);
                proof {
                    assert(close_of(t@, start as int) == j);
                }
                if is_identifier_or_qn(s.as_str()) {
                    out.push(s);
                    proof {
                        done = done.push(span@);
                        assert(seq![span@] + backticked_from(t@, j + 1) =~= seq![span@] + backticked_from(t@, j + 1));
                        assert((done.drop_last() + (seq![span@] + backticked_from(t@, j + 1)))
                            =~= done + backticked_from(t@, j + 1));
                    }
                }
                i = j + 1;
                continue;
            }
            proof {
                assert(close_of(t@, start as int) == j);
            }
        }
        i += 1;
    }
    proof {
        assert(done + backticked_from(t@, i as int) == done);
    }
    out
}

/// The file extensions a path may end with.
pub open spec fn has_source_ext(s: Seq<char>) -> bool {
    seq_ends_with(s, ".rs"@) || seq_ends_with(s, ".ts"@) || seq_ends_with(s, ".tsx"@)
        || seq_ends_with(s, ".py"@) || seq_ends_with(s, ".go"@) || seq_ends_with(s, ".js"@)
}

/// A char a file path may hold.
pub open spec fn is_path_char(c: char) -> bool {
    is_ascii_alnum(c) || c == '_' || c == '/' || c == '-' || c == '.'
}

/// Holds a `/`, ends with a source extension, and holds only path chars.
pub open spec fn spec_looks_like_file_path(s: Seq<char>) -> bool {
    &&& s.contains('/')
    &&& has_source_ext(s)
    &&& forall|i: int| 0 <= i < s.len() ==> is_path_char(#[trigger] s[i])
}

pub fn looks_like_file_path(s: &str) -> (r: bool)
    ensures
        r == spec_looks_like_file_path(s@),
{
    let cs = chars_of(s);
    let mut slash = false;
    let mut all = true;
    let mut i: usize = 0;
    while i < cs.len()
        invariant
            i <= cs@.len(),
            cs@ == s@,
            slash == exists|k: int| 0 <= k < i && cs@[k] == '/',
            all == forall|k: int| 0 <= k < i ==> is_path_char(#[trigger] cs@[k]),
        decreases cs@.len() - i,
    {
        let c = cs[i];
        if c == '/' {
            slash = true;
        }
        if !(exec_is_ascii_alnum(c) || c == '_' || c == '/' || c == '-' || c == '.') {
            all = false;
        }
        i += 1;
    }
    let ext = ends_with(&cs, &chars_of(".rs")) || ends_with(&cs, &chars_of(".ts")) || ends_with(&cs, &chars_of(".tsx"))
        || ends_with(&cs, &chars_of(".py")) || ends_with(&cs, &chars_of(".go")) || ends_with(&cs, &chars_of(".js"));
    slash && ext && all
}

/// What looks like a file path: text that holds a `/`, ends with one of
/// `.rs`, `.ts`, `.tsx`, `.py`, `.go` and `.js`, and is made only of ASCII
/// letters and digits and the chars `_`, `/`, `-` and `.`.
pub proof fn lemma_file_path_law(s: Seq<char>)
    ensures
        spec_looks_like_file_path(s) <==> {
            &&& exists|k: int| 0 <= k < s.len() && s[k] == '/'
            &&& (seq_ends_with(s, ".rs"@) || seq_ends_with(s, ".ts"@)
                || seq_ends_with(s, ".tsx"@) || seq_ends_with(s, ".py"@)
                || seq_ends_with(s, ".go"@) || seq_ends_with(s, ".js"@))
            &&& forall|i: int| 0 <= i < s.len() ==> {
                let c = #[trigger] s[i];
                ('a' <= c && c <= 'z') || ('A' <= c && c <= 'Z') || ('0' <= c && c <= '9')
                    || c == '_' || c == '/' || c == '-' || c == '.'
            }
        },
{
}

/// Each word that looks like a file path is extracted, its trailing
/// punctuation trimmed; nothing else is.
pub proof fn lemma_path_words_members(ws: Seq<Seq<char>>, w: Seq<char>)
    ensures
        ws.contains(w) && spec_looks_like_file_path(w) ==> path_words(ws).contains(trim_end_punct(w)),
        path_words(ws).contains(w) ==> exists|i: int| 0 <= i < ws.len()
            && spec_looks_like_file_path(#[trigger] ws[i]) && trim_end_punct(ws[i]) == w,
    decreases ws.len(),
{
    broadcast use vstd::seq_lib::group_seq_properties;

    if ws.len() > 0 {
        let d = ws.drop_last();
        lemma_path_words_members(d, w);
        if ws.contains(w) && spec_looks_like_file_path(w) {
            let i = choose|i: int| 0 <= i < ws.len() && ws[i] == w;
            if i < ws.len() - 1 {
                assert(d[i] == w);
            }
        }
        if path_words(ws).contains(w) && path_words(d).contains(w) {
            let i = choose|i: int| 0 <= i < d.len() && spec_looks_like_file_path(#[trigger] d[i])
                && trim_end_punct(d[i]) == w;
            assert(ws[i] == d[i]);
        }
        if path_words(ws).contains(w) && !path_words(d).contains(w) {
            assert(ws[ws.len() - 1] == ws.last());
        }
    }
}

/// `s` without its trailing `.`, `,`, `;` and `:` chars.
pub open spec fn trim_end_punct(s: Seq<char>) -> Seq<char>
    decreases s.len(),
{
    if s.len() > 0 && (s.last() == '.' || s.last() == ',' || s.last() == ';' || s.last() == ':') {
        trim_end_punct(s.drop_last())
    } else {
        s
    }
}

/// Trimming keeps a prefix that does not end with `.`, `,`, `;` or `:`,
/// and drops only such chars after it.
pub proof fn lemma_trim_end_punct_law(s: Seq<char>)
    ensures
        ({
            let r = trim_end_punct(s);
            &&& r.len() <= s.len()
            &&& s.take(r.len() as int) == r
            &&& (r.len() > 0 ==> !(r.last() == '.' || r.last() == ',' || r.last() == ';' || r.last() == ':'))
            &&& forall|i: int| r.len() <= i < s.len()
                ==> (#[trigger] s[i] == '.' || s[i] == ',' || s[i] == ';' || s[i] == ':')
        }),
    decreases s.len(),
{
    if s.len() > 0 && (s.last() == '.' || s.last() == ',' || s.last() == ';' || s.last() == ':') {
        let d = s.drop_last();
        lemma_trim_end_punct_law(d);
        let r = trim_end_punct(s);
        assert(r == trim_end_punct(d));
        assert(s.take(r.len() as int) =~= d.take(r.len() as int));
        assert forall|i: int| r.len() <= i < s.len()
            implies (#[trigger] s[i] == '.' || s[i] == ',' || s[i] == ';' || s[i] == ':') by {
            if i < s.len() - 1 {
                assert(s[i] == d[i]);
            }
        }
    } else {
        assert(s.take(s.len() as int) =~= s);
    }
}

fn trim_end_punct_exec(s: &[char]) -> (r: Vec<char>)
    ensures
        r@ == trim_end_punct(s@),
{
    let mut n = s.len();
    assert(s@.take(s@.len() as int) =~= s@);
    while n > 0 && (s[n - 1] == '.' || s[n - 1] == ',' || s[n - 1] == ';' || s[n - 1] == ':')
        invariant
            n <= s@.len(),
            trim_end_punct(s@) == trim_end_punct(s@.take(n as int)),
        decreases n,
    {
        proof {
            assert(s@.take(n as int).drop_last() =~= s@.take(n - 1));
            assert(s@.take(n as int).last() == s@[n - 1]);
        }
        n -= 1;
    }
    let r = crate::text::slice_to_vec(s, 0, n);
    proof {
        assert(r@ =~= s@.take(n as int));
        assert(s@.take(s@.len() as int) =~= s@);
    }
    r
}

/// The file-path-looking words of `text` (words split at ASCII white
/// space, backticks, parentheses and commas), trailing punctuation trimmed.
pub open spec fn spec_file_paths(text: Seq<char>) -> Seq<Seq<char>> {
    path_words(split_pieces(text, Sep::PathDelims))
}

pub open spec fn path_words(ws: Seq<Seq<char>>) -> Seq<Seq<char>>
    decreases ws.len(),
{
    if ws.len() == 0 {
        Seq::empty()
    } else {
        let p = path_words(ws.drop_last());
        if spec_looks_like_file_path(ws.last()) { p.push(trim_end_punct(ws.last())) } else { p }
    }
}

pub fn extract_file_paths(text: &str) -> (r: Vec<String>)
    ensures
        views(r@) == spec_file_paths(text@),
{
    let cs = chars_of(text);
    let words = split_nonempty(&cs, Sep::PathDelims);
    let ghost ws = split_pieces(text@, Sep::PathDelims);
    let mut out: Vec<String> = Vec::new();
    let mut i: usize = 0;
    while i < words.len()
        invariant
            i <= words@.len(),
            words@.len() == ws.len(),
            forall|k: int| 0 <= k < words@.len() ==> (#[trigger] words@[k])@ == ws[k],
            views(out@) == path_words(ws.take(i as int)),
        decreases words@.len() - i,
    {
        proof {
            assert(ws.take(i + 1).drop_last() =~= ws.take(i as int));
            assert(ws.take(i + 1).last() == ws[i as int]);
        }
        let w = string_from_chars(&words[i]);
        if looks_like_file_path(w.as_str()) {
            let ghost before = views(out@);
            out.push(string_from_chars(&trim_end_punct_exec(&words[i])));
            proof {
                assert(views(out@) =~= before.push(trim_end_punct(ws[i as int])));
            }
        }
        i += 1;
    }
    proof {
        assert(ws.take(ws.len() as int) =~= ws);
    }
    out
}

/// The claims taken from the candidate tokens `cands`, `seen` being those
/// taken so far: tokens shorter than the minimum and repeats are skipped.
pub open spec fn claims_from(cands: Seq<Seq<char>>, seen: Seq<Seq<char>>) -> Seq<Seq<char>>
    decreases cands.len(),
{
    if cands.len() == 0 {
        seen
    } else {
        let t = cands[0];
        claims_from(cands.drop_first(), if t.len() < 3 || seen.contains(t) { seen } else { seen.push(t) })
    }
}

/// The claim tokens of a PRD's text: its backticked tokens, then its file
/// paths, each kept once when long enough, stopping as soon as the cap is
/// reached.
pub open spec fn spec_fallback_tokens(text: Seq<char>) -> Seq<Seq<char>> {
    capped_claims(backticked_from(text, 0) + spec_file_paths(text), Seq::empty())
}

/// `claims_from`, stopping once `FALLBACK_MAX_TOKENS` are held.
pub open spec fn capped_claims(cands: Seq<Seq<char>>, seen: Seq<Seq<char>>) -> Seq<Seq<char>>
    decreases cands.len(),
{
    if cands.len() == 0 || seen.len() >= 64 {
        seen
    } else {
        let t = cands[0];
        capped_claims(cands.drop_first(), if t.len() < 3 || seen.contains(t) { seen } else { seen.push(t) })
    }
}

/// Adds `token` as a fallback claim unless it is too short or already taken.
pub fn push_token(out: &mut Vec<SymbolClaim>, seen: &mut Vec<String>, token: String)
    requires
        claim_tokens(old(out)@) == views(old(seen)@),
    ensures
        claim_tokens(final(out)@) == views(final(seen)@),
        views(final(seen)@) == if token@.len() < 3 || views(old(seen)@).contains(token@) {
            views(old(seen)@)
        } else {
            views(old(seen)@).push(token@)
        },
        forall|i: int| 0 <= i < final(out)@.len() ==> (#[trigger] final(out)@[i]).change_kind@ == (if i < old(out)@.len() {
            old(out)@[i].change_kind@ } else { "unknown"@ }),
{
    let n = chars_of(token.as_str()).len();
    if n < FALLBACK_MIN_TOKEN_LEN {
        return;
    }
    let ghost before = views(seen@);
    if strings_contain(seen, token.as_str()) {
        proof {
            let k = choose|k: int| 0 <= k < seen@.len() && (#[trigger] seen@[k])@ == token@;
            assert(before[k] == token@);
        }
        return;
    }
    proof {
        assert(!before.contains(token@)) by {
            if before.contains(token@) {
                let k = choose|k: int| 0 <= k < before.len() && before[k] == token@;
                assert(seen@[k]@ == token@);
            }
        }
    }
    seen.push(to_owned_string(token.as_str()));
    let ghost out0 = claim_tokens(out@);
    out.push(SymbolClaim {
        token,
        change_kind: to_owned_string("unknown"),
        rationale: to_owned_string("regex_fallback"),
    });
    proof {
        assert(views(seen@) =~= before.push(token@));
        assert(claim_tokens(out@) =~= out0.push(token@));
    }
}

pub open spec fn claim_tokens(cs: Seq<SymbolClaim>) -> Seq<Seq<char>> {
    cs.map_values(|c: SymbolClaim| c.token@)
}

/// The fallback extraction: backticked identifiers and file paths of the
/// PRD's text become claims of an unknown change kind.
pub fn regex_extract_symbols(text: &str) -> (r: Vec<SymbolClaim>)
    ensures
        claim_tokens(r@) == spec_fallback_tokens(text@),
        forall|i: int| 0 <= i < r@.len() ==> (#[trigger] r@[i]).change_kind@ == "unknown"@,
{
    let ticks = extract_backticked(text);
    let paths = extract_file_paths(text);
    let ghost cands = backticked_from(text@, 0) + spec_file_paths(text@);
    let mut all: Vec<String> = ticks;
    let mut k: usize = 0;
    let ghost t0 = views(all@);
    while k < paths.len()
        invariant
            k <= paths@.len(),
            views(all@) == t0 + views(paths@).take(k as int),
        decreases paths@.len() - k,
    {
        let ghost before = views(all@);
        all.push(to_owned_string(paths[k].as_str()));
        proof {
            assert(views(all@) =~= before.push(paths@[k as int]@));
            assert(views(paths@).take(k + 1) =~= views(paths@).take(k as int).push(paths@[k as int]@));
        }
        k += 1;
    }
    proof {
        assert(views(paths@).take(paths@.len() as int) =~= views(paths@));
        assert(views(all@) == cands);
        assert(cands.skip(0) =~= cands);
    }
    let mut out: Vec<SymbolClaim> = Vec::new();
    let mut seen: Vec<String> = Vec::new();
    proof {
        assert(claim_tokens(out@) =~= views(seen@));
        assert(views(seen@) =~= Seq::<Seq<char>>::empty());
    }
    let mut i: usize = 0;
    while i < all.len()
        invariant
            i <= all@.len(),
            views(all@) == cands,
            claim_tokens(out@) == views(seen@),
            capped_claims(cands.skip(i as int), views(seen@)) == spec_fallback_tokens(text@),
            forall|j: int| 0 <= j < out@.len() ==> (#[trigger] out@[j]).change_kind@ == "unknown"@,
        ensures
            claim_tokens(out@) == spec_fallback_tokens(text@),
            forall|j: int| 0 <= j < out@.len() ==> (#[trigger] out@[j]).change_kind@ == "unknown"@,
        decreases all@.len() - i,
    {
        proof {
            assert(cands.skip(i as int)[0] == cands[i as int]);
            assert(cands.skip(i as int).drop_first() =~= cands.skip(i + 1));
        }
        if out.len() >= FALLBACK_MAX_TOKENS {
            proof {
                assert(views(seen@).len() == out@.len());
            }
            break;
        }
        let tok = to_owned_string(all[i].as_str());
        push_token(&mut out, &mut seen, tok);
        i += 1;
        proof {
            if i == all@.len() {
                assert(cands.skip(i as int).len() == 0);
            }
        }
    }
    out
}

// ---------------------------------------------------------------------------
// Claim resolution
// ---------------------------------------------------------------------------

/// A claim and what the graph made of it.
pub struct ResolvedClaim {
    pub token: String,
    pub change_kind: String,
    pub resolved_qn: Option<String>,
    pub did_you_mean: Vec<String>,
}

pub open spec fn opt_view(o: Option<String>) -> Option<Seq<char>> {
    match o {
        Some(s) => Some(s@),
        None => None,
    }
}

/// The qualified name of the symbol a token names exactly (by qualified
/// name or id), when the graph has one.
pub open spec fn spec_resolve_exact(nodes: Seq<GraphNode>, token: Seq<char>) -> Option<Seq<char>>
    decreases nodes.len(),
{
    if nodes.len() == 0 {
        None
    } else if crate::semantic_diff::spec_is_diffable(nodes[0].label@)
        && (nodes[0].qualified_name@ == token || nodes[0].id@ == token) {
        Some(nodes[0].qualified_name@)
    } else {
        spec_resolve_exact(nodes.drop_first(), token)
    }
}

/// Resolves each claim by exact lookup.
/// `res` is what resolving `claims` against `graph` gives: claim by claim,
/// the token and change kind, the exact match, and no suggestion.
pub open spec fn is_resolution_of(res: Seq<ResolvedClaim>, graph: CodeGraph, claims: Seq<SymbolClaim>) -> bool {
    &&& res.len() == claims.len()
    &&& forall|i: int| 0 <= i < res.len() ==> {
        &&& (#[trigger] res[i]).token@ == claims[i].token@
        &&& res[i].change_kind@ == claims[i].change_kind@
        &&& opt_view(res[i].resolved_qn) == spec_resolve_exact(graph.nodes@, claims[i].token@)
        &&& res[i].did_you_mean@.len() == 0
    }
}

pub fn resolve_claims(graph: &CodeGraph, claims: &Vec<SymbolClaim>) -> (r: Vec<ResolvedClaim>)
    ensures
        is_resolution_of(r@, *graph, claims@),
{
    let mut out: Vec<ResolvedClaim> = Vec::new();
    let mut i: usize = 0;
    while i < claims.len()
        invariant
            i <= claims@.len(),
            out@.len() == i,
            forall|k: int| 0 <= k < i ==> {
                &&& (#[trigger] out@[k]).token@ == claims@[k].token@
                &&& out@[k].change_kind@ == claims@[k].change_kind@
                &&& opt_view(out@[k].resolved_qn) == spec_resolve_exact(graph.nodes@, claims@[k].token@)
                &&& out@[k].did_you_mean@.len() == 0
            },
        decreases claims@.len() - i,
    {
        let qn = resolve_exact(graph, claims[i].token.as_str());
        out.push(ResolvedClaim {
            token: to_owned_string(claims[i].token.as_str()),
            change_kind: to_owned_string(claims[i].change_kind.as_str()),
            resolved_qn: qn,
            did_you_mean: Vec::new(),
        });
        i += 1;
    }
    out
}

pub fn resolve_exact(graph: &CodeGraph, token: &str) -> (r: Option<String>)
    ensures
        opt_view(r) == spec_resolve_exact(graph.nodes@, token@),
{
    let nodes = &graph.nodes;
    let mut i: usize = 0;
    assert(nodes@.skip(0) =~= nodes@);
    while i < nodes.len()
        invariant
            i <= nodes@.len(),
            nodes@ == graph.nodes@,
            spec_resolve_exact(nodes@, token@) == spec_resolve_exact(nodes@.skip(i as int), token@),
        decreases nodes@.len() - i,
    {
        proof {
            assert(nodes@.skip(i as int)[0] == nodes@[i as int]);
            assert(nodes@.skip(i as int).drop_first() =~= nodes@.skip(i + 1));
        }
        let n = &nodes[i];
        if crate::semantic_diff::is_diffable_label(n.label.as_str())
            && (str_eq(n.qualified_name.as_str(), token) || str_eq(n.id.as_str(), token)) {
            return Some(to_owned_string(n.qualified_name.as_str()));
        }
        i += 1;
    }
    None
}

// ---------------------------------------------------------------------------
// Communities and processes of resolved symbols
// ---------------------------------------------------------------------------

/// Edge `e` of table `rel` leaves the `label` node with qualified name `qn`
/// for a node labelled `target_label`.
pub open spec fn links_by_qn(nodes: Seq<GraphNode>, e: GraphEdge, rel: Seq<char>, label: Seq<char>, qn: Seq<char>, target_label: Seq<char>) -> bool {
    &&& e.rel@ == rel
    &&& node_by_id(nodes, e.from_id@) matches Some(a) && a.label@ == label && a.qualified_name@ == qn
    &&& node_by_id(nodes, e.to_id@) matches Some(t) && t.label@ == target_label
}

pub open spec fn first_link_by_qn(nodes: Seq<GraphNode>, edges: Seq<GraphEdge>, rel: Seq<char>, label: Seq<char>, qn: Seq<char>, target_label: Seq<char>) -> Option<GraphNode>
    decreases edges.len(),
{
    if edges.len() == 0 {
        None
    } else if links_by_qn(nodes, edges[0], rel, label, qn, target_label) {
        node_by_id(nodes, edges[0].to_id@)
    } else {
        first_link_by_qn(nodes, edges.drop_first(), rel, label, qn, target_label)
    }
}

fn links_by_qn_exec(nodes: &Vec<GraphNode>, e: &GraphEdge, rel: &[char], label: &str, qn: &str, target_label: &str) -> (r: Option<usize>)
    ensures
        match r {
            Some(t) => t < nodes@.len() && links_by_qn(nodes@, *e, rel@, label@, qn@, target_label@)
                && node_by_id(nodes@, e.to_id@) == Some(nodes@[t as int]),
            None => !links_by_qn(nodes@, *e, rel@, label@, qn@, target_label@),
        },
{
    let er = chars_of(e.rel.as_str());
    if !crate::text::chars_eq(&er, rel) {
        return None;
    }
    match (find_node(nodes, e.from_id.as_str()), find_node(nodes, e.to_id.as_str())) {
        (Some(a), Some(t)) => {
            if str_eq(nodes[a].label.as_str(), label) && str_eq(nodes[a].qualified_name.as_str(), qn)
                && str_eq(nodes[t].label.as_str(), target_label) {
                Some(t)
            } else {
                None
            }
        },
        _ => None,
    }
}

/// The labels tried, in order, for a symbol's community.
pub open spec fn community_labels() -> Seq<Seq<char>> {
    seq!["Function"@, "Method"@, "Struct"@, "Enum"@, "Trait"@, "Constant"@, "TypeAlias"@, "Module"@]
}

/// The id of the community of the symbol with qualified name `qn`: through
/// the first `MemberOf_{label}_Community` edge of the first label that has
/// one with a non-empty community id.
pub open spec fn community_of_in(nodes: Seq<GraphNode>, edges: Seq<GraphEdge>, labels: Seq<Seq<char>>, qn: Seq<char>) -> Option<Seq<char>>
    decreases labels.len(),
{
    if labels.len() == 0 {
        None
    } else {
        match first_link_by_qn(nodes, edges, table_name("MemberOf_"@, labels[0], "_Community"@), labels[0], qn, "Community"@) {
            Some(c) => if c.id@.len() > 0 { Some(c.id@) } else { community_of_in(nodes, edges, labels.drop_first(), qn) },
            None => community_of_in(nodes, edges, labels.drop_first(), qn),
        }
    }
}

fn table(prefix: &str, label: &str, suffix: &str) -> (r: Vec<char>)
    ensures
        r@ == table_name(prefix@, label@, suffix@),
{
    let mut v = chars_of(prefix);
    append_chars(&mut v, &chars_of(label));
    append_chars(&mut v, &chars_of(suffix));
    v
}

fn first_link_by_qn_exec(graph: &CodeGraph, rel: &[char], label: &str, qn: &str, target_label: &str) -> (r: Option<usize>)
    ensures
        match r {
            Some(t) => t < graph.nodes@.len() && first_link_by_qn(graph.nodes@, graph.edges@, rel@, label@, qn@, target_label@) == Some(graph.nodes@[t as int]),
            None => first_link_by_qn(graph.nodes@, graph.edges@, rel@, label@, qn@, target_label@) is None,
        },
{
    let edges = &graph.edges;
    let mut i: usize = 0;
    assert(edges@.skip(0) =~= edges@);
    while i < edges.len()
        invariant
            i <= edges@.len(),
            edges@ == graph.edges@,
            first_link_by_qn(graph.nodes@, edges@, rel@, label@, qn@, target_label@)
                == first_link_by_qn(graph.nodes@, edges@.skip(i as int), rel@, label@, qn@, target_label@),
        decreases edges@.len() - i,
    {
        proof {
            assert(edges@.skip(i as int)[0] == edges@[i as int]);
            assert(edges@.skip(i as int).drop_first() =~= edges@.skip(i + 1));
        }
        match links_by_qn_exec(&graph.nodes, &edges[i], rel, label, qn, target_label) {
            Some(t) => {
                return Some(t);
            },
            None => {},
        }
        i += 1;
    }
    None
}

/// The community id of the symbol with qualified name `qn`.
pub fn community_of(graph: &CodeGraph, qn: &str) -> (r: Option<String>)
    ensures
        opt_view(r) == community_of_in(graph.nodes@, graph.edges@, community_labels(), qn@),
{
    let labels: Vec<&str> = vec!["Function", "Method", "Struct", "Enum", "Trait", "Constant", "TypeAlias", "Module"];
    let ghost ls = community_labels();
    proof {
        assert(labels@.len() == 8);
        assert(ls.skip(0) =~= ls);
    }
    let mut j: usize = 0;
    while j < labels.len()
        invariant
            j <= labels@.len(),
            labels@.len() == 8,
            forall|k: int| 0 <= k < 8 ==> (#[trigger] labels@[k])@ == ls[k],
            ls == community_labels(),
            community_of_in(graph.nodes@, graph.edges@, ls, qn@) == community_of_in(graph.nodes@, graph.edges@, ls.skip(j as int), qn@),
        decreases labels@.len() - j,
    {
        proof {
            assert(ls.skip(j as int)[0] == ls[j as int]);
            assert(ls.skip(j as int).drop_first() =~= ls.skip(j + 1));
        }
        let rel = table("MemberOf_", labels[j], "_Community");
        match first_link_by_qn_exec(graph, &rel, labels[j], qn, "Community") {
            Some(t) => {
                if !str_is_empty(graph.nodes[t].id.as_str()) {
                    return Some(to_owned_string(graph.nodes[t].id.as_str()));
                }
            },
            None => {},
        }
        j += 1;
    }
    proof {
        assert(ls.skip(8).len() == 0);
    }
    None
}

/// The names of the processes every `rel` edge from the `label` node with
/// qualified name `qn` reaches, in edge order.
pub open spec fn process_names_by_qn(nodes: Seq<GraphNode>, edges: Seq<GraphEdge>, rel: Seq<char>, label: Seq<char>, qn: Seq<char>) -> Seq<Seq<char>>
    decreases edges.len(),
{
    if edges.len() == 0 {
        Seq::empty()
    } else {
        let p = process_names_by_qn(nodes, edges.drop_last(), rel, label, qn);
        if links_by_qn(nodes, edges.last(), rel, label, qn, "Process"@) {
            p.push(node_by_id(nodes, edges.last().to_id@).unwrap().name@)
        } else {
            p
        }
    }
}

/// `acc` extended by each non-empty name not yet in it.
pub open spec fn add_new_names(acc: Seq<Seq<char>>, names: Seq<Seq<char>>) -> Seq<Seq<char>>
    decreases names.len(),
{
    if names.len() == 0 {
        acc
    } else {
        let p = add_new_names(acc, names.drop_last());
        if names.last().len() > 0 && !p.contains(names.last()) { p.push(names.last()) } else { p }
    }
}

/// The processes the symbol with qualified name `qn` takes part in, as a
/// Function then as a Method, each once.
pub open spec fn spec_processes_of(nodes: Seq<GraphNode>, edges: Seq<GraphEdge>, qn: Seq<char>) -> Seq<Seq<char>> {
    add_new_names(
        add_new_names(Seq::empty(), process_names_by_qn(nodes, edges, table_name("ParticipatesIn_"@, "Function"@, "_Process"@), "Function"@, qn)),
        process_names_by_qn(nodes, edges, table_name("ParticipatesIn_"@, "Method"@, "_Process"@), "Method"@, qn),
    )
}

fn add_process_names(graph: &CodeGraph, out: &mut Vec<String>, label: &str, qn: &str)
    ensures
        views(final(out)@) == add_new_names(views(old(out)@),
            process_names_by_qn(graph.nodes@, graph.edges@, table_name("ParticipatesIn_"@, label@, "_Process"@), label@, qn@)),
{
    let rel = table("ParticipatesIn_", label, "_Process");
    let edges = &graph.edges;
    let ghost acc0 = views(out@);
    let mut i: usize = 0;
    while i < edges.len()
        invariant
            i <= edges@.len(),
            edges@ == graph.edges@,
            rel@ == table_name("ParticipatesIn_"@, label@, "_Process"@),
            views(out@) == add_new_names(acc0, process_names_by_qn(graph.nodes@, edges@.take(i as int), rel@, label@, qn@)),
        decreases edges@.len() - i,
    {
        proof {
            assert(edges@.take(i + 1).drop_last() =~= edges@.take(i as int));
            assert(edges@.take(i + 1).last() == edges@[i as int]);
        }
        let ghost pn = process_names_by_qn(graph.nodes@, edges@.take(i as int), rel@, label@, qn@);
        match links_by_qn_exec(&graph.nodes, &edges[i], &rel, label, qn, "Process") {
            Some(t) => {
                let name = graph.nodes[t].name.as_str();
                proof {
                    assert(process_names_by_qn(graph.nodes@, edges@.take(i + 1), rel@, label@, qn@) == pn.push(name@));
                    assert(pn.push(name@).drop_last() =~= pn);
                }
                let ghost before = views(out@);
                if !str_is_empty(name) && !strings_contain(out, name) {
                    out.push(to_owned_string(name));
                    proof {
                        assert(views(out@) =~= before.push(name@));
                        assert(!before.contains(name@)) by {
                            if before.contains(name@) {
                                let k = choose|k: int| 0 <= k < before.len() && before[k] == name@;
                                assert(out@[k]@ == name@);
                            }
                        }
                    }
                } else {
                    proof {
                        if name@.len() > 0 {
                            let k = choose|k: int| 0 <= k < out@.len() && (#[trigger] out@[k])@ == name@;
                            assert(before[k] == name@);
                        }
                    }
                }
            },
            None => {},
        }
        i += 1;
    }
    proof {
        assert(edges@.take(edges@.len() as int) =~= edges@);
    }
}

/// The processes the symbol with qualified name `qn` takes part in.
pub fn processes_of(graph: &CodeGraph, qn: &str) -> (r: Vec<String>)
    ensures
        views(r@) == spec_processes_of(graph.nodes@, graph.edges@, qn@),
{
    let mut out: Vec<String> = Vec::new();
    proof {
        assert(views(out@) =~= Seq::<Seq<char>>::empty());
    }
    add_process_names(graph, &mut out, "Function", qn);
    add_process_names(graph, &mut out, "Method", qn);
    out
}

/// The present values, in order.
pub open spec fn somes(items: Seq<Option<String>>) -> Seq<Seq<char>>
    decreases items.len(),
{
    if items.len() == 0 {
        Seq::empty()
    } else {
        match items.last() {
            Some(s) => somes(items.drop_last()).push(s@),
            None => somes(items.drop_last()),
        }
    }
}

/// The present values, each once, in order of first appearance.
pub fn distinct_values(items: &Vec<Option<String>>) -> (r: Vec<String>)
    ensures
        views(r@) == distinct(somes(items@)),
{
    let mut out: Vec<String> = Vec::new();
    let mut i: usize = 0;
    while i < items.len()
        invariant
            i <= items@.len(),
            views(out@) == distinct(somes(items@.take(i as int))),
        decreases items@.len() - i,
    {
        proof {
            assert(items@.take(i + 1).drop_last() =~= items@.take(i as int));
            assert(items@.take(i + 1).last() == items@[i as int]);
        }
        match &items[i] {
            Some(s) => {
                let ghost before = views(out@);
                proof {
                    let x = somes(items@.take(i as int));
                    assert(somes(items@.take(i + 1)) == x.push(s@));
                    assert(x.push(s@).drop_last() =~= x);
                }
                if !strings_contain(&out, s.as_str()) {
                    out.push(to_owned_string(s.as_str()));
                    proof {
                        assert(views(out@) =~= before.push(s@));
                        assert(!before.contains(s@)) by {
                            if before.contains(s@) {
                                let k = choose|k: int| 0 <= k < before.len() && before[k] == s@;
                                assert(out@[k]@ == s@);
                            }
                        }
                    }
                } else {
                    proof {
                        let k = choose|k: int| 0 <= k < out@.len() && (#[trigger] out@[k])@ == s@;
                        assert(before[k] == s@);
                    }
                }
            },
            None => {},
        }
        i += 1;
    }
    proof {
        assert(items@.take(items@.len() as int) =~= items@);
    }
    out
}

/// How many distinct values the present items hold.
pub fn distinct_count(items: &Vec<Option<String>>) -> (r: usize)
    ensures
        r == distinct(somes(items@)).len(),
{
    let v = distinct_values(items);
    proof {
        assert(views(v@).len() == v@.len());
    }
    v.len()
}

// ---------------------------------------------------------------------------
// Findings
// ---------------------------------------------------------------------------

/// What a finding reports besides its message.
pub enum FindingDetails {
    Hallucination { change_kind: String, did_you_mean: Vec<String> },
    Unresolved { did_you_mean: Vec<String> },
    CommunitySpan { distinct_communities: u64, communities: Vec<String>, has_scope_assertion: bool },
    ProcessImpact { process: String, excluded_processes: Vec<String> },
}

/// One finding of one validation axis.
pub struct ValidationFinding {
    pub axis: String,
    pub severity: String,
    pub message: String,
    pub symbol: Option<String>,
    pub details: FindingDetails,
}

/// The counts a validation reports.
pub struct ValidationSummary {
    pub claimed_symbols: u64,
    pub resolved_symbols: u64,
    pub hallucinated_symbols: u64,
    pub communities_spanned: u64,
    pub processes_impacted: u64,
}

/// A whole validation.
pub struct ValidationReport {
    pub validation_status: String,
    pub findings: Vec<ValidationFinding>,
    pub summary: ValidationSummary,
    pub extraction_mode: String,
    pub contract_missing: bool,
    pub affected_symbol_count: usize,
    pub scope_claim_count: usize,
}

/// `f` has this axis, severity, message and symbol.
pub open spec fn finding_is(f: ValidationFinding, axis: Seq<char>, severity: Seq<char>, message: Seq<char>, symbol: Option<Seq<char>>) -> bool {
    f.axis@ == axis && f.severity@ == severity && f.message@ == message && opt_view(f.symbol) == symbol
}

/// The change kinds whose target must already exist.
pub open spec fn is_modifying_kind(k: Seq<char>) -> bool {
    k == "modify"@ || k == "remove"@ || k == "rename"@
}

/// The unresolved claims, in order.
pub open spec fn unresolved(rs: Seq<ResolvedClaim>) -> Seq<ResolvedClaim>
    decreases rs.len(),
{
    if rs.len() == 0 {
        Seq::empty()
    } else {
        let p = unresolved(rs.drop_last());
        if rs.last().resolved_qn is None { p.push(rs.last()) } else { p }
    }
}

/// The unresolved claims of a modifying kind: hallucinated symbols.
pub open spec fn hallucinated(rs: Seq<ResolvedClaim>) -> Seq<ResolvedClaim>
    decreases rs.len(),
{
    if rs.len() == 0 {
        Seq::empty()
    } else {
        let p = hallucinated(rs.drop_last());
        if rs.last().resolved_qn is None && is_modifying_kind(rs.last().change_kind@) { p.push(rs.last()) } else { p }
    }
}

pub open spec fn hallucination_message(token: Seq<char>, kind: Seq<char>) -> Seq<char> {
    "claimed symbol '"@ + token + "' (change_kind="@ + kind + ") not found in graph"@
}

pub open spec fn unresolved_message(token: Seq<char>) -> Seq<char> {
    "unresolved token '"@ + token + "' (regex fallback — likely prose)"@
}

/// `f` reports the hallucinated claim `c`.
pub open spec fn is_hallucination_finding(f: ValidationFinding, c: ResolvedClaim) -> bool {
    &&& finding_is(f, "symbol_hallucination"@, "critical"@, hallucination_message(c.token@, c.change_kind@), Some(c.token@))
    &&& f.details matches FindingDetails::Hallucination { change_kind, did_you_mean }
        && change_kind@ == c.change_kind@ && views(did_you_mean@) == views(c.did_you_mean@)
}

/// `f` reports the unresolved fallback token of `c`.
pub open spec fn is_unresolved_finding(f: ValidationFinding, c: ResolvedClaim) -> bool {
    &&& finding_is(f, "symbol_hallucination"@, "info"@, unresolved_message(c.token@), Some(c.token@))
    &&& f.details matches FindingDetails::Unresolved { did_you_mean } && views(did_you_mean@) == views(c.did_you_mean@)
}

fn concat_chars(parts: &Vec<&str>) -> (r: String)
    ensures
        r@ == concat_views(parts@),
{
    let mut v: Vec<char> = Vec::new();
    let mut i: usize = 0;
    while i < parts.len()
        invariant
            i <= parts@.len(),
            v@ == concat_views(parts@.take(i as int)),
        decreases parts@.len() - i,
    {
        append_chars(&mut v, &chars_of(parts[i]));
        proof {
            assert(parts@.take(i + 1).drop_last() =~= parts@.take(i as int));
        }
        i += 1;
    }
    proof {
        assert(parts@.take(parts@.len() as int) =~= parts@);
    }
    string_from_chars(&v)
}

pub open spec fn concat_views(parts: Seq<&str>) -> Seq<char>
    decreases parts.len(),
{
    if parts.len() == 0 { Seq::empty() } else { concat_views(parts.drop_last()) + parts.last()@ }
}

fn copy_strings(v: &Vec<String>) -> (r: Vec<String>)
    ensures
        views(r@) == views(v@),
{
    let mut out: Vec<String> = Vec::new();
    let mut i: usize = 0;
    while i < v.len()
        invariant
            i <= v@.len(),
            views(out@) == views(v@).take(i as int),
        decreases v@.len() - i,
    {
        let ghost before = views(out@);
        out.push(to_owned_string(v[i].as_str()));
        proof {
            assert(views(out@) =~= before.push(v@[i as int]@));
            assert(views(out@) =~= views(v@).take(i + 1));
        }
        i += 1;
    }
    proof {
        assert(views(v@).take(v@.len() as int) =~= views(v@));
    }
    out
}

/// Axis 1: every unresolved claim of a modifying kind is a critical
/// hallucination.
pub fn emit_symbol_hallucination(resolved: &Vec<ResolvedClaim>, findings: &mut Vec<ValidationFinding>)
    ensures
        final(findings)@.len() == old(findings)@.len() + hallucinated(resolved@).len(),
        forall|i: int| 0 <= i < old(findings)@.len() ==> #[trigger] final(findings)@[i] == old(findings)@[i],
        forall|k: int| 0 <= k < hallucinated(resolved@).len() ==>
            is_hallucination_finding(#[trigger] final(findings)@[old(findings)@.len() + k], hallucinated(resolved@)[k]),
{
    let ghost n0 = findings@.len();
    let mut i: usize = 0;
    while i < resolved.len()
        invariant
            i <= resolved@.len(),
            findings@.len() == n0 + hallucinated(resolved@.take(i as int)).len(),
            n0 == old(findings)@.len(),
            forall|j: int| 0 <= j < n0 ==> #[trigger] findings@[j] == old(findings)@[j],
            forall|k: int| 0 <= k < hallucinated(resolved@.take(i as int)).len() ==>
                is_hallucination_finding(#[trigger] findings@[n0 + k], hallucinated(resolved@.take(i as int))[k]),
        decreases resolved@.len() - i,
    {
        proof {
            assert(resolved@.take(i + 1).drop_last() =~= resolved@.take(i as int));
            assert(resolved@.take(i + 1).last() == resolved@[i as int]);
        }
        let r = &resolved[i];
        if r.resolved_qn.is_none() {
            let kind = r.change_kind.as_str();
            if str_eq(kind, "modify") || str_eq(kind, "remove") || str_eq(kind, "rename") {
                let parts: Vec<&str> = vec!["claimed symbol '", r.token.as_str(), "' (change_kind=", kind, ") not found in graph"];
                let message = concat_chars(&parts);
                proof {
                    assert(concat_views(parts@) =~= hallucination_message(r.token@, r.change_kind@)) by {
                        reveal_with_fuel(concat_views, 6);
                    }
                }
                findings.push(ValidationFinding {
                    axis: to_owned_string("symbol_hallucination"),
                    severity: to_owned_string("critical"),
                    message,
                    symbol: Some(to_owned_string(r.token.as_str())),
                    details: FindingDetails::Hallucination {
                        change_kind: to_owned_string(kind),
                        did_you_mean: copy_strings(&r.did_you_mean),
                    },
                });
            }
        }
        i += 1;
    }
    proof {
        assert(resolved@.take(resolved@.len() as int) =~= resolved@);
    }
}

/// In the fallback extraction, every unresolved token is reported as
/// information (it is likely prose).
pub fn emit_unresolved_info(resolved: &Vec<ResolvedClaim>, is_regex_fallback: bool, findings: &mut Vec<ValidationFinding>)
    ensures
        !is_regex_fallback ==> final(findings)@ == old(findings)@,
        is_regex_fallback ==> {
            &&& final(findings)@.len() == old(findings)@.len() + unresolved(resolved@).len()
            &&& forall|i: int| 0 <= i < old(findings)@.len() ==> #[trigger] final(findings)@[i] == old(findings)@[i]
            &&& forall|k: int| 0 <= k < unresolved(resolved@).len() ==>
                is_unresolved_finding(#[trigger] final(findings)@[old(findings)@.len() + k], unresolved(resolved@)[k])
        },
{
    if !is_regex_fallback {
        return;
    }
    let ghost n0 = findings@.len();
    let mut i: usize = 0;
    while i < resolved.len()
        invariant
            i <= resolved@.len(),
            findings@.len() == n0 + unresolved(resolved@.take(i as int)).len(),
            n0 == old(findings)@.len(),
            forall|j: int| 0 <= j < n0 ==> #[trigger] findings@[j] == old(findings)@[j],
            forall|k: int| 0 <= k < unresolved(resolved@.take(i as int)).len() ==>
                is_unresolved_finding(#[trigger] findings@[n0 + k], unresolved(resolved@.take(i as int))[k]),
        decreases resolved@.len() - i,
    {
        proof {
            assert(resolved@.take(i + 1).drop_last() =~= resolved@.take(i as int));
            assert(resolved@.take(i + 1).last() == resolved@[i as int]);
        }
        let r = &resolved[i];
        if r.resolved_qn.is_none() {
            let parts: Vec<&str> = vec!["unresolved token '", r.token.as_str(), "' (regex fallback — likely prose)"];
            let message = concat_chars(&parts);
            proof {
                assert(concat_views(parts@) =~= unresolved_message(r.token@)) by {
                    reveal_with_fuel(concat_views, 4);
                }
            }
            findings.push(ValidationFinding {
                axis: to_owned_string("symbol_hallucination"),
                severity: to_owned_string("info"),
                message,
                symbol: Some(to_owned_string(r.token.as_str())),
                details: FindingDetails::Unresolved { did_you_mean: copy_strings(&r.did_you_mean) },
            });
        }
        i += 1;
    }
    proof {
        assert(resolved@.take(resolved@.len() as int) =~= resolved@);
    }
}

/// Some scope claim asserts a community scope.
pub open spec fn has_community_scope(scopes: Seq<ScopeClaim>) -> bool {
    exists|i: int| 0 <= i < scopes.len() && (#[trigger] scopes[i]) is CommunityScope
}

/// The severity of a community span, or none when it is not reported.
pub open spec fn community_severity(distinct: nat, has_scope: bool) -> Option<Seq<char>> {
    if !has_scope && distinct < 2 {
        None
    } else if distinct >= 3 {
        Some("critical"@)
    } else if distinct >= 2 {
        Some("warning"@)
    } else {
        None
    }
}

pub open spec fn community_message(distinct: nat) -> Seq<char> {
    "affected symbols span "@ + decimal(distinct) + " distinct Leiden communities (threshold: warning at 2, critical at 3)"@
}

/// Axis 2: symbols spanning two communities raise a warning, three or more
/// a critical finding.
pub fn emit_community_consistency(scope_claims: &Vec<ScopeClaim>, communities: &Vec<Option<String>>, findings: &mut Vec<ValidationFinding>)
    ensures
        ({
            let d = distinct(somes(communities@)).len();
            match community_severity(d, has_community_scope(scope_claims@)) {
                None => final(findings)@ == old(findings)@,
                Some(sev) => {
                    &&& final(findings)@.len() == old(findings)@.len() + 1
                    &&& forall|i: int| 0 <= i < old(findings)@.len() ==> #[trigger] final(findings)@[i] == old(findings)@[i]
                    &&& finding_is(final(findings)@.last(), "community_consistency"@, sev, community_message(d), None)
                    &&& final(findings)@.last().details matches FindingDetails::CommunitySpan { distinct_communities, communities: cs, has_scope_assertion }
                        && distinct_communities == d
                        && views(cs@) == distinct(somes(communities@)).sort_by(lex_leq())
                        && has_scope_assertion == has_community_scope(scope_claims@)
                },
            }
        }),
{
    let unique = distinct_values(communities);
    let distinct_n = unique.len() as u64;
    proof {
        assert(views(unique@).len() == unique@.len());
    }
    let mut has_scope = false;
    let mut i: usize = 0;
    while i < scope_claims.len()
        invariant
            i <= scope_claims@.len(),
            has_scope == exists|k: int| 0 <= k < i && (#[trigger] scope_claims@[k]) is CommunityScope,
        decreases scope_claims@.len() - i,
    {
        match &scope_claims[i] {
            ScopeClaim::CommunityScope { .. } => {
                has_scope = true;
            },
            _ => {},
        }
        i += 1;
    }
    if !has_scope && distinct_n < COMMUNITY_SPAN_WARNING_THRESHOLD {
        return;
    }
    let severity = if distinct_n >= COMMUNITY_SPAN_CRITICAL_THRESHOLD {
        "critical"
    } else if distinct_n >= COMMUNITY_SPAN_WARNING_THRESHOLD {
        "warning"
    } else {
        return;
    };
    let sorted = sort_strings(unique);
    let mut msg = chars_of("affected symbols span ");
    push_decimal(&mut msg, distinct_n);
    append_chars(&mut msg, &chars_of(" distinct Leiden communities (threshold: warning at 2, critical at 3)"));
    findings.push(ValidationFinding {
        axis: to_owned_string("community_consistency"),
        severity: to_owned_string(severity),
        message: string_from_chars(&msg),
        symbol: None,
        details: FindingDetails::CommunitySpan {
            distinct_communities: distinct_n,
            communities: sorted,
            has_scope_assertion: has_scope,
        },
    });
}

/// The processes of `actual` that `excluded` names, in order.
pub open spec fn hits_in(actual: Seq<Seq<char>>, excluded: Seq<Seq<char>>) -> Seq<Seq<char>>
    decreases actual.len(),
{
    if actual.len() == 0 {
        Seq::empty()
    } else {
        let p = hits_in(actual.drop_last(), excluded);
        if excluded.contains(actual.last()) { p.push(actual.last()) } else { p }
    }
}

pub open spec fn proc_views(ps: Seq<(String, Vec<String>)>) -> Seq<(Seq<char>, Seq<Seq<char>>)> {
    ps.map_values(|p: (String, Vec<String>)| (p.0@, views(p.1@)))
}

/// `(process, symbol)` for each excluded process a resolved symbol takes
/// part in, symbol by symbol.
pub open spec fn impact_of_claim(excluded: Seq<Seq<char>>, procs: Seq<(Seq<char>, Seq<Seq<char>>)>) -> Seq<(Seq<char>, Seq<char>)>
    decreases procs.len(),
{
    if procs.len() == 0 {
        Seq::empty()
    } else {
        impact_of_claim(excluded, procs.drop_last())
            + hits_in(procs.last().1, excluded).map_values(|h: Seq<char>| (h, procs.last().0))
    }
}

/// `(process, symbol, excluded list)` for every process-exclusion claim,
/// claim by claim.
pub open spec fn impact_items(scopes: Seq<ScopeClaim>, procs: Seq<(Seq<char>, Seq<Seq<char>>)>) -> Seq<(Seq<char>, Seq<char>, Seq<Seq<char>>)>
    decreases scopes.len(),
{
    if scopes.len() == 0 {
        Seq::empty()
    } else {
        let p = impact_items(scopes.drop_last(), procs);
        match scopes.last() {
            ScopeClaim::ProcessExclusion { processes } => p + impact_of_claim(views(processes@), procs).map_values(
                |x: (Seq<char>, Seq<char>)| (x.0, x.1, views(processes@)),
            ),
            _ => p,
        }
    }
}

pub open spec fn impact_message(process: Seq<char>, symbol: Seq<char>) -> Seq<char> {
    "PRD claims exclusion of process '"@ + process + "', but '"@ + symbol + "' participates in it"@
}

/// `f` reports that `symbol` takes part in the excluded `process`.
pub open spec fn is_impact_finding(f: ValidationFinding, item: (Seq<char>, Seq<char>, Seq<Seq<char>>)) -> bool {
    &&& finding_is(f, "process_impact"@, "critical"@, impact_message(item.0, item.1), Some(item.1))
    &&& f.details matches FindingDetails::ProcessImpact { process, excluded_processes }
        && process@ == item.0 && views(excluded_processes@) == item.2
}

fn emit_for_symbol(excluded: &Vec<String>, symbol: &String, actual: &Vec<String>, findings: &mut Vec<ValidationFinding>)
    ensures
        final(findings)@.len() == old(findings)@.len() + hits_in(views(actual@), views(excluded@)).len(),
        forall|i: int| 0 <= i < old(findings)@.len() ==> #[trigger] final(findings)@[i] == old(findings)@[i],
        forall|k: int| 0 <= k < hits_in(views(actual@), views(excluded@)).len() ==>
            is_impact_finding(#[trigger] final(findings)@[old(findings)@.len() + k],
                (hits_in(views(actual@), views(excluded@))[k], symbol@, views(excluded@))),
{
    let ghost n0 = findings@.len();
    let mut i: usize = 0;
    while i < actual.len()
        invariant
            i <= actual@.len(),
            n0 == old(findings)@.len(),
            findings@.len() == n0 + hits_in(views(actual@).take(i as int), views(excluded@)).len(),
            forall|j: int| 0 <= j < n0 ==> #[trigger] findings@[j] == old(findings)@[j],
            forall|k: int| 0 <= k < hits_in(views(actual@).take(i as int), views(excluded@)).len() ==>
                is_impact_finding(#[trigger] findings@[n0 + k],
                    (hits_in(views(actual@).take(i as int), views(excluded@))[k], symbol@, views(excluded@))),
        decreases actual@.len() - i,
    {
        proof {
            assert(views(actual@).take(i + 1).drop_last() =~= views(actual@).take(i as int));
            assert(views(actual@).take(i + 1).last() == actual@[i as int]@);
        }
        let hit = &actual[i];
        if strings_contain(excluded, hit.as_str()) {
            proof {
                let k = choose|k: int| 0 <= k < excluded@.len() && (#[trigger] excluded@[k])@ == hit@;
                assert(views(excluded@)[k] == hit@);
            }
            let parts: Vec<&str> = vec!["PRD claims exclusion of process '", hit.as_str(), "', but '", symbol.as_str(), "' participates in it"];
            let message = concat_chars(&parts);
            proof {
                assert(concat_views(parts@) =~= impact_message(hit@, symbol@)) by {
                    reveal_with_fuel(concat_views, 6);
                }
            }
            findings.push(ValidationFinding {
                axis: to_owned_string("process_impact"),
                severity: to_owned_string("critical"),
                message,
                symbol: Some(to_owned_string(symbol.as_str())),
                details: FindingDetails::ProcessImpact {
                    process: to_owned_string(hit.as_str()),
                    excluded_processes: copy_strings(excluded),
                },
            });
        } else {
            proof {
                if views(excluded@).contains(hit@) {
                    let k = choose|k: int| 0 <= k < views(excluded@).len() && views(excluded@)[k] == hit@;
                    assert(excluded@[k]@ == hit@);
                }
            }
        }
        i += 1;
    }
    proof {
        assert(views(actual@).take(actual@.len() as int) =~= views(actual@));
    }
}

fn emit_for_claim(excluded: &Vec<String>, processes: &Vec<(String, Vec<String>)>, findings: &mut Vec<ValidationFinding>)
    ensures
        final(findings)@.len() == old(findings)@.len() + impact_of_claim(views(excluded@), proc_views(processes@)).len(),
        forall|i: int| 0 <= i < old(findings)@.len() ==> #[trigger] final(findings)@[i] == old(findings)@[i],
        forall|k: int| 0 <= k < impact_of_claim(views(excluded@), proc_views(processes@)).len() ==>
            is_impact_finding(#[trigger] final(findings)@[old(findings)@.len() + k],
                (impact_of_claim(views(excluded@), proc_views(processes@))[k].0,
                 impact_of_claim(views(excluded@), proc_views(processes@))[k].1, views(excluded@))),
{
    let ghost n0 = findings@.len();
    let ghost ex = views(excluded@);
    let mut j: usize = 0;
    while j < processes.len()
        invariant
            j <= processes@.len(),
            n0 == old(findings)@.len(),
            ex == views(excluded@),
            findings@.len() == n0 + impact_of_claim(ex, proc_views(processes@).take(j as int)).len(),
            forall|i: int| 0 <= i < n0 ==> #[trigger] findings@[i] == old(findings)@[i],
            forall|k: int| 0 <= k < impact_of_claim(ex, proc_views(processes@).take(j as int)).len() ==>
                is_impact_finding(#[trigger] findings@[n0 + k],
                    (impact_of_claim(ex, proc_views(processes@).take(j as int))[k].0,
                     impact_of_claim(ex, proc_views(processes@).take(j as int))[k].1, ex)),
        decreases processes@.len() - j,
    {
        let ghost pv = proc_views(processes@);
        let ghost before = impact_of_claim(ex, pv.take(j as int));
        let ghost n1 = findings@.len();
        let ghost f1 = findings@;
        proof {
            assert(pv.take(j + 1).drop_last() =~= pv.take(j as int));
            assert(pv.take(j + 1).last() == pv[j as int]);
        }
        emit_for_symbol(excluded, &processes[j].0, &processes[j].1, findings);
        proof {
            let hs = hits_in(views(processes@[j as int].1@), ex);
            let add = hs.map_values(|h: Seq<char>| (h, processes@[j as int].0@));
            assert(impact_of_claim(ex, pv.take(j + 1)) == before + add);
            assert forall|k: int| 0 <= k < (before + add).len() implies
                is_impact_finding(#[trigger] findings@[n0 + k], ((before + add)[k].0, (before + add)[k].1, ex)) by {
                if k < before.len() {
                    assert(findings@[n0 + k] == f1[n0 + k]);
                    assert((before + add)[k] == before[k]);
                } else {
                    assert((before + add)[k] == add[k - before.len()]);
                    assert(findings@[n0 + k] == findings@[n1 + (k - before.len())]);
                }
            }
        }
        j += 1;
    }
    proof {
        assert(proc_views(processes@).take(processes@.len() as int) =~= proc_views(processes@));
    }
}

/// Axis 3: a resolved symbol taking part in a process the PRD claims to
/// exclude is critical.
pub fn emit_process_impact(scope_claims: &Vec<ScopeClaim>, processes: &Vec<(String, Vec<String>)>, findings: &mut Vec<ValidationFinding>)
    ensures
        final(findings)@.len() == old(findings)@.len() + impact_items(scope_claims@, proc_views(processes@)).len(),
        forall|i: int| 0 <= i < old(findings)@.len() ==> #[trigger] final(findings)@[i] == old(findings)@[i],
        forall|k: int| 0 <= k < impact_items(scope_claims@, proc_views(processes@)).len() ==>
            is_impact_finding(#[trigger] final(findings)@[old(findings)@.len() + k], impact_items(scope_claims@, proc_views(processes@))[k]),
{
    let ghost n0 = findings@.len();
    let ghost pv = proc_views(processes@);
    let mut c: usize = 0;
    while c < scope_claims.len()
        invariant
            c <= scope_claims@.len(),
            n0 == old(findings)@.len(),
            pv == proc_views(processes@),
            findings@.len() == n0 + impact_items(scope_claims@.take(c as int), pv).len(),
            forall|i: int| 0 <= i < n0 ==> #[trigger] findings@[i] == old(findings)@[i],
            forall|k: int| 0 <= k < impact_items(scope_claims@.take(c as int), pv).len() ==>
                is_impact_finding(#[trigger] findings@[n0 + k], impact_items(scope_claims@.take(c as int), pv)[k]),
        decreases scope_claims@.len() - c,
    {
        proof {
            assert(scope_claims@.take(c + 1).drop_last() =~= scope_claims@.take(c as int));
            assert(scope_claims@.take(c + 1).last() == scope_claims@[c as int]);
        }
        match &scope_claims[c] {
            ScopeClaim::ProcessExclusion { processes: excluded } => {
                let ghost before = impact_items(scope_claims@.take(c as int), pv);
                let ghost n1 = findings@.len();
                let ghost f1 = findings@;
                emit_for_claim(excluded, processes, findings);
                proof {
                    let ic = impact_of_claim(views(excluded@), pv);
                    let add = ic.map_values(|x: (Seq<char>, Seq<char>)| (x.0, x.1, views(excluded@)));
                    assert(impact_items(scope_claims@.take(c + 1), pv) == before + add);
                    assert forall|k: int| 0 <= k < (before + add).len() implies
                        is_impact_finding(#[trigger] findings@[n0 + k], (before + add)[k]) by {
                        if k < before.len() {
                            assert(findings@[n0 + k] == f1[n0 + k]);
                            assert((before + add)[k] == before[k]);
                        } else {
                            assert((before + add)[k] == add[k - before.len()]);
                            assert(findings@[n0 + k] == findings@[n1 + (k - before.len())]);
                        }
                    }
                }
            },
            _ => {},
        }
        c += 1;
    }
    proof {
        assert(scope_claims@.take(scope_claims@.len() as int) =~= scope_claims@);
    }
}

// ---------------------------------------------------------------------------
// Status and report
// ---------------------------------------------------------------------------

/// The overall status: `fail` with any critical finding, else `warning`
/// with any warning, else `ok`.
pub open spec fn spec_status(findings: Seq<ValidationFinding>) -> Seq<char> {
    if exists|i: int| 0 <= i < findings.len() && (#[trigger] findings[i]).severity@ == "critical"@ {
        "fail"@
    } else if exists|i: int| 0 <= i < findings.len() && (#[trigger] findings[i]).severity@ == "warning"@ {
        "warning"@
    } else {
        "ok"@
    }
}

pub fn compute_status(findings: &Vec<ValidationFinding>) -> (r: String)
    ensures
        r@ == spec_status(findings@),
{
    let mut has_critical = false;
    let mut has_warning = false;
    let mut i: usize = 0;
    while i < findings.len()
        invariant
            i <= findings@.len(),
            has_critical == exists|k: int| 0 <= k < i && (#[trigger] findings@[k]).severity@ == "critical"@,
            has_warning == exists|k: int| 0 <= k < i && (#[trigger] findings@[k]).severity@ == "warning"@,
        decreases findings@.len() - i,
    {
        if str_eq(findings[i].severity.as_str(), "critical") {
            has_critical = true;
        } else if str_eq(findings[i].severity.as_str(), "warning") {
            has_warning = true;
        }
        proof {
            reveal_strlit("critical");
            reveal_strlit("warning");
            assert("critical"@.len() == 8);
            assert("warning"@.len() == 7);
            assert("critical"@ != "warning"@);
        }
        i += 1;
    }
    if has_critical {
        to_owned_string("fail")
    } else if has_warning {
        to_owned_string("warning")
    } else {
        to_owned_string("ok")
    }
}

/// The qualified names the resolved claims resolved to, in order.
pub open spec fn resolved_qns(rs: Seq<ResolvedClaim>) -> Seq<Seq<char>>
    decreases rs.len(),
{
    if rs.len() == 0 {
        Seq::empty()
    } else {
        match rs.last().resolved_qn {
            Some(q) => resolved_qns(rs.drop_last()).push(q@),
            None => resolved_qns(rs.drop_last()),
        }
    }
}

pub open spec fn opt_views(items: Seq<Option<String>>) -> Seq<Option<Seq<char>>> {
    items.map_values(|o: Option<String>| opt_view(o))
}

/// The present values of a sequence of optional strings, in order.
pub open spec fn somes_v(items: Seq<Option<Seq<char>>>) -> Seq<Seq<char>>
    decreases items.len(),
{
    if items.len() == 0 {
        Seq::empty()
    } else {
        match items.last() {
            Some(s) => somes_v(items.drop_last()).push(s),
            None => somes_v(items.drop_last()),
        }
    }
}

proof fn lemma_somes_views(items: Seq<Option<String>>)
    ensures
        somes(items) == somes_v(opt_views(items)),
    decreases items.len(),
{
    if items.len() > 0 {
        lemma_somes_views(items.drop_last());
        assert(opt_views(items).drop_last() =~= opt_views(items.drop_last()));
    }
}

/// The community of each resolved symbol.
pub open spec fn community_ids(graph: CodeGraph, rs: Seq<ResolvedClaim>) -> Seq<Option<Seq<char>>> {
    resolved_qns(rs).map_values(|q: Seq<char>| community_of_in(graph.nodes@, graph.edges@, community_labels(), q))
}

/// Each resolved symbol with the processes it takes part in.
pub open spec fn process_table(graph: CodeGraph, rs: Seq<ResolvedClaim>) -> Seq<(Seq<char>, Seq<Seq<char>>)> {
    resolved_qns(rs).map_values(|q: Seq<char>| (q, spec_processes_of(graph.nodes@, graph.edges@, q)))
}

pub fn communities_for_resolved(graph: &CodeGraph, resolved: &Vec<ResolvedClaim>) -> (r: Vec<Option<String>>)
    ensures
        opt_views(r@) == community_ids(*graph, resolved@),
{
    let mut out: Vec<Option<String>> = Vec::new();
    let mut i: usize = 0;
    while i < resolved.len()
        invariant
            i <= resolved@.len(),
            opt_views(out@) == community_ids(*graph, resolved@.take(i as int)),
        decreases resolved@.len() - i,
    {
        proof {
            assert(resolved@.take(i + 1).drop_last() =~= resolved@.take(i as int));
            assert(resolved@.take(i + 1).last() == resolved@[i as int]);
        }
        match &resolved[i].resolved_qn {
            Some(qn) => {
                let ghost before = opt_views(out@);
                out.push(community_of(graph, qn.as_str()));
                proof {
                    assert(opt_views(out@) =~= before.push(community_of_in(graph.nodes@, graph.edges@, community_labels(), qn@)));
                    assert(resolved_qns(resolved@.take(i + 1)) == resolved_qns(resolved@.take(i as int)).push(qn@));
                    assert(community_ids(*graph, resolved@.take(i + 1)) =~= before.push(community_of_in(graph.nodes@, graph.edges@, community_labels(), qn@)));
                }
            },
            None => {},
        }
        i += 1;
    }
    proof {
        assert(resolved@.take(resolved@.len() as int) =~= resolved@);
    }
    out
}

pub fn processes_for_resolved(graph: &CodeGraph, resolved: &Vec<ResolvedClaim>) -> (r: Vec<(String, Vec<String>)>)
    ensures
        proc_views(r@) == process_table(*graph, resolved@),
{
    let mut out: Vec<(String, Vec<String>)> = Vec::new();
    let mut i: usize = 0;
    while i < resolved.len()
        invariant
            i <= resolved@.len(),
            proc_views(out@) == process_table(*graph, resolved@.take(i as int)),
        decreases resolved@.len() - i,
    {
        proof {
            assert(resolved@.take(i + 1).drop_last() =~= resolved@.take(i as int));
            assert(resolved@.take(i + 1).last() == resolved@[i as int]);
        }
        match &resolved[i].resolved_qn {
            Some(qn) => {
                let ghost before = proc_views(out@);
                let ps = processes_of(graph, qn.as_str());
                out.push((to_owned_string(qn.as_str()), ps));
                proof {
                    let item = (qn@, spec_processes_of(graph.nodes@, graph.edges@, qn@));
                    assert(proc_views(out@) =~= before.push(item));
                    assert(resolved_qns(resolved@.take(i + 1)) == resolved_qns(resolved@.take(i as int)).push(qn@));
                    assert(process_table(*graph, resolved@.take(i + 1)) =~= before.push(item));
                }
            },
            None => {},
        }
        i += 1;
    }
    proof {
        assert(resolved@.take(resolved@.len() as int) =~= resolved@);
    }
    out
}

proof fn lemma_resolved_count(rs: Seq<ResolvedClaim>)
    ensures
        resolved_qns(rs).len() + unresolved(rs).len() == rs.len(),
    decreases rs.len(),
{
    if rs.len() > 0 {
        lemma_resolved_count(rs.drop_last());
    }
}

fn count_unresolved_claims(resolved: &Vec<ResolvedClaim>) -> (r: usize)
    ensures
        r == unresolved(resolved@).len(),
        r <= resolved@.len(),
{
    let mut n: usize = 0;
    let mut i: usize = 0;
    while i < resolved.len()
        invariant
            i <= resolved@.len(),
            n == unresolved(resolved@.take(i as int)).len(),
            n <= i,
        decreases resolved@.len() - i,
    {
        proof {
            assert(resolved@.take(i + 1).drop_last() =~= resolved@.take(i as int));
            assert(resolved@.take(i + 1).last() == resolved@[i as int]);
        }
        if resolved[i].resolved_qn.is_none() {
            n += 1;
        }
        i += 1;
    }
    proof {
        assert(resolved@.take(resolved@.len() as int) =~= resolved@);
    }
    n
}

/// The report validating the resolved claims `resolved` and the scope
/// claims against `graph`: the hallucination findings, then the
/// community-consistency finding when one is due, the process-impact
/// findings, and (under the regex fallback) the unresolved-claim findings;
/// the status they give; and the summary counts.
pub open spec fn is_validation_of(r: ValidationReport, graph: CodeGraph, resolved: Seq<ResolvedClaim>,
    scope_claims: Seq<ScopeClaim>, mode: Seq<char>, missing: bool) -> bool
{
            let h = hallucinated(resolved);
            let d = distinct(somes_v(community_ids(graph, resolved))).len();
            let sev = community_severity(d, has_community_scope(scope_claims));
            let cn: int = if sev is Some { 1 } else { 0 };
            let p = impact_items(scope_claims, process_table(graph, resolved));
            let u = if mode == "regex_fallback"@ { unresolved(resolved) } else { Seq::empty() };
            &&& r.findings@.len() == h.len() + cn + p.len() + u.len()
            &&& forall|k: int| 0 <= k < h.len() ==> is_hallucination_finding(#[trigger] r.findings@[k], h[k])
            &&& (sev matches Some(s) ==> {
                &&& finding_is(r.findings@[h.len() as int], "community_consistency"@, s, community_message(d), None)
                &&& r.findings@[h.len() as int].details matches FindingDetails::CommunitySpan { distinct_communities, communities, has_scope_assertion }
                    && distinct_communities == d
                    && views(communities@) == distinct(somes_v(community_ids(graph, resolved))).sort_by(lex_leq())
                    && has_scope_assertion == has_community_scope(scope_claims)
            })
            &&& forall|k: int| 0 <= k < p.len() ==> is_impact_finding(#[trigger] r.findings@[h.len() + cn + k], p[k])
            &&& forall|k: int| 0 <= k < u.len() ==> is_unresolved_finding(#[trigger] r.findings@[h.len() + cn + p.len() + k], u[k])
            &&& r.validation_status@ == spec_status(r.findings@)
            &&& r.summary.claimed_symbols == resolved.len()
            &&& r.summary.resolved_symbols == resolved.len() - unresolved(resolved).len()
            &&& r.summary.hallucinated_symbols == unresolved(resolved).len()
            &&& r.summary.communities_spanned == d
            &&& r.summary.processes_impacted == resolved.len() - unresolved(resolved).len()
            &&& r.extraction_mode@ == mode
            &&& r.contract_missing == missing
            &&& r.affected_symbol_count == resolved.len()
            &&& r.scope_claim_count == scope_claims.len()
}

/// Validates resolved claims against the graph. The findings come axis by
/// axis: hallucinated symbols, then the community span (when reported),
/// then contradicted process exclusions, then (in the fallback extraction)
/// the unresolved tokens.
pub fn validate_resolved(
    graph: &CodeGraph,
    resolved: &Vec<ResolvedClaim>,
    scope_claims: &Vec<ScopeClaim>,
    extraction_mode: &str,
    contract_missing: bool,
) -> (r: ValidationReport)
    ensures
        is_validation_of(r, *graph, resolved@, scope_claims@, extraction_mode@, contract_missing),
{
    let mut findings: Vec<ValidationFinding> = Vec::new();
    emit_symbol_hallucination(resolved, &mut findings);
    let ghost f_h = findings@;
    let communities = communities_for_resolved(graph, resolved);
    proof {
        lemma_somes_views(communities@);
    }
    emit_community_consistency(scope_claims, &communities, &mut findings);
    let ghost f_c = findings@;
    let processes = processes_for_resolved(graph, resolved);
    emit_process_impact(scope_claims, &processes, &mut findings);
    let ghost f_p = findings@;
    let is_fallback = str_eq(extraction_mode, "regex_fallback");
    emit_unresolved_info(resolved, is_fallback, &mut findings);
    let status = compute_status(&findings);
    let n_unresolved = count_unresolved_claims(resolved);
    let distinct_n = distinct_count(&communities);
    proof {
        lemma_resolved_count(resolved@);
        let h = hallucinated(resolved@);
        let d = distinct(somes_v(community_ids(*graph, resolved@))).len();
        let sev = community_severity(d, has_community_scope(scope_claims@));
        let cn: int = if sev is Some { 1 } else { 0 };
        let p = impact_items(scope_claims@, process_table(*graph, resolved@));
        assert(f_c.len() == h.len() + cn);
        assert forall|k: int| 0 <= k < h.len() implies is_hallucination_finding(#[trigger] findings@[k], h[k]) by {
            assert(findings@[k] == f_p[k]);
            assert(f_p[k] == f_c[k]);
            assert(f_c[k] == f_h[k]);
            assert(is_hallucination_finding(f_h[0 + k], h[k]));
        }
        if sev is Some {
            assert(findings@[h.len() as int] == f_p[h.len() as int]);
            assert(f_p[h.len() as int] == f_c[h.len() as int]);
            assert(f_c[h.len() as int] == f_c.last());
        }
        assert forall|k: int| 0 <= k < p.len() implies is_impact_finding(#[trigger] findings@[h.len() + cn + k], p[k]) by {
            assert(findings@[h.len() + cn + k] == f_p[f_c.len() + k]);
        }
    }
    let resolved_n = resolved.len() - n_unresolved;
    ValidationReport {
        validation_status: status,
        findings,
        summary: ValidationSummary {
            claimed_symbols: resolved.len() as u64,
            resolved_symbols: resolved_n as u64,
            hallucinated_symbols: n_unresolved as u64,
            communities_spanned: distinct_n as u64,
            processes_impacted: processes.len() as u64,
        },
        extraction_mode: to_owned_string(extraction_mode),
        contract_missing,
        affected_symbol_count: resolved.len(),
        scope_claim_count: scope_claims.len(),
    }
}

/// Resolves the claims by exact lookup and validates them.
pub fn validate_claims(
    graph: &CodeGraph,
    claims: &Vec<SymbolClaim>,
    scope_claims: &Vec<ScopeClaim>,
    extraction_mode: &str,
    contract_missing: bool,
) -> (r: ValidationReport)
    ensures
        exists|res: Seq<ResolvedClaim>| is_resolution_of(res, *graph, claims@)
            && is_validation_of(r, *graph, res, scope_claims@, extraction_mode@, contract_missing),
        r.validation_status@ == spec_status(r.findings@),
        r.summary.claimed_symbols == claims@.len(),
        r.affected_symbol_count == claims@.len(),
        r.scope_claim_count == scope_claims@.len(),
        r.extraction_mode@ == extraction_mode@,
        r.contract_missing == contract_missing,
{
    let resolved = resolve_claims(graph, claims);
    validate_resolved(graph, &resolved, scope_claims, extraction_mode, contract_missing)
}

/// A validation fails exactly when some finding is critical, and is `ok`
/// exactly when no finding is critical or a warning.
pub proof fn lemma_status_escalation(findings: Seq<ValidationFinding>)
    ensures
        spec_status(findings) == "fail"@ <==> exists|i: int| 0 <= i < findings.len() && (#[trigger] findings[i]).severity@ == "critical"@,
        spec_status(findings) == "ok"@ <==> forall|i: int| 0 <= i < findings.len() ==>
            (#[trigger] findings[i]).severity@ != "critical"@ && findings[i].severity@ != "warning"@,
{
    reveal_strlit("fail");
    reveal_strlit("ok");
    reveal_strlit("warning");
    assert("fail"@.len() == 4);
    assert("ok"@.len() == 2);
    assert("warning"@.len() == 7);
    assert("fail"@ != "ok"@);
    assert("fail"@ != "warning"@);
    assert("ok"@ != "warning"@);
}

} // verus!
