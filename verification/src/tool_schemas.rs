//! The catalogue of tools the server offers: for each, its name, what it
//! does, whether it only reads, and the JSON Schema of its input (as JSON
//! text), with the one-line summary drawn from each description.

use vstd::prelude::*;
use crate::text::{chars_of, find_from, occurs_at, slice_to_vec, string_from_chars, str_eq, push_char, to_owned_string};

verus! {

/// One tool: its name, its description, whether it only reads (else it
/// writes), and the JSON Schema of its input, as JSON text.
#[derive(Clone, Copy)]
pub struct ToolSpec {
    pub name: &'static str,
    pub description: &'static str,
    pub read_only: bool,
    pub input_schema: &'static str,
}

/// A tool as plain values.
pub struct ToolSpecView {
    pub name: Seq<char>,
    pub description: Seq<char>,
    pub read_only: bool,
    pub input_schema: Seq<char>,
}

impl ToolSpec {
    pub open spec fn view(self) -> ToolSpecView {
        ToolSpecView {
            name: self.name@,
            description: self.description@,
            read_only: self.read_only,
            input_schema: self.input_schema@,
        }
    }
}

/// The tools as plain values.
pub open spec fn tool_views(ts: Seq<ToolSpec>) -> Seq<ToolSpecView> {
    ts.map_values(|t: ToolSpec| t.view())
}

/// The tool built from its name, description, access and input schema.
pub open spec fn tool_of(name: &'static str, description: &'static str, read_only: bool, input_schema: &'static str)
    -> ToolSpecView
{
    ToolSpecView { name: name@, description: description@, read_only, input_schema: input_schema@ }
}
pub const HEALTH_CHECK_NAME: &'static str = "health_check";
pub const HEALTH_CHECK_DESCRIPTION: &'static str = "Stage 0 — Handshake and liveness probe. CALL THIS FIRST, before any other tool, to confirm the MCP is live and to learn which tool profile is active (core vs full) so you know which tools are registered this session. Returns: server identity + version, the MCP protocol version, and the count of registered tools. Needs no graph and no arguments. This is a cheap read-only sanity check, not a data tool — for a graph's node/edge counts and indexing coverage use index_status instead.";
pub const HEALTH_CHECK_INPUT: &'static str = "{\"additionalProperties\":false,\"properties\":{},\"type\":\"object\"}";

pub const EXTRACT_FINDING_NAME: &'static str = "extract_finding";
pub const EXTRACT_FINDING_DESCRIPTION: &'static str = "Stage 1a — Deterministic extraction. Normalizes one incoming finding (inline object or absolute path to a .json file) to the canonical schema, writes stage-1.source.json + stage-1.extracted.json atomically under <output_dir>/runs/<run_id>/findings/<finding_id>/, and creates or updates an index.json entry. Does NOT call an LLM. The caller runs the orchestrator refinement and then calls refine_finding with the payload.";
pub const EXTRACT_FINDING_INPUT: &'static str = "{\"additionalProperties\":false,\"properties\":{\"finding\":{\"description\":\"Either an inline finding object (must match spec §3.2) or an absolute path to a .json file containing a finding or a {findings: [...]} wrapper with exactly one entry. .md paths are rejected in v1 (spec §9.3 Q1).\",\"oneOf\":[{\"type\":\"object\"},{\"pattern\":\"^/.+\\\\.json$\",\"type\":\"string\"}]},\"output_dir\":{\"description\":\"Absolute directory where the artifact will be staged.\",\"pattern\":\"^/.+\",\"type\":\"string\"},\"run_id\":{\"description\":\"Optional run identifier. Auto-gener\u{61}ted as YYYYMMDD-HHMMSS-<6 lowercase alphanumeric> (UTC) when absent.\",\"type\":\"string\"}},\"required\":[\"finding\",\"output_dir\"],\"type\":\"object\"}";

pub const REFINE_FINDING_NAME: &'static str = "refine_finding";
pub const REFINE_FINDING_DESCRIPTION: &'static str = "Stage 1b — Orchestrator-aware persistence. Reads an existing stage-1.extracted.json, composes stage-1.refined.json with the agent-produced refined_prompt + refinement payload, and updates index.json atomically. Pure persistence — no LLM call, no network. Requires extract_finding to have been called first for the same (run_id, finding_id).";
pub const REFINE_FINDING_INPUT: &'static str = "{\"additionalProperties\":false,\"properties\":{\"finding_id\":{\"type\":\"string\"},\"output_dir\":{\"pattern\":\"^/.+\",\"type\":\"string\"},\"refined_prompt\":{\"additionalProperties\":false,\"properties\":{\"role_hint\":{\"type\":\"string\"},\"text\":{\"minLength\":1,\"type\":\"string\"},\"token_estimate\":{\"type\":[\"integer\",\"null\"]}},\"required\":[\"text\",\"role_hint\"],\"type\":\"object\"},\"refinement\":{\"additionalProperties\":false,\"properties\":{\"added_context\":{\"items\":{\"additionalProperties\":false,\"properties\":{\"content\":{\"type\":\"string\"},\"kind\":{\"type\":\"string\"},\"provenance\":{\"type\":\"string\"}},\"required\":[\"kind\",\"content\"],\"type\":\"object\"},\"type\":\"array\"},\"orchestrator_version\":{\"type\":\"string\"}},\"required\":[\"added_context\",\"orchestrator_version\"],\"type\":\"object\"},\"run_id\":{\"type\":\"string\"}},\"required\":[\"run_id\",\"finding_id\",\"output_dir\",\"refined_prompt\",\"refinement\"],\"type\":\"object\"}";

pub const START_VERIFICATION_NAME: &'static str = "start_verification";
pub const START_VERIFICATION_DESCRIPTION: &'static str = "Stage 2a — Create a clarification session for a refined finding. Verifies stage-1.refined.json exists and parses (schema_ok), then atomically writes stage-2.session.json with state 'open'. Rejects if an existing session is finalized; overwrites an aborted session. No LLM call.";
pub const START_VERIFICATION_INPUT: &'static str = "{\"additionalProperties\":false,\"properties\":{\"finding_id\":{\"type\":\"string\"},\"output_dir\":{\"pattern\":\"^/.+\",\"type\":\"string\"},\"run_id\":{\"type\":\"string\"}},\"required\":[\"run_id\",\"finding_id\",\"output_dir\"],\"type\":\"object\"}";

pub const APPEND_CLARIFICATION_NAME: &'static str = "append_clarification";
pub const APPEND_CLARIFICATION_DESCRIPTION: &'static str = "Stage 2b — Append one turn (agent_question or user_answer) to stage-2.session.json. Enforces the alternation invariant (two consecutive same-kind turns rejected) and the §3 state machine. Whole-file atomic rewrite per spec §12.3. No LLM call.";
pub const APPEND_CLARIFICATION_INPUT: &'static str = "{\"additionalProperties\":false,\"properties\":{\"content\":{\"minLength\":1,\"type\":\"string\"},\"finding_id\":{\"type\":\"string\"},\"kind\":{\"enum\":[\"agent_question\",\"user_answer\"]},\"meta\":{\"type\":\"object\"},\"output_dir\":{\"pattern\":\"^/.+\",\"type\":\"string\"},\"run_id\":{\"type\":\"string\"}},\"required\":[\"run_id\",\"finding_id\",\"output_dir\",\"kind\",\"content\"],\"type\":\"object\"}";

pub const FINALIZE_VERIFICATION_NAME: &'static str = "finalize_verification";
pub const FINALIZE_VERIFICATION_DESCRIPTION: &'static str = "Stage 2c — Consume the user-ready signal. Rejects from state 'open' (no_clarification_round) or 'waiting_for_user' (unanswered_question) per spec §12.2. Computes sha256 over the canonical transcript bytes, writes stage-2.verified.json atomically, flips the session to 'finalized', and updates index.json with verified+stage2_path. No LLM call.";
pub const FINALIZE_VERIFICATION_INPUT: &'static str = "{\"additionalProperties\":false,\"properties\":{\"finding_id\":{\"type\":\"string\"},\"output_dir\":{\"pattern\":\"^/.+\",\"type\":\"string\"},\"run_id\":{\"type\":\"string\"}},\"required\":[\"run_id\",\"finding_id\",\"output_dir\"],\"type\":\"object\"}";

pub const ABORT_VERIFICATION_NAME: &'static str = "abort_verification";
pub const ABORT_VERIFICATION_DESCRIPTION: &'static str = "Stage 2d — Kill a non-terminal session. Atomically rewrites stage-2.session.json with state 'aborted', aborted_at, and optional abort_reason. Does NOT touch index.json (aborted sessions are invisible to stage 3). A fresh start_verification after abort overwrites the session.";
pub const ABORT_VERIFICATION_INPUT: &'static str = "{\"additionalProperties\":false,\"properties\":{\"finding_id\":{\"type\":\"string\"},\"output_dir\":{\"pattern\":\"^/.+\",\"type\":\"string\"},\"reason\":{\"type\":\"string\"},\"run_id\":{\"type\":\"string\"}},\"required\":[\"run_id\",\"finding_id\",\"output_dir\"],\"type\":\"object\"}";

pub const INDEX_CODEBASE_NAME: &'static str = "index_codebase";
pub const INDEX_CODEBASE_DESCRIPTION: &'static str = "Stage 3a — Index a codebase: tree-sitter AST → LadybugDB graph (16 node labels, 36+ relationship tables).";
pub const INDEX_CODEBASE_INPUT: &'static str = "{\"type\":\"object\"}";

pub const QUERY_GRAPH_NAME: &'static str = "query_graph";
pub const QUERY_GRAPH_DESCRIPTION: &'static str = "Stage 3a — Run a read-only Cypher query against the code graph: the ESCAPE HATCH for structural questions the typed tools do not cover (arbitrary MATCH patterns, aggregations, multi-hop traversals). USE THIS INSTEAD OF scripting grep across files for structural facts like 'which functions call X and live in module Y'. Read-only: mutation keywords are rejected. Response: 'columns' + 'rows' (rows as compact arrays), a human-readable 'result' table, 'total_count', 'order_stable', and 'next_offset' — page a large result by re-calling with offset=next_offset, but paging is cursor-safe ONLY when your query declares ORDER BY (order_stable reports whether it does). TOKEN SURFACE (issue #56): format='tabular' drops the redundant human 'result' string (rows+columns already carry the data); detail='ids' collapses to the first column's values for a cheap sweep. COVERAGE HONESTY (issue #57): pass graph=\"missed\" to enumerate what the index does NOT cover (parse-incomplete + skipped + quarantined files) so you know where to prefer grep. IMPORTANT: absence from graph results — or from the 'missed' list — is NOT a completeness guarantee; the signal only marks what the indexer can detect.";
pub const QUERY_GRAPH_INPUT: &'static str = "{\"additionalProperties\":false,\"properties\":{\"detail\":{\"default\":\"full\",\"description\":\"Token surface (issue #56). 'full' (default): each result as a complete object. 'ids': return ONLY the bare identifiers (qualified names) plus the total — a cheap wide sweep to enumerate what exists before drilling into specific symbols with get_symbol/get_context. Overrides 'format' (an id list needs no table).\",\"enum\":[\"full\",\"ids\"],\"type\":\"string\"},\"format\":{\"default\":\"json\",\"description\":\"Token surface (issue #56). query_graph already returns 'rows' as compact arrays with 'columns' declared once. 'json' (default) additionally incl\u{75}des a human-readable 'result' text table. 'tabular' OMITS that 'result' string (the rows+columns already carry the data), cutting tokens. detail='ids' collapses to the first column's values.\",\"enum\":[\"json\",\"tabular\"],\"type\":\"string\"},\"graph\":{\"default\":\"default\",\"description\":\"Which view to query. 'default': run the Cypher 'query' against the code graph. 'missed' (issue #57): ignore 'query' and return the coverage report — the files the index could NOT fully cover (parse_incomplete with flagged line ranges, skipped, quarantined), so an agent can pivot to grep. Absence from the missed list is NOT a completeness guarantee.\",\"enum\":[\"default\",\"missed\"],\"type\":\"string\"},\"graph_path\":{\"description\":\"Absolute path to the graph directory (the path returned by index_codebase).\",\"type\":\"string\"},\"offset\":{\"default\":0,\"description\":\"Number of result rows to skip before filling the byte budget (cursor pagination). Page through a large result by re-calling with offset = the previous response's next_offset until next_offset is absent. IMPORTANT: paging is only cursor-safe when your query declares an ORDER BY — the response reports order_stable; without ORDER BY the row order is unspecified and pages may skip or duplicate rows.\",\"minimum\":0,\"type\":\"integer\"},\"query\":{\"description\":\"Cypher query to execute against the graph. Required unless graph=\\\"missed\\\".\",\"type\":\"string\"}},\"required\":[\"graph_path\"],\"type\":\"object\"}";

pub const GET_SYMBOL_NAME: &'static str = "get_symbol";
pub const GET_SYMBOL_DESCRIPTION: &'static str = "Stage 3a — Exact symbol lookup by qualified name. USE THIS INSTEAD OF opening a file and reading around a definition: given a qualified name ('file_path::symbol_name', e.g. 'src/main.rs::handle_tool_call'), it returns the node's properties (kind, visibility, line span, language) plus EVERY incoming and outgoing edge (defines, calls, imports, implements, …) — the symbol's immediate neighborhood in one call. If you have a keyword but not the qualified name, run search_codebase first; for a grouped 360° view use get_context; for reverse-dependency blast radius use get_impact. Response: the node object + its edge lists. COVERAGE CAVEAT (issue #57): if the symbol is not found it may be UNINDEXED (its file parse-incomplete or skipped) rather than nonexistent — check index_status before concluding it does not exist. STALENESS (fleet-watch#112): the response's 'graph_freshness' object ('state': fresh|stale|unknown, plus dirty_files/checked_files/commits_behind/commits_ahead) tells you whether the working tree has moved since this graph was indexed — in EITHER direction: 'commits_ahead' > 0 means HEAD sits BEHIND the indexed commit (a checkout to an older revision), which makes the graph just as stale as a forward move. It rides on every response this tool returns, its not-found and error envelopes incl\u{75}ded — there it is what separates 'this does not exist' from 'this graph predates it'. Distinct key from index_codebase's string-valued 'graph_state'; do not type the two as one field.";
pub const GET_SYMBOL_INPUT: &'static str = "{\"additionalProperties\":false,\"properties\":{\"graph_path\":{\"description\":\"Absolute path to the graph directory.\",\"type\":\"string\"},\"qualified_name\":{\"description\":\"The qualified name of the symbol to look up (e.g., 'src/main.rs::handle_tool_call').\",\"type\":\"string\"},\"sibling_graphs\":{\"description\":\"Optional cross-repo bridge: paths to sibling repo graph directories. When the symbol is not defined in this graph, the bridge looks for its definition in these siblings and returns repo-tagged foreign_definitions (re-query the owning repo via the returned `repo`). Omit for single-repo lookups.\",\"items\":{\"type\":\"string\"},\"type\":\"array\"}},\"required\":[\"graph_path\",\"qualified_name\"],\"type\":\"object\"}";

pub const RESOLVE_GRAPH_NAME: &'static str = "resolve_graph";
pub const RESOLVE_GRAPH_DESCRIPTION: &'static str = "Stage 3b — Resolve cross-file edges in the code graph. Runs AFTER index_codebase. Adds Imports, Calls, Implements, Extends, and Uses edges by matching string references to concrete target nodes. Returns resolution statistics including edge counts and resolution rate.";
pub const RESOLVE_GRAPH_INPUT: &'static str = "{\"additionalProperties\":false,\"properties\":{\"graph_path\":{\"description\":\"Path to the graph directory (created by index_codebase).\",\"type\":\"string\"},\"sibling_graphs\":{\"description\":\"Optional cross-repo bridge: paths to sibling repo graph directories. Reports cross_repo_resolvable — how many of this graph's unresolved references a sibling repo can define (a cross-service edge rather than a true third-party dependency) — plus a sample. Omit for single-repo resolution.\",\"items\":{\"type\":\"string\"},\"type\":\"array\"}},\"required\":[\"graph_path\"],\"type\":\"object\"}";

pub const CLUSTER_GRAPH_NAME: &'static str = "cluster_graph";
pub const CLUSTER_GRAPH_DESCRIPTION: &'static str = "Stage 3c — Run community detection and process tracing on an indexed+resolved graph. Groups symbols into functional communities via Louvain+C2 repair, detects entry points (main, test, proof, handler, lib_entry; proof denotes a source harness, not a verified result), and traces BFS call chains to create Process nodes. Requires resolve_graph to have been called first.";
pub const CLUSTER_GRAPH_INPUT: &'static str = "{\"additionalProperties\":false,\"properties\":{\"graph_path\":{\"description\":\"Path to the graph directory (created by index_codebase, resolved by resolve_graph).\",\"type\":\"string\"},\"resolution_param\":{\"default\":1.0,\"description\":\"Resolution parameter gamma for community detection. Higher = more, smaller communities. Default 1.0.\",\"type\":\"number\"}},\"required\":[\"graph_path\"],\"type\":\"object\"}";

pub const GET_PROCESSES_NAME: &'static str = "get_processes";
pub const GET_PROCESSES_DESCRIPTION: &'static str = "Stage 3c — List all detected processes (execution flows from entry points). Each process has an entry point, entry kind (main/test/proof/handler/lib_entry; proof denotes a source harness, not a verified result), BFS depth, and symbol count. Requires cluster_graph to have been called first.";
pub const GET_PROCESSES_INPUT: &'static str = "{\"additionalProperties\":false,\"properties\":{\"detail\":{\"default\":\"full\",\"description\":\"Token surface (issue #56). 'full' (default): each result as a complete object. 'ids': return ONLY the bare identifiers (qualified names) plus the total — a cheap wide sweep to enumerate what exists before drilling into specific symbols with get_symbol/get_context. Overrides 'format' (an id list needs no table).\",\"enum\":[\"full\",\"ids\"],\"type\":\"string\"},\"format\":{\"default\":\"json\",\"description\":\"Token surface (issue #56). 'json' (default): results as objects. 'tabular': declare the columns ONCE (in the response's 'columns' header) and stream each result as an array of cells in that column order — homogeneous result sets stop repeating field names, cutting tokens. Read each row positionally against 'columns'. Ignored when detail='ids'.\",\"enum\":[\"json\",\"tabular\"],\"type\":\"string\"},\"graph_path\":{\"description\":\"Path to the graph directory.\",\"type\":\"string\"},\"offset\":{\"default\":0,\"description\":\"Number of processes to skip before filling the byte budget (cursor pagination). Processes are returned in a stable total order (name, then entry_point). Page through them all by re-calling with offset = the previous response's next_offset until next_offset is absent.\",\"minimum\":0,\"type\":\"integer\"},\"sibling_graphs\":{\"description\":\"Accepted for cross-repo API symmetry but NOT acted on: a Process is an intra-graph execution flow (BFS over one graph's call edges), and the bridge topology forbids the super-graph merge that a cross-repo process would require. To trace a flow across repos, follow get_impact's foreign_callers / get_symbol's foreign_definitions into the sibling graph and call get_processes there.\",\"items\":{\"type\":\"string\"},\"type\":\"array\"}},\"required\":[\"graph_path\"],\"type\":\"object\"}";

pub const GET_IMPACT_NAME: &'static str = "get_impact";
pub const GET_IMPACT_DESCRIPTION: &'static str = "Stage 3c — Reverse-dependency blast radius for a symbol. USE THIS INSTEAD OF grepping a name across the repo to find who depends on it: it returns callers (reverse Calls), importers (reverse Imports), users (reverse Uses), and implementors (reverse Implements), each a re-queryable {id, qualified_name, label, confidence} handle you traverse further via get_symbol/get_context/query_graph — plus the communities and processes affected. Cursor: 'callers' is the PRIMARY paged list (page via next_offset, stable order); importers/users/implementors are byte-capped SUMMARIES from index 0 (secondary_lists_paged=false) — page one at scale via query_graph with ORDER BY. 'dependents_total' is the true pre-truncation size. TOKEN SURFACE (issue #56): detail='ids' → bare qualified names across all four sections; format='tabular' → rows-as-arrays under one 'columns' header. TEMPORAL (issue #58): 'cochange_partners' lists the files that historically change WITH this symbol's file (FILE_CHANGES_WITH, strongest coupling first) — impact candidates the static call graph cannot see (the architect agent's churning-pairs signal). EPISTEMIC HONESTY: 'epistemic'='lower-bound' when the target is reached via dynamic dispatch or heuristically-resolved edges — real impact may exceed what is shown; 'epistemic_reasons' names the carriers. STALENESS (fleet-watch#112): the response's 'graph_freshness' object ('state': fresh|stale|unknown, plus dirty_files/checked_files/commits_behind/commits_ahead) tells you whether the working tree has moved since this graph was indexed — in EITHER direction: 'commits_ahead' > 0 means HEAD sits BEHIND the indexed commit (a checkout to an older revision), which makes the graph just as stale as a forward move. It rides on every response this tool returns, its not-found and error envelopes incl\u{75}ded — there it is what separates 'this does not exist' from 'this graph predates it'. Distinct key from index_codebase's string-valued 'graph_state'; do not type the two as one field — a 'stale' state means treat this blast radius as a lower-confidence snapshot. Prereqs: a resolved graph (cluster_graph adds the community/process fields).";
pub const GET_IMPACT_INPUT: &'static str = "{\"additionalProperties\":false,\"properties\":{\"detail\":{\"default\":\"full\",\"description\":\"Token surface (issue #56). 'full' (default): each result as a complete object. 'ids': return ONLY the bare identifiers (qualified names) plus the total — a cheap wide sweep to enumerate what exists before drilling into specific symbols with get_symbol/get_context. Overrides 'format' (an id list needs no table).\",\"enum\":[\"full\",\"ids\"],\"type\":\"string\"},\"format\":{\"default\":\"json\",\"description\":\"Token surface (issue #56). 'json' (default): results as objects. 'tabular': declare the columns ONCE (in the response's 'columns' header) and stream each result as an array of cells in that column order — homogeneous result sets stop repeating field names, cutting tokens. Read each row positionally against 'columns'. Ignored when detail='ids'.\",\"enum\":[\"json\",\"tabular\"],\"type\":\"string\"},\"graph_path\":{\"description\":\"Path to the graph directory.\",\"type\":\"string\"},\"offset\":{\"default\":0,\"description\":\"Number of CALLERS to skip before filling the byte budget (cursor pagination). 'callers' is the PRIMARY paged list, ordered by a stable total order (qualified_name, then id); page through every caller via next_offset. The other reverse-dependency lists (importers, users, implementors) are byte-capped SUMMARIES starting at index 0, not cursored (secondary_lists_paged=false) — to page one of those at scale, query it directly via query_graph with an explicit ORDER BY.\",\"minimum\":0,\"type\":\"integer\"},\"qualified_name\":{\"description\":\"The qualified name of the symbol to analyze (e.g., 'src/main.rs::handle_tool_call').\",\"type\":\"string\"},\"sibling_graphs\":{\"description\":\"Optional cross-repo bridge: paths to sibling repo graph directories. Adds a foreign_callers section — callers of this symbol that live in OTHER repos, repo-tagged and kept separate from the local callers (and from dependents_total) so blast radius distinguishes local from cross-repo impact. Foreign callers are name-matched without a shared linker (confidence 0.50) and make the blast radius a lower bound. Omit for single-repo impact.\",\"items\":{\"type\":\"string\"},\"type\":\"array\"}},\"required\":[\"graph_path\",\"qualified_name\"],\"type\":\"object\"}";

pub const SEARCH_CODEBASE_NAME: &'static str = "search_codebase";
pub const SEARCH_CODEBASE_DESCRIPTION: &'static str = "Stage 3d — Ranked keyword search over the code graph. USE THIS INSTEAD OF grep/ripgrep when you know a name or concept but not the exact qualified name: it ranks symbols by hybrid lexical+structural relevance and returns structural context grep cannot — kind, file path, community, process participation, score. Response: 'results' (ranked, cursor-paged), 'total_count', 'by_process' (results grouped by execution flow), and 'next_offset' when more remain — page by re-calling with offset=next_offset until it is absent (stable order: score desc, then qualified_name). TOKEN SURFACE (issue #56): detail='ids' returns only qualified names for a cheap wide sweep before drilling in; format='tabular' streams rows as arrays under a one-line 'columns' header. Narrow with label_filter (Function/Method/Struct/…). COVERAGE CAVEAT (issue #57): a symbol absent from results may simply be UNINDEXED — the graph can be parse-incomplete; if a negative result matters, check index_status / query_graph(graph=\"missed\") and grep the flagged files. DOC CONTENT (fleet-watch#112): also searches the full text of markdown/plain-text/similar doc files (label 'File' in results, kind of hit rather than a symbol) — so a query whose only evidence lives in README/skill/doc prose still returns something, not just code symbols. Built by analyze_codebase's search-index phase; a graph built without it (bare index_codebase/resolve_graph/cluster_graph) falls back to substring search over symbols only. DOC RECALL IS LEXICAL ONLY: doc bodies are indexed by BM25 but NOT by the semantic vector half, so a doc is found by words it actually contains — a query that matches it in meaning but shares no term with it will not surface it, even though a symbol can be found that way STALENESS (fleet-watch#112): the response's 'graph_freshness' object ('state': fresh|stale|unknown, plus dirty_files/checked_files/commits_behind/commits_ahead) tells you whether the working tree has moved since this graph was indexed — in EITHER direction: 'commits_ahead' > 0 means HEAD sits BEHIND the indexed commit (a checkout to an older revision), which makes the graph just as stale as a forward move. It rides on every response this tool returns, its not-found and error envelopes incl\u{75}ded — there it is what separates 'this does not exist' from 'this graph predates it'. Distinct key from index_codebase's string-valued 'graph_state'; do not type the two as one field. Prereqs: index_codebase + resolve_graph + cluster_graph (or analyze_codebase for all-in-one).";
pub const SEARCH_CODEBASE_INPUT: &'static str = "{\"additionalProperties\":false,\"properties\":{\"detail\":{\"default\":\"full\",\"description\":\"Token surface (issue #56). 'full' (default): each result as a complete object. 'ids': return ONLY the bare identifiers (qualified names) plus the total — a cheap wide sweep to enumerate what exists before drilling into specific symbols with get_symbol/get_context. Overrides 'format' (an id list needs no table).\",\"enum\":[\"full\",\"ids\"],\"type\":\"string\"},\"format\":{\"default\":\"json\",\"description\":\"Token surface (issue #56). 'json' (default): results as objects. 'tabular': declare the columns ONCE (in the response's 'columns' header) and stream each result as an array of cells in that column order — homogeneous result sets stop repeating field names, cutting tokens. Read each row positionally against 'columns'. Ignored when detail='ids'.\",\"enum\":[\"json\",\"tabular\"],\"type\":\"string\"},\"graph_path\":{\"description\":\"Path to the graph directory.\",\"type\":\"string\"},\"label_filter\":{\"description\":\"Optional: only return symbols of this kind. 'File' (fleet-watch#112) restricts to doc/prose content hits — markdown, plain text, and similar files the parser does not turn into symbols — rather than code. 'File' REQUIRES the search index built by analyze_codebase: doc text lives only in that index, never in the graph, so on a graph built without it this value is refused with an explanatory error rather than returning an empty result you could mistake for 'no doc matched'.\",\"enum\":[\"Function\",\"Method\",\"Struct\",\"Enum\",\"Trait\",\"Module\",\"Constant\",\"TypeAlias\",\"File\"],\"type\":\"string\"},\"limit\":{\"default\":20,\"description\":\"Maximum number of ranked candidate results to consider. Bounds the universe the cursor pages within.\",\"type\":\"integer\"},\"offset\":{\"default\":0,\"description\":\"Number of ranked results to skip before filling the byte budget (cursor pagination). Results are in a stable total order: descending score, then ascending qualified_name. Page through them via next_offset until it is absent.\",\"minimum\":0,\"type\":\"integer\"},\"query\":{\"description\":\"Search query — one or more keywords (e.g., 'handle_tool', 'GraphStore', 'search result').\",\"type\":\"string\"},\"sibling_graphs\":{\"description\":\"Optional cross-repo bridge: paths to sibling repo graph directories. Federates the query across them and returns a repo-tagged foreign_results section, kept separate from the primary cursored results so local pagination stays exact. Omit for single-repo search.\",\"items\":{\"type\":\"string\"},\"type\":\"array\"}},\"required\":[\"graph_path\",\"query\"],\"type\":\"object\"}";

pub const GET_CONTEXT_NAME: &'static str = "get_context";
pub const GET_CONTEXT_DESCRIPTION: &'static str = "Stage 3d — 360° symbol view: the symbol plus ALL its relationships grouped and labeled by kind — imports / imported-by, calls / called-by, implements / implemented-by, community membership, process participation. USE THIS INSTEAD OF reading a file and manually tracing what a symbol touches; it is the richest single-symbol tool (get_symbol returns raw edges, this groups them). Ideal for PRD generation, review prep, and understanding a symbol before changing it. Input: a qualified name ('file_path::symbol_name'); run search_codebase first if you only have a keyword, or get_impact for the reverse-dependency blast radius. COVERAGE CAVEAT (issue #57): grouped relationships are only as complete as the graph — a caller in a parse-incomplete file will be absent; verify negatives with index_status or query_graph(graph=\"missed\").";
pub const GET_CONTEXT_INPUT: &'static str = "{\"additionalProperties\":false,\"properties\":{\"graph_path\":{\"description\":\"Path to the graph directory.\",\"type\":\"string\"},\"qualified_name\":{\"description\":\"The qualified name of the symbol (e.g., 'src/main.rs::handle_tool_call').\",\"type\":\"string\"}},\"required\":[\"graph_path\",\"qualified_name\"],\"type\":\"object\"}";

pub const ANALYZE_CODEBASE_NAME: &'static str = "analyze_codebase";
pub const ANALYZE_CODEBASE_DESCRIPTION: &'static str = "Stage 3 — All-in-one: runs index_codebase + resolve_graph + cluster_graph in sequence, producing a fully searchable, resolved, clustered graph in ONE call. USE THIS FIRST on a new repo instead of calling the three stages separately. Auto-detects language by extension (Rust, Python, TypeScript, Java, Kotlin, Swift, Obj-C, C, C++, Go). Returns combined statistics from every phase (nodes/edges, resolution counts, communities/processes) AND a coverage report (issue #57) listing files that were parse-incomplete / skipped / quarantined. COVERAGE CAVEAT: absence of a flag is NOT a completeness guarantee — before trusting a negative graph result on a specific file, consult index_status or query_graph(graph=\"missed\") and grep the flagged files/ranges. Afterward, explore with search_codebase / get_context / get_impact / query_graph; re-run after edits (indexing is incremental by default).";
pub const ANALYZE_CODEBASE_INPUT: &'static str = "{\"additionalProperties\":false,\"properties\":{\"dependency_scope\":{},\"exclude_dirs\":{\"default\":[],\"description\":\"Issue #249 — directory paths (relative to 'path', no leading '/' or '..') or bare directory names to prune from the walk, in addition to the built-in build/dependency skip list. An entry WITHOUT a path separator (e.g. \\\"secrets\\\") is a bare name matched anywhere in the tree, like the built-in list; an entry WITH one (e.g. \\\"config/secrets\\\") matches exactly that one subtree relative to 'path'. No glob support. Exclusion WINS over every 'dependency_scope' tier, including 'full' — this is for directories that must never be read, not a performance prune. Pruned directories are NEVER silently dropped: each is reported in the coverage sidecar as skipped (reason 'user_excluded'), and the response's coverage.skipped.user_excluded_count carries the total. A directory the OS refuses to read (permission denied) is handled independently and automatically — see the coverage 'unreadable' reason — even without listing it here.\",\"items\":{\"type\":\"string\"},\"type\":\"array\"},\"incl\u{75}de_dependencies\":{},\"language\":{\"default\":\"auto\",\"description\":\"Language to parse. 'auto' detects per-file by extension (.rs, .py, .ts/.tsx, .java, .kt/.kts, .swift, .m/.mm, .c/.h, .cc/.cpp/.hpp, .go). Specific values restrict to that language only.\",\"enum\":[\"auto\",\"rust\",\"python\",\"typescript\",\"java\",\"kotlin\",\"swift\",\"objc\",\"c\",\"cpp\",\"go\"],\"type\":\"string\"},\"lsp\":{\"default\":false,\"description\":\"Enable LSP-enhanced resolution after the static resolve pass. Required for inferred Rust receiver calls; the language server must be installed. Default: false. Response lsp_status distinguishes disabled, completed, and failed (with error; analysis continues on the available graph, which may incl\u{75}de partial LSP results). Completed does not imply all sites resolved; lsp_resolve retains counts. The resolve receipt describes the static phase only.\",\"type\":\"boolean\"},\"output_dir\":{\"description\":\"Absolute directory where the graph will be stored (at <output_dir>/graph/).\",\"type\":\"string\"},\"path\":{\"description\":\"Absolute path to the codebase root to index.\",\"type\":\"string\"},\"resolution_param\":{\"default\":1.0,\"description\":\"Resolution parameter for community detection. Higher = more, smaller communities.\",\"type\":\"number\"}},\"required\":[\"path\",\"output_dir\"],\"type\":\"object\"}";

pub const DETECT_CHANGES_NAME: &'static str = "detect_changes";
pub const DETECT_CHANGES_DESCRIPTION: &'static str = "Stage 3e — Git-diff impact analysis: maps changed lines to the affected symbols, communities, and processes, so you see a diff's blast radius without reading it line by line. USE THIS INSTEAD OF eyeballing a diff to guess what a change touches. Input: either raw unified-diff text, or base_ref/head_ref to run git diff internally. Returns affected symbols with change type (added/modified/deleted), community and process membership, and a heuristic risk score (0.0–1.0) per symbol. Follow up with get_impact on a high-risk symbol to expand its reverse-dependency blast radius. COVERAGE CAVEAT (issue #57): symbols in parse-incomplete files may be missing from the mapping — verify with index_status when a change lands in a flagged file.";
pub const DETECT_CHANGES_INPUT: &'static str = "{\"additionalProperties\":false,\"properties\":{\"base_ref\":{\"default\":\"HEAD~1\",\"description\":\"Git ref for the base (e.g., 'HEAD~1', 'main', a commit hash).\",\"type\":\"string\"},\"codebase_path\":{\"description\":\"Absolute path to the git repository. Required when using base_ref/head_ref.\",\"type\":\"string\"},\"diff_text\":{\"description\":\"Raw unified diff text. Mutually exclusive with base_ref/head_ref.\",\"type\":\"string\"},\"graph_path\":{\"description\":\"Path to the graph directory (created by index_codebase or analyze_codebase).\",\"type\":\"string\"},\"head_ref\":{\"default\":\"HEAD\",\"description\":\"Git ref for the head (e.g., 'HEAD', a branch name).\",\"type\":\"string\"}},\"required\":[\"graph_path\"],\"type\":\"object\"}";

pub const LSP_RESOLVE_NAME: &'static str = "lsp_resolve";
pub const LSP_RESOLVE_DESCRIPTION: &'static str = "Stage 3b-v2 — LSP-enhanced resolution. Queries a Language Server Protocol server (rust-analyzer, pyright, typescript-language-server) to resolve method calls on inferred types that the static resolver cannot handle. Runs AFTER resolve_graph. Requires the LSP server to be installed; gracefully fails if not found.";
pub const LSP_RESOLVE_INPUT: &'static str = "{\"additionalProperties\":false,\"properties\":{\"codebase_path\":{\"description\":\"Absolute path to the codebase root.\",\"type\":\"string\"},\"graph_path\":{\"description\":\"Path to the graph directory (created by index_codebase).\",\"type\":\"string\"},\"language\":{\"default\":\"auto\",\"description\":\"Language for LSP server selection. 'auto' detects from file extensions.\",\"enum\":[\"auto\",\"rust\",\"python\",\"typescript\",\"java\",\"kotlin\",\"swift\",\"objc\",\"c\",\"cpp\",\"go\"],\"type\":\"string\"},\"lsp_command\":{\"description\":\"Override the LSP server command. Default: auto-detect (rust-analyzer, pyright, typescript-language-server).\",\"type\":\"string\"},\"timeout_ms\":{\"default\":30000,\"description\":\"Total timeout in milliseconds for LSP resolution.\",\"type\":\"integer\"}},\"required\":[\"graph_path\",\"codebase_path\"],\"type\":\"object\"}";

pub const PREPARE_PRD_INPUT_NAME: &'static str = "prepare_prd_input";
pub const PREPARE_PRD_INPUT_DESCRIPTION: &'static str = "Stage 4 — Bundle graph intel (matched symbols, impacted communities, impacted processes, graph stats) into stage-4.prd_input.json for the PRD generator. Read-only against the graph. TWO modes: (1) FINDING mode — pass finding_id to bundle a VERIFIED stage-2 finding (writes under runs/<run_id>/findings/<finding_id>/ and updates index.json); (2) FEATURE mode — pass feature_description (no finding_id) to ground a free-text feature directly on the code graph, skipping the stage-2 gate (writes under runs/<run_id>/features/<slug>/). Provide finding_id OR feature_description. Grounding trust (v1.1.0, issue #14): each `matched_symbols` entry carries `match_mode` ('verbatim' — identifier cited in backticks and resolved exactly; 'exact_name' — a description word equals the symbol's name exactly) and `confidence`; only these are counted as verified grounding. Substring/fuzzy hits with no exact-identity evidence are returned separately in `candidate_symbols` (same shape, `match_mode: 'lexical'`) and are NEVER folded into matched_symbols or into impacted_communities/impacted_processes — an empty matched_symbols is expected and correct when the description contains no cited or exactly-named identifiers. Cite identifiers in backticks in finding/feature descriptions to get verbatim-priority grounding.";
pub const PREPARE_PRD_INPUT_INPUT: &'static str = "{\"additionalProperties\":false,\"properties\":{\"feature_description\":{\"description\":\"Feature mode: free-text feature/intent to ground on the graph. Used when finding_id is absent.\",\"type\":\"string\"},\"finding_id\":{\"description\":\"Finding mode: the verified stage-2 finding to bundle. Omit for feature mode.\",\"type\":\"string\"},\"graph_path\":{\"pattern\":\"^/.+\",\"type\":\"string\"},\"output_dir\":{\"pattern\":\"^/.+\",\"type\":\"string\"},\"run_id\":{\"description\":\"Pipeline run id (path segment). Defaults to 'adhoc' in feature mode.\",\"type\":\"string\"}},\"required\":[\"output_dir\",\"graph_path\"],\"type\":\"object\"}";

pub const VALIDATE_PRD_AGAINST_GRAPH_NAME: &'static str = "validate_prd_against_graph";
pub const VALIDATE_PRD_AGAINST_GRAPH_DESCRIPTION: &'static str = "Stage 6 — Validate a PRD against the resolved+clustered graph. Three axes: (1) symbol hallucination — claimed symbols that don't exist (critical); (2) community-consistency — affected symbols spanning multiple Leiden communities (warning/critical); (3) process-impact contradiction — PRD claims 'does not affect X' while a changed symbol participates in X (critical). Contract-first on stage-5.affected_symbols.json with regex fallback from the PRD markdown. LLM-free. Read-only. When run_id+finding_id+output_dir are provided, writes stage-6.validation.json under findings/<finding_id>/.";
pub const VALIDATE_PRD_AGAINST_GRAPH_INPUT: &'static str = "{\"additionalProperties\":false,\"properties\":{\"affected_symbols_path\":{\"description\":\"Optional absolute path to stage-5.affected_symbols.json. When absent, regex fallback extracts claims from the PRD text.\",\"pattern\":\"^/.+\",\"type\":\"string\"},\"finding_id\":{\"type\":\"string\"},\"graph_path\":{\"pattern\":\"^/.+\",\"type\":\"string\"},\"output_dir\":{\"description\":\"Optional; required together with run_id + finding_id to write stage-6.validation.json.\",\"pattern\":\"^/.+\",\"type\":\"string\"},\"prd_path\":{\"pattern\":\"^/.+\",\"type\":\"string\"},\"run_id\":{\"type\":\"string\"}},\"required\":[\"prd_path\",\"graph_path\"],\"type\":\"object\"}";

pub const CHECK_SECURITY_GATES_NAME: &'static str = "check_security_gates";
pub const CHECK_SECURITY_GATES_DESCRIPTION: &'static str = "Stage 8 — Graph-aware security gates. Runs five checks on the changed_symbols list: S1 auth-critical community touch (critical), S2 unsafe-symbol touch (info-skip until parser records is_unsafe), S3 public-API surface change (warning), S4 unresolved-import introduction (warning/critical), S5 test-coverage structural gap (warning). Returns gates_passed=true iff zero critical flags. LLM-free. Read-only. When run_id+finding_id+output_dir are provided, writes stage-8.security.json.";
pub const CHECK_SECURITY_GATES_INPUT: &'static str = "{\"additionalProperties\":false,\"properties\":{\"changed_symbols\":{\"items\":{\"type\":\"string\"},\"minItems\":0,\"type\":\"array\"},\"finding_id\":{\"type\":\"string\"},\"graph_path\":{\"pattern\":\"^/.+\",\"type\":\"string\"},\"output_dir\":{\"description\":\"Optional; required together with run_id + finding_id to write stage-8.security.json.\",\"pattern\":\"^/.+\",\"type\":\"string\"},\"run_id\":{\"type\":\"string\"}},\"required\":[\"graph_path\",\"changed_symbols\"],\"type\":\"object\"}";

pub const VERIFY_SEMANTIC_DIFF_NAME: &'static str = "verify_semantic_diff";
pub const VERIFY_SEMANTIC_DIFF_DESCRIPTION: &'static str = "Stage 9 — Compare a post-implementation graph against a pre-implementation graph to flag regressions: nodes added/removed, edges added/removed, dangling references (edges whose target disappeared), new unresolved imports, and new strongly-connected cycles. Returns a heuristic regression_score (cap 10.0, thresholds: <1 clean, <5 concerning, >=5 regression). Read-only against both graphs.";
pub const VERIFY_SEMANTIC_DIFF_INPUT: &'static str = "{\"additionalProperties\":false,\"properties\":{\"after_graph_path\":{\"pattern\":\"^/.+\",\"type\":\"string\"},\"before_graph_path\":{\"pattern\":\"^/.+\",\"type\":\"string\"},\"report_path\":{\"description\":\"Optional absolute path where the full report JSON is written. If absent, the report is returned inline only.\",\"pattern\":\"^/.+\",\"type\":\"string\"}},\"required\":[\"before_graph_path\",\"after_graph_path\"],\"type\":\"object\"}";

/// How many tools the catalogue holds.
pub const TOOL_COUNT: usize = 23;

/// Where `search_codebase` stands in the catalogue.
pub const SEARCH_CODEBASE_IX: usize = 14;

/// Every tool, in the order `tools_list` gives them.
pub open spec fn tool_catalogue() -> Seq<ToolSpecView> {
    seq![
        tool_of(HEALTH_CHECK_NAME, HEALTH_CHECK_DESCRIPTION, true, HEALTH_CHECK_INPUT),
        tool_of(EXTRACT_FINDING_NAME, EXTRACT_FINDING_DESCRIPTION, false, EXTRACT_FINDING_INPUT),
        tool_of(REFINE_FINDING_NAME, REFINE_FINDING_DESCRIPTION, false, REFINE_FINDING_INPUT),
        tool_of(START_VERIFICATION_NAME, START_VERIFICATION_DESCRIPTION, false, START_VERIFICATION_INPUT),
        tool_of(APPEND_CLARIFICATION_NAME, APPEND_CLARIFICATION_DESCRIPTION, false, APPEND_CLARIFICATION_INPUT),
        tool_of(FINALIZE_VERIFICATION_NAME, FINALIZE_VERIFICATION_DESCRIPTION, false, FINALIZE_VERIFICATION_INPUT),
        tool_of(ABORT_VERIFICATION_NAME, ABORT_VERIFICATION_DESCRIPTION, false, ABORT_VERIFICATION_INPUT),
        tool_of(INDEX_CODEBASE_NAME, INDEX_CODEBASE_DESCRIPTION, false, INDEX_CODEBASE_INPUT),
        tool_of(QUERY_GRAPH_NAME, QUERY_GRAPH_DESCRIPTION, true, QUERY_GRAPH_INPUT),
        tool_of(GET_SYMBOL_NAME, GET_SYMBOL_DESCRIPTION, true, GET_SYMBOL_INPUT),
        tool_of(RESOLVE_GRAPH_NAME, RESOLVE_GRAPH_DESCRIPTION, false, RESOLVE_GRAPH_INPUT),
        tool_of(CLUSTER_GRAPH_NAME, CLUSTER_GRAPH_DESCRIPTION, false, CLUSTER_GRAPH_INPUT),
        tool_of(GET_PROCESSES_NAME, GET_PROCESSES_DESCRIPTION, true, GET_PROCESSES_INPUT),
        tool_of(GET_IMPACT_NAME, GET_IMPACT_DESCRIPTION, true, GET_IMPACT_INPUT),
        tool_of(SEARCH_CODEBASE_NAME, SEARCH_CODEBASE_DESCRIPTION, true, SEARCH_CODEBASE_INPUT),
        tool_of(GET_CONTEXT_NAME, GET_CONTEXT_DESCRIPTION, true, GET_CONTEXT_INPUT),
        tool_of(ANALYZE_CODEBASE_NAME, ANALYZE_CODEBASE_DESCRIPTION, false, ANALYZE_CODEBASE_INPUT),
        tool_of(DETECT_CHANGES_NAME, DETECT_CHANGES_DESCRIPTION, true, DETECT_CHANGES_INPUT),
        tool_of(LSP_RESOLVE_NAME, LSP_RESOLVE_DESCRIPTION, false, LSP_RESOLVE_INPUT),
        tool_of(PREPARE_PRD_INPUT_NAME, PREPARE_PRD_INPUT_DESCRIPTION, false, PREPARE_PRD_INPUT_INPUT),
        tool_of(VALIDATE_PRD_AGAINST_GRAPH_NAME, VALIDATE_PRD_AGAINST_GRAPH_DESCRIPTION, true, VALIDATE_PRD_AGAINST_GRAPH_INPUT),
        tool_of(CHECK_SECURITY_GATES_NAME, CHECK_SECURITY_GATES_DESCRIPTION, true, CHECK_SECURITY_GATES_INPUT),
        tool_of(VERIFY_SEMANTIC_DIFF_NAME, VERIFY_SEMANTIC_DIFF_DESCRIPTION, true, VERIFY_SEMANTIC_DIFF_INPUT),
    ]
}

/// The `health_check` tool.
fn health_check_schema() -> (r: ToolSpec)
    ensures
        r.view() == tool_catalogue()[0],
{
    ToolSpec { name: HEALTH_CHECK_NAME, description: HEALTH_CHECK_DESCRIPTION, read_only: true, input_schema: HEALTH_CHECK_INPUT }
}

/// The `extract_finding` tool.
fn extract_finding_schema() -> (r: ToolSpec)
    ensures
        r.view() == tool_catalogue()[1],
{
    ToolSpec { name: EXTRACT_FINDING_NAME, description: EXTRACT_FINDING_DESCRIPTION, read_only: false, input_schema: EXTRACT_FINDING_INPUT }
}

/// The `refine_finding` tool.
fn refine_finding_schema() -> (r: ToolSpec)
    ensures
        r.view() == tool_catalogue()[2],
{
    ToolSpec { name: REFINE_FINDING_NAME, description: REFINE_FINDING_DESCRIPTION, read_only: false, input_schema: REFINE_FINDING_INPUT }
}

/// The `start_verification` tool.
fn start_verification_schema() -> (r: ToolSpec)
    ensures
        r.view() == tool_catalogue()[3],
{
    ToolSpec { name: START_VERIFICATION_NAME, description: START_VERIFICATION_DESCRIPTION, read_only: false, input_schema: START_VERIFICATION_INPUT }
}

/// The `append_clarification` tool.
fn append_clarification_schema() -> (r: ToolSpec)
    ensures
        r.view() == tool_catalogue()[4],
{
    ToolSpec { name: APPEND_CLARIFICATION_NAME, description: APPEND_CLARIFICATION_DESCRIPTION, read_only: false, input_schema: APPEND_CLARIFICATION_INPUT }
}

/// The `finalize_verification` tool.
fn finalize_verification_schema() -> (r: ToolSpec)
    ensures
        r.view() == tool_catalogue()[5],
{
    ToolSpec { name: FINALIZE_VERIFICATION_NAME, description: FINALIZE_VERIFICATION_DESCRIPTION, read_only: false, input_schema: FINALIZE_VERIFICATION_INPUT }
}

/// The `abort_verification` tool.
fn abort_verification_schema() -> (r: ToolSpec)
    ensures
        r.view() == tool_catalogue()[6],
{
    ToolSpec { name: ABORT_VERIFICATION_NAME, description: ABORT_VERIFICATION_DESCRIPTION, read_only: false, input_schema: ABORT_VERIFICATION_INPUT }
}

/// The `index_codebase` tool.
fn index_codebase_schema() -> (r: ToolSpec)
    ensures
        r.view() == tool_catalogue()[7],
{
    ToolSpec { name: INDEX_CODEBASE_NAME, description: INDEX_CODEBASE_DESCRIPTION, read_only: false, input_schema: INDEX_CODEBASE_INPUT }
}

/// The `query_graph` tool.
fn query_graph_schema() -> (r: ToolSpec)
    ensures
        r.view() == tool_catalogue()[8],
{
    ToolSpec { name: QUERY_GRAPH_NAME, description: QUERY_GRAPH_DESCRIPTION, read_only: true, input_schema: QUERY_GRAPH_INPUT }
}

/// The `get_symbol` tool.
fn get_symbol_schema() -> (r: ToolSpec)
    ensures
        r.view() == tool_catalogue()[9],
{
    ToolSpec { name: GET_SYMBOL_NAME, description: GET_SYMBOL_DESCRIPTION, read_only: true, input_schema: GET_SYMBOL_INPUT }
}

/// The `resolve_graph` tool.
fn resolve_graph_schema() -> (r: ToolSpec)
    ensures
        r.view() == tool_catalogue()[10],
{
    ToolSpec { name: RESOLVE_GRAPH_NAME, description: RESOLVE_GRAPH_DESCRIPTION, read_only: false, input_schema: RESOLVE_GRAPH_INPUT }
}

/// The `cluster_graph` tool.
fn cluster_graph_schema() -> (r: ToolSpec)
    ensures
        r.view() == tool_catalogue()[11],
{
    ToolSpec { name: CLUSTER_GRAPH_NAME, description: CLUSTER_GRAPH_DESCRIPTION, read_only: false, input_schema: CLUSTER_GRAPH_INPUT }
}

/// The `get_processes` tool.
fn get_processes_schema() -> (r: ToolSpec)
    ensures
        r.view() == tool_catalogue()[12],
{
    ToolSpec { name: GET_PROCESSES_NAME, description: GET_PROCESSES_DESCRIPTION, read_only: true, input_schema: GET_PROCESSES_INPUT }
}

/// The `get_impact` tool.
fn get_impact_schema() -> (r: ToolSpec)
    ensures
        r.view() == tool_catalogue()[13],
{
    ToolSpec { name: GET_IMPACT_NAME, description: GET_IMPACT_DESCRIPTION, read_only: true, input_schema: GET_IMPACT_INPUT }
}

/// The `search_codebase` tool.
pub fn search_codebase_schema() -> (r: ToolSpec)
    ensures
        r.view() == tool_catalogue()[14],
{
    ToolSpec { name: SEARCH_CODEBASE_NAME, description: SEARCH_CODEBASE_DESCRIPTION, read_only: true, input_schema: SEARCH_CODEBASE_INPUT }
}

/// The `get_context` tool.
fn get_context_schema() -> (r: ToolSpec)
    ensures
        r.view() == tool_catalogue()[15],
{
    ToolSpec { name: GET_CONTEXT_NAME, description: GET_CONTEXT_DESCRIPTION, read_only: true, input_schema: GET_CONTEXT_INPUT }
}

/// The `analyze_codebase` tool.
fn analyze_codebase_schema() -> (r: ToolSpec)
    ensures
        r.view() == tool_catalogue()[16],
{
    ToolSpec { name: ANALYZE_CODEBASE_NAME, description: ANALYZE_CODEBASE_DESCRIPTION, read_only: false, input_schema: ANALYZE_CODEBASE_INPUT }
}

/// The `detect_changes` tool.
fn detect_changes_schema() -> (r: ToolSpec)
    ensures
        r.view() == tool_catalogue()[17],
{
    ToolSpec { name: DETECT_CHANGES_NAME, description: DETECT_CHANGES_DESCRIPTION, read_only: true, input_schema: DETECT_CHANGES_INPUT }
}

/// The `lsp_resolve` tool.
fn lsp_resolve_schema() -> (r: ToolSpec)
    ensures
        r.view() == tool_catalogue()[18],
{
    ToolSpec { name: LSP_RESOLVE_NAME, description: LSP_RESOLVE_DESCRIPTION, read_only: false, input_schema: LSP_RESOLVE_INPUT }
}

/// The `prepare_prd_input` tool.
fn prepare_prd_input_schema() -> (r: ToolSpec)
    ensures
        r.view() == tool_catalogue()[19],
{
    ToolSpec { name: PREPARE_PRD_INPUT_NAME, description: PREPARE_PRD_INPUT_DESCRIPTION, read_only: false, input_schema: PREPARE_PRD_INPUT_INPUT }
}

/// The `validate_prd_against_graph` tool.
fn validate_prd_against_graph_schema() -> (r: ToolSpec)
    ensures
        r.view() == tool_catalogue()[20],
{
    ToolSpec { name: VALIDATE_PRD_AGAINST_GRAPH_NAME, description: VALIDATE_PRD_AGAINST_GRAPH_DESCRIPTION, read_only: true, input_schema: VALIDATE_PRD_AGAINST_GRAPH_INPUT }
}

/// The `check_security_gates` tool.
fn check_security_gates_schema() -> (r: ToolSpec)
    ensures
        r.view() == tool_catalogue()[21],
{
    ToolSpec { name: CHECK_SECURITY_GATES_NAME, description: CHECK_SECURITY_GATES_DESCRIPTION, read_only: true, input_schema: CHECK_SECURITY_GATES_INPUT }
}

/// The `verify_semantic_diff` tool.
fn verify_semantic_diff_schema() -> (r: ToolSpec)
    ensures
        r.view() == tool_catalogue()[22],
{
    ToolSpec { name: VERIFY_SEMANTIC_DIFF_NAME, description: VERIFY_SEMANTIC_DIFF_DESCRIPTION, read_only: true, input_schema: VERIFY_SEMANTIC_DIFF_INPUT }
}

/// Every tool the server offers, in order.
pub fn tools_list() -> (r: Vec<ToolSpec>)
    ensures
        tool_views(r@) == tool_catalogue(),
        r@.len() == TOOL_COUNT,
{
    let r: Vec<ToolSpec> = vec![
        health_check_schema(),
        extract_finding_schema(),
        refine_finding_schema(),
        start_verification_schema(),
        append_clarification_schema(),
        finalize_verification_schema(),
        abort_verification_schema(),
        index_codebase_schema(),
        query_graph_schema(),
        get_symbol_schema(),
        resolve_graph_schema(),
        cluster_graph_schema(),
        get_processes_schema(),
        get_impact_schema(),
        search_codebase_schema(),
        get_context_schema(),
        analyze_codebase_schema(),
        detect_changes_schema(),
        lsp_resolve_schema(),
        prepare_prd_input_schema(),
        validate_prd_against_graph_schema(),
        check_security_gates_schema(),
        verify_semantic_diff_schema(),
    ];
    proof {
        assert(tool_views(r@) =~= tool_catalogue());
    }
    r
}

/// The pair of characters that ends a sentence: a full stop and a space.
pub open spec fn sentence_break() -> Seq<char> {
    seq!['.', ' ']
}

/// The first position at or after `i` where a sentence ends in `d`.
pub open spec fn break_from(d: Seq<char>, i: int) -> Option<int>
    decreases d.len() - i,
{
    if i < 0 || i + 2 > d.len() {
        None
    } else if occurs_at(d, sentence_break(), i) {
        Some(i)
    } else {
        break_from(d, i + 1)
    }
}

/// The first sentence of `d`: the text before the first ". ", with its full
/// stop; all of `d` when no ". " occurs.
pub open spec fn first_sentence(d: Seq<char>) -> Seq<char> {
    match break_from(d, 0) {
        Some(i) => d.take(i).push('.'),
        None => d,
    }
}

proof fn lemma_break_from(d: Seq<char>, k: int)
    requires
        0 <= k,
    ensures
        (forall|j: int| k <= j ==> !occurs_at(d, sentence_break(), j)) ==> break_from(d, k) is None,
        forall|i: int| k <= i && occurs_at(d, sentence_break(), i)
            && (forall|j: int| k <= j < i ==> !occurs_at(d, sentence_break(), j))
            ==> break_from(d, k) == Some(i),
    decreases d.len() - k,
{
    if k + 2 <= d.len() && !occurs_at(d, sentence_break(), k) {
        lemma_break_from(d, k + 1);
    }
}

/// The first sentence of the description `d`.
fn first_sentence_of(d: &str) -> (r: String)
    ensures
        r@ == first_sentence(d@),
{
    let chars = chars_of(d);
    let p: Vec<char> = vec!['.', ' '];
    proof {
        assert(p@ =~= sentence_break());
        lemma_break_from(d@, 0);
    }
    match find_from(chars.as_slice(), p.as_slice(), 0) {
        Some(k) => {
            let head = slice_to_vec(chars.as_slice(), 0, k);
            let mut s = string_from_chars(head.as_slice());
            push_char(&mut s, '.');
            proof {
                assert(head@ =~= d@.take(k as int));
            }
            s
        },
        None => to_owned_string(d),
    }
}

/// The one-line summary of the tool named `name`: the first sentence of the
/// description of the first tool with that name; `None` when no tool has it.
pub fn tool_summary(name: &str) -> (r: Option<String>)
    ensures
        (r is Some) <==> exists|i: int| 0 <= i < tool_catalogue().len() && (#[trigger] tool_catalogue()[i]).name == name@,
        r matches Some(s) ==> exists|i: int| 0 <= i < tool_catalogue().len()
            && (#[trigger] tool_catalogue()[i]).name == name@
            && (forall|j: int| 0 <= j < i ==> tool_catalogue()[j].name != name@)
            && s@ == first_sentence(tool_catalogue()[i].description),
{
    let tools = tools_list();
    let mut i: usize = 0;
    while i < tools.len()
        invariant
            tool_views(tools@) == tool_catalogue(),
            i <= tools@.len(),
            forall|j: int| 0 <= j < i ==> tool_catalogue()[j].name != name@,
        decreases tools@.len() - i,
    {
        let t = tools[i];
        proof {
            assert(tool_catalogue()[i as int] == t.view());
        }
        if str_eq(t.name, name) {
            return Some(first_sentence_of(t.description));
        }
        i += 1;
    }
    None
}

} // verus!
