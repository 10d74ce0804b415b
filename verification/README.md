# automatised_pipeline

A code-intelligence core verified with Verus: language front ends that read
symbols and references off tree-sitter syntax trees, cross-file symbol
resolution over a code graph, graph queries for search context, PRD
validation, security gates, and before/after graph diffing. Every function in
`src/` carries a `requires`/`ensures` contract stated over plain-value models
(`Seq`, `Set`, `Map`, spec functions), and Verus proves each body against it.

## Layout

- `src/text.rs` — character-level string helpers and their specifications.
- `src/parser/` — the shared output model (`syntax.rs`), the trusted
  tree-sitter wrappers (`grammars.rs`), one front end per language (`rust`,
  `python`, `typescript`, `go`, `java`, `c`, `cpp`, `kotlin`, `objc`), the
  dispatch `parse_file` (`mod.rs`), the numbering of functions, methods and
  call sites (`numbering.rs`), the Rust attribute reading (entry points and
  derives, `rust_attrs.rs`) and the well-formedness of what a Rust file yields
  (`rust_laws.rs`). Each front end is a spec function from syntax
  tree to output and an executable walker proved equal to it.
- `src/graph.rs` — the code-graph model read by the later stages.
- `src/resolver.rs`, `src/resolver_layers.rs`, `src/stdlib_index*` — import,
  call, implements, extends and uses resolution, macro expansion and the
  standard-library tables.
- `src/search/` — tokenization, the on-disk vector-index byte format,
  candidate lookup and symbol context.
- `src/prd_input.rs`, `src/prd_validator.rs`, `src/security_gates.rs`,
  `src/semantic_diff.rs`, `src/sorting.rs` — the pipeline stages and their
  helpers.
- `src/tool_schemas.rs` — the catalogue of tools the server offers (name,
  description, access, input schema) and each tool's one-line summary.
- `src/scc.rs`, `src/scc_inv.rs` — Tarjan's strongly connected components and
  the proof that the components it emits are exactly the classes of mutual
  reachability.
- `app/` — the I/O edge: reading graphs and artifacts from disk, the tantivy
  full-text index, floating-point ranking, and JSON output.
- `tests/` — executable tests of the library.

## Trusted items

The library trusts the contracts of a small set of wrappers: the tree-sitter
parse of each grammar (its tree is named, not described), the Unicode
upper-case and alphabetic classes and lower-casing beyond ASCII, UTF-8
conversion, and the clock. Each carries a
doc comment saying what it claims.
