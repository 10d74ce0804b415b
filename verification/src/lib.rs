//! Code-intelligence core: language detection, symbol resolution, graph
//! queries, search tokenization, PRD validation, security gates and
//! before/after graph diffing, all stated over plain-value models.

pub mod text;
pub mod parser;
pub mod stdlib_index;
pub mod graph;
pub mod resolver;
pub mod clock;
pub mod scc;
pub mod scc_inv;
pub mod semantic_diff;
pub mod sorting;
pub mod search;
pub mod prd_input;
pub mod prd_validator;
pub mod security_gates;
pub mod resolver_layers;
pub mod tool_schemas;
