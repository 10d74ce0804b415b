//! Symbol search support: tokenization for the full-text and vector
//! indexes, the rank lists fused by reciprocal rank fusion, and the 360°
//! context of one symbol read off the code graph.

pub mod bm25;
pub mod context;
pub mod rrf;
pub mod vector;
pub mod format;
pub mod lookup;

pub use bm25::extract_file_path;
