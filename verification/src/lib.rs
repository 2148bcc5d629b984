//! AST-aware extraction of code blocks around matched source lines.

pub mod block;
pub mod cache;
pub mod cached;
pub mod candidate;
pub mod cli;
pub mod context;
pub mod dedupe;
pub mod error;
pub mod extract;
pub mod file_processing;
pub mod filter;
pub mod hash;
pub mod language;
pub mod laws;
pub mod line_map;
pub mod lines;
pub mod merge;
pub mod order;
pub mod parser;
pub mod parsing;
pub mod positions;
pub mod priority;
pub mod registry;
pub mod results;
pub mod text;
pub mod tree;
pub mod tree_cache;
