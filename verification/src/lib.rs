//! Code graph library: a symbol/call-graph model of a workspace, graph slicing,
//! name-based call resolution, and budget-aware context packing for LLM prompts.

pub mod strings;
pub mod paths;
pub mod model;
pub mod slice;
pub mod noop;
pub mod unicode;
pub mod text;
pub mod context;
pub mod ranking;
pub mod protocol;
pub mod render;
pub mod packing;
pub mod sorting;
pub mod sections;
pub mod roots;
pub mod snippet;
pub mod retrieval;
pub mod hybrid;
pub mod markdown;
pub mod backend;
pub mod hashing;
pub mod index;
pub mod storage;
pub mod diff;
pub mod resolution;
pub mod affected;
pub mod tools;
pub mod lsp;
pub mod mcp;
pub mod rust_syntax;
pub mod rust_parser;
pub mod stored_index;
pub mod store_rows;
