//! An in-process query execution engine: a typed schema catalog over
//! per-type collections of JSON-like records, an identity index for
//! reference resolution, and a recursive selection-traversal interpreter.

pub mod canonical;
pub mod config;
pub mod resolver;
pub mod schema;
pub mod search;
pub mod structure;
pub mod indexing;
pub mod laws;
pub mod parsing;
pub mod text;
pub mod value;
