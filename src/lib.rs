//! Whole-program audit engine: builds a call graph from per-function call
//! records, prunes the part of it that only compiler glue reaches, and walks
//! it from the entry points to classify every call into a function that
//! requires an audit as escorted by an auditor or not.

pub mod analyzer;
pub mod builder;
pub mod graph;
pub mod laws;
pub mod prune;
pub mod summaries;
pub mod sysroot;
pub mod text;
pub mod traverse;
