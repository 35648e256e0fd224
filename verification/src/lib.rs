//! Builds a hierarchical documentation model out of a flat list of Lua
//! type-annotation definition records.
//!
//! The pipeline groups raw definition records by the source file they were
//! declared in (`workspace`), turns each record into a typed documentation
//! item (`doctree`), attaches separately-declared fields and methods to their
//! owning items and merges redundant table/class pairs (`passes`), and nests
//! the per-file results into a tree by path depth (`tree`).

pub mod builder;
pub mod doctree;
pub mod errors;
pub mod json;
pub mod keyed;
pub mod location;
pub mod passes;
pub mod strutil;
pub mod tree;
pub mod workspace;
