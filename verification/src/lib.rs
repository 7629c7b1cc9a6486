//! Verified core of a k-mer sketch index exporter: every stored hash of one
//! or more source indexes is resolved to the datasets containing it, joined
//! to taxonomic lineages, classified by the lowest common ancestor of those
//! lineages, buffered into row groups for one columnar output file, and
//! counted into per-source summaries that are grouped and combined by the
//! sources' structural parameters.
//!
//! The scanning loops, the storage engine, the columnar file writing and all
//! other I/O live outside this crate; this crate holds the decisions and the
//! computations, each with its contract.

pub mod aggregate;
pub mod catalog;
pub mod lca;
pub mod scanner;
pub mod summary;
pub mod taxonomy;
pub mod text;
pub mod writer;
