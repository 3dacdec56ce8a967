//! Conversion planning for delimited text files bound for a columnar store.
//!
//! The crate holds the rules of the conversion and proves them: how the
//! per-column type directives of a run are reconciled, how they are laid over a
//! schema that was inferred from data, how output names are derived, in which
//! order the steps of one file's conversion follow each other, and how an input
//! is read twice from its first byte, plain or gzip-compressed.

pub mod directives;
pub mod names;
pub mod overrides;
pub mod plan;
pub mod rewrite;
pub mod schema;
pub mod source;
