//! Counts physical lines of code under a directory tree, classified
//! by language.
//!
//! This crate is the verified core of the tool: byte-level line
//! counting, extension-based language classification, compiled
//! exclusion rules, the walker's per-entry decisions, and the merge
//! of per-worker tallies into one sorted result with totals. The
//! surrounding binary walks the tree, reads the files and renders the
//! output, and calls in here for every decision and every count.

pub mod filter;
pub mod lang;
pub mod laws;
pub mod lines;
pub mod output;
pub mod tally;
pub mod walk;
