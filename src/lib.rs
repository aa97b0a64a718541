//! Reconciliation of a ledger journal against freshly imported staging entries.
//!
//! The library holds the entry model, the normalisation of entries into date
//! buckets, a generic ordered merge, the match predicate between a journal entry
//! and a staging entry, the reconciliation of two sources, the commit of one
//! staging entry into journal form, the ledger text of an entry, and the live
//! set of pending entries with what a review interface shows of them.

pub mod api;
pub mod bucket;
pub mod commit;
pub mod config;
pub mod entry;
pub mod laws;
pub mod matching;
pub mod merge_diff;
pub mod metadata;
pub mod model;
pub mod pending;
pub mod reconcile;
pub mod render;
pub mod sequence;
pub mod sorting;
