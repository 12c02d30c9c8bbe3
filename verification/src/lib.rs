//! Verified core of a fork-aware transaction pool.
//!
//! The pool keeps one validated view per tracked block, a tip-independent
//! buffer of outstanding transactions, and a listener that merges the status
//! streams of all views into one stream per watched transaction. This crate
//! holds the decisions of those three components as plain state machines with
//! machine-checked contracts. Everything that suspends (validation calls,
//! stream polling, locks) is left to the caller, which feeds the results back
//! as plain values.

pub mod primitives;
pub mod transaction_validity;
pub mod api;
pub mod hash_set;
pub mod hash_map;
pub mod watcher;
pub mod watcher_laws;
pub mod multi_view_listener;
pub mod multi_view_listener_laws;
pub mod tx_mem_pool;
pub mod tx_mem_pool_laws;
pub mod view;
pub mod view_laws;

