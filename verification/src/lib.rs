//! A verified file-indexing and resurfacing engine.
//!
//! The crate keeps a full-text-searchable index of file records with
//! upsert/merge semantics, applies debounced filesystem change events to it,
//! and selects previously idle files to surface back to the user through a
//! deterministic multi-heuristic selector.

pub mod clock;
pub mod extract;
pub mod index;
pub mod order;
pub mod records;
pub mod resurface;
pub mod text;
pub mod watcher;
