//! Operator tooling for a delta-state JSON CRDT repository.
//!
//! The crate resolves storage locators, walks the block provenance graph,
//! orchestrates conflict resolution, and follows an object's revision chain.
//! The CRDT engine itself (delta computation, merging, physical storage) is
//! an external collaborator reached through a small set of trusted wrappers.

pub mod chain;
pub mod conflict;
pub mod errors;
pub mod graph;
pub mod locator;
pub mod revid;
pub mod trusted;
pub mod workflow;

use vstd::prelude::*;

verus! {

/// The contents of a sequence of strings, as sequences of characters.
pub open spec fn str_views(v: Seq<String>) -> Seq<Seq<char>> {
    v.map_values(|s: String| s@)
}

} // verus!
