//! A peer-membership registry for a distributed network node.
//!
//! The registry tracks which peers exist and how to address them. It
//! enforces identity uniqueness, keeps keyed and positional lookup in
//! agreement, iterates in insertion order, and can be bulk-populated from
//! a persisted membership artifact with all-or-nothing semantics.

pub mod data;
pub mod errors;
pub mod laws;
pub mod loader;
pub mod peer;
pub mod registry;

use vstd::prelude::*;

verus! {

/// A capability marker for types that carry no behaviour of their own:
/// an anchor for higher-ranked bounds on otherwise plain types.
pub trait Stub {

}

} // verus!
