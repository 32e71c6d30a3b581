//! The capability bundle shared by values the registry stores.

use vstd::prelude::*;

verus! {

/// A value fit to travel with a peer record: comparable by equality,
/// cloneable, and hashable, so that it can key a lookup and cross a
/// thread boundary by copy. Every type with those capabilities is a
/// `DataType`; nothing more is asked of one.
pub trait DataType: Eq + Clone + core::hash::Hash {

}

impl<N: Eq + Clone + core::hash::Hash> DataType for N {

}

} // verus!
