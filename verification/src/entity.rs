//! Entity and type identifiers.

use vstd::prelude::*;

verus! {

/// An opaque identifier: a slot index paired with the generation of that
/// slot, so that a recycled index yields a different identifier.
#[derive(Clone, Copy, Debug, PartialEq, Eq, Structural)]
pub struct Entity {
    pub index: usize,
    pub generation: u64,
}

/// A type identifier under which component values are stored.
#[derive(Clone, Copy, Debug, PartialEq, Eq, Structural)]
pub struct ComponentType(pub u16);

/// A type identifier under which a resource is stored.
#[derive(Clone, Copy, Debug, PartialEq, Eq, Structural)]
pub struct ResourceType(pub u16);

} // verus!
