//! The resource table: at most one shared value per resource type.

use vstd::prelude::*;
use crate::entity::{ComponentType, ResourceType};
use crate::sparse::{held, holds, peek, peek_mut, put, take};

verus! {

/// Singleton values keyed by resource type.
pub struct ResourceTable<R> {
    cells: Vec<Option<R>>,
}

/// The resources held by a sparse array, by resource type.
spec fn resources_of<R>(cells: Seq<Option<R>>) -> Map<ResourceType, R> {
    Map::new(
        |k: ResourceType| held(cells).contains_key(ComponentType(k.0)),
        |k: ResourceType| held(cells)[ComponentType(k.0)],
    )
}

impl<R> View for ResourceTable<R> {
    type V = Map<ResourceType, R>;

    closed spec fn view(&self) -> Map<ResourceType, R> {
        resources_of(self.cells@)
    }
}

impl<R> ResourceTable<R> {
    /// A table without resources.
    pub fn new() -> (table: ResourceTable<R>)
        ensures
            table@ == Map::<ResourceType, R>::empty(),
    {
        let table = ResourceTable { cells: Vec::new() };
        assert(table@ =~= Map::<ResourceType, R>::empty());
        table
    }

    /// Stores `value` as the resource of type `kind` and returns the value
    /// it replaces, if any.
    pub fn insert(&mut self, kind: ResourceType, value: R) -> (previous: Option<R>)
        ensures
            final(self)@ == old(self)@.insert(kind, value),
            previous == if old(self)@.contains_key(kind) {
                Some(old(self)@[kind])
            } else {
                None
            },
    {
        let previous = put(&mut self.cells, ComponentType(kind.0), value);
        assert(self@ =~= old(self)@.insert(kind, value));
        previous
    }

    /// Whether a resource of type `kind` is present.
    pub fn contains(&self, kind: ResourceType) -> (b: bool)
        ensures
            b == self@.contains_key(kind),
    {
        holds(&self.cells, ComponentType(kind.0))
    }

    /// The resource of type `kind`, if present.
    pub fn get(&self, kind: ResourceType) -> (found: Option<&R>)
        ensures
            found.is_some() == self@.contains_key(kind),
            found.is_some() ==> *found.unwrap() == self@[kind],
    {
        peek(&self.cells, ComponentType(kind.0))
    }

    /// Exclusive access to the resource of type `kind`, if present. Whatever
    /// is written through the access becomes the resource's value.
    pub fn get_mut(&mut self, kind: ResourceType) -> (found: Option<&mut R>)
        ensures
            found.is_some() == old(self)@.contains_key(kind),
            found.is_some() ==> *found.unwrap() == old(self)@[kind],
            found.is_some() ==> final(self)@ =~= old(self)@.insert(kind, *final(found.unwrap())),
            found.is_none() ==> final(self)@ =~= old(self)@,
    {
        peek_mut(&mut self.cells, ComponentType(kind.0))
    }

    /// Removes and returns the resource of type `kind`, if present.
    pub fn remove(&mut self, kind: ResourceType) -> (previous: Option<R>)
        ensures
            final(self)@ == old(self)@.remove(kind),
            previous == if old(self)@.contains_key(kind) {
                Some(old(self)@[kind])
            } else {
                None
            },
    {
        let previous = take(&mut self.cells, ComponentType(kind.0));
        assert(self@ =~= old(self)@.remove(kind));
        previous
    }
}

} // verus!
