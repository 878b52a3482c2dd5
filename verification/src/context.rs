//! What a running system sees: the world, the resources and a buffer for
//! deferred changes, all behind the grants of the system's access signature.

use vstd::prelude::*;
use crate::access::{Access, AccessSets};
use crate::commands::{settle, Change, Commands};
use crate::entity::{ComponentType, Entity, ResourceType};
use crate::query::{selection, selects};
use crate::resources::ResourceTable;
use crate::state::WorldState;
use crate::world::World;

verus! {

/// The mathematical content of a context.
pub struct ContextState<C, R> {
    /// The entities and their components.
    pub world: WorldState<C>,
    /// The resources, by type.
    pub resources: Map<ResourceType, R>,
    /// The structural changes recorded since the last boundary.
    pub changes: Seq<Change<C>>,
    /// The access signature whose grants are in force.
    pub granted: AccessSets,
    /// The time that passed since the previous tick, in nanoseconds.
    pub delta: u64,
}

impl<C, R> ContextState<C, R> {
    /// The state with the grants of another signature in force.
    pub open spec fn with_grants(self, granted: AccessSets) -> Self {
        ContextState { granted, ..self }
    }

    /// The state with another time step.
    pub open spec fn with_delta(self, delta: u64) -> Self {
        ContextState { delta, ..self }
    }

    /// The state after a boundary: the recorded changes are replayed in
    /// order, the entities marked for removal are removed, and the buffer is
    /// empty again.
    pub open spec fn settled(self) -> Self {
        ContextState { world: settle(self.world, self.changes), changes: Seq::empty(), ..self }
    }

    /// The state with another world.
    pub open spec fn with_world(self, world: WorldState<C>) -> Self {
        ContextState { world, ..self }
    }

    /// The state with another set of resources.
    pub open spec fn with_resources(self, resources: Map<ResourceType, R>) -> Self {
        ContextState { resources, ..self }
    }

    /// The state with one more recorded change.
    pub open spec fn with_change(self, change: Change<C>) -> Self {
        ContextState { changes: self.changes.push(change), ..self }
    }
}

/// The data of a run, as one system at a time sees it.
pub struct Context<C, R> {
    world: World<C>,
    resources: ResourceTable<R>,
    commands: Commands<C>,
    granted: Access,
    delta: u64,
}

impl<C, R> View for Context<C, R> {
    type V = ContextState<C, R>;

    closed spec fn view(&self) -> ContextState<C, R> {
        ContextState {
            world: self.world@,
            resources: self.resources@,
            changes: self.commands@,
            granted: self.granted@,
            delta: self.delta,
        }
    }
}

impl<C, R> Context<C, R> {
    /// Whether the context is well formed.
    pub open spec fn wf(&self) -> bool {
        self@.world.wf()
    }

    /// The content of a new context: an empty world, no resources, no
    /// recorded change, no grant, no time step.
    pub open spec fn new_spec() -> ContextState<C, R> {
        ContextState {
            world: WorldState::empty(),
            resources: Map::empty(),
            changes: Seq::empty(),
            granted: AccessSets::nothing(),
            delta: 0,
        }
    }

    /// A context with an empty world, no resources, no recorded change and
    /// no grant.
    pub fn new() -> (ctx: Context<C, R>)
        ensures
            ctx.wf(),
            ctx@ == Self::new_spec(),
    {
        Context {
            world: World::new(),
            resources: ResourceTable::new(),
            commands: Commands::new(),
            granted: Access::new(),
            delta: 0,
        }
    }

    /// The world, for inspection.
    pub fn world(&self) -> (world: &World<C>)
        ensures
            world@ == self@.world,
    {
        &self.world
    }

    /// The resources, for inspection.
    pub fn resources(&self) -> (resources: &ResourceTable<R>)
        ensures
            resources@ == self@.resources,
    {
        &self.resources
    }

    /// The time that passed since the previous tick, in nanoseconds.
    pub fn delta(&self) -> (delta: u64)
        ensures
            delta == self@.delta,
    {
        self.delta
    }

    /// The access signature whose grants are in force.
    pub fn granted(&self) -> (access: &Access)
        ensures
            access@ == self@.granted,
    {
        &self.granted
    }

    /// The number of changes recorded since the last boundary.
    pub fn pending(&self) -> (n: usize)
        ensures
            n == self@.changes.len(),
    {
        self.commands.len()
    }

    /// Puts the grants of `access` in force.
    pub fn grant(&mut self, access: Access)
        ensures
            final(self)@ == old(self)@.with_grants(access@),
    {
        self.granted = access;
    }

    /// Sets the time step of the coming tick.
    pub fn set_delta(&mut self, delta: u64)
        ensures
            final(self)@ == old(self)@.with_delta(delta),
    {
        self.delta = delta;
    }

    /// Stores a resource, whatever grants are in force, and returns the
    /// value it replaces.
    pub fn insert_resource(&mut self, kind: ResourceType, value: R) -> (previous: Option<R>)
        ensures
            final(self)@ == old(self)@.with_resources(old(self)@.resources.insert(kind, value)),
            previous == if old(self)@.resources.contains_key(kind) {
                Some(old(self)@.resources[kind])
            } else {
                None
            },
    {
        self.resources.insert(kind, value)
    }

    /// Removes a resource, whatever grants are in force, and returns it.
    pub fn remove_resource(&mut self, kind: ResourceType) -> (previous: Option<R>)
        ensures
            final(self)@ == old(self)@.with_resources(old(self)@.resources.remove(kind)),
            previous == if old(self)@.resources.contains_key(kind) {
                Some(old(self)@.resources[kind])
            } else {
                None
            },
    {
        self.resources.remove(kind)
    }

    /// Crosses a boundary: replays the recorded changes in order, removes
    /// the entities marked for removal, and empties the buffer.
    pub fn settle(&mut self)
        requires
            old(self).wf(),
        ensures
            final(self).wf(),
            final(self)@ == old(self)@.settled(),
    {
        let mut commands = Commands::new();
        std::mem::swap(&mut commands, &mut self.commands);
        self.world.apply(commands);
    }

    /// The entities that the granted signature selects, in creation order.
    pub fn select(&self) -> (chosen: Vec<Entity>)
        ensures
            chosen@ == selection(self@.world, self@.granted),
    {
        self.world.select(&self.granted)
    }

    /// One step of the granted query: the position in the creation order of
    /// the first selected entity at or after `from`, and that entity.
    pub fn next_selected(&self, from: usize) -> (found: Option<(usize, Entity)>)
        ensures
            match found {
                Some((p, e)) => {
                    &&& from <= p < self@.world.order.len()
                    &&& e == self@.world.order[p as int]
                    &&& selects(self@.world, self@.granted, e)
                    &&& forall|q: int|
                        from <= q < p ==> !selects(
                            self@.world,
                            self@.granted,
                            #[trigger] self@.world.order[q],
                        )
                },
                None => forall|q: int|
                    from <= q < self@.world.order.len() ==> !selects(
                        self@.world,
                        self@.granted,
                        #[trigger] self@.world.order[q],
                    ),
            },
    {
        match self.world.next_selected(&self.granted, from) {
            Some(p) => {
                let e = self.world.entity_at(p).unwrap();
                Some((p, e))
            },
            None => None,
        }
    }

    /// Whether `e` is live and carries a component of type `kind`. Presence
    /// is no data access and needs no grant.
    pub fn has(&self, e: Entity, kind: ComponentType) -> (b: bool)
        ensures
            b == self@.world.has(e, kind),
    {
        self.world.has(e, kind)
    }

    /// Shared access to a component, if the grants allow reading its type.
    pub fn read(&self, e: Entity, kind: ComponentType) -> (found: Option<&C>)
        ensures
            found.is_some() == (self@.granted.may_read(kind) && self@.world.has(e, kind)),
            found.is_some() ==> Some(*found.unwrap()) == self@.world.component(e, kind),
    {
        self.world.fetch(&self.granted, e, kind)
    }

    /// Exclusive access to a component, if the grants allow writing its type.
    pub fn write(&mut self, e: Entity, kind: ComponentType) -> (found: Option<&mut C>)
        requires
            old(self).wf(),
        ensures
            found.is_some() == (old(self)@.granted.may_write(kind) && old(self)@.world.has(e, kind)),
            found.is_some() ==> Some(*found.unwrap()) == old(self)@.world.component(e, kind),
            found.is_some() ==> final(self)@ == old(self)@.with_world(
                old(self)@.world.attach(e, kind, *final(found.unwrap())),
            ),
            found.is_none() ==> final(self)@ == old(self)@,
            final(self).wf(),
    {
        self.world.fetch_mut(&self.granted, e, kind)
    }

    /// Shared access to a resource, if the grants allow reading it.
    pub fn resource(&self, kind: ResourceType) -> (found: Option<&R>)
        ensures
            found.is_some() == (self@.granted.may_read_resource(kind)
                && self@.resources.contains_key(kind)),
            found.is_some() ==> *found.unwrap() == self@.resources[kind],
    {
        if self.granted.may_read_resource(kind) {
            self.resources.get(kind)
        } else {
            None
        }
    }

    /// Exclusive access to a resource, if the grants allow writing it.
    pub fn resource_mut(&mut self, kind: ResourceType) -> (found: Option<&mut R>)
        ensures
            found.is_some() == (old(self)@.granted.may_write_resource(kind)
                && old(self)@.resources.contains_key(kind)),
            found.is_some() ==> *found.unwrap() == old(self)@.resources[kind],
            found.is_some() ==> final(self)@ == old(self)@.with_resources(
                old(self)@.resources.insert(kind, *final(found.unwrap())),
            ),
            found.is_none() ==> final(self)@ == old(self)@,
    {
        if self.granted.may_write_resource(kind) {
            self.resources.get_mut(kind)
        } else {
            None
        }
    }

    /// Records the spawning of an entity; it takes place at the boundary.
    pub fn spawn(&mut self, bundle: Vec<(ComponentType, C)>)
        ensures
            final(self)@ == old(self)@.with_change(Change::Spawn(bundle@)),
    {
        self.commands.spawn(bundle);
    }

    /// Records the removal of an entity; it takes place at the boundary.
    pub fn despawn(&mut self, e: Entity)
        ensures
            final(self)@ == old(self)@.with_change(Change::Despawn(e)),
    {
        self.commands.despawn(e);
    }

    /// Records the attaching of a component; it takes place at the boundary.
    pub fn attach(&mut self, e: Entity, kind: ComponentType, value: C)
        ensures
            final(self)@ == old(self)@.with_change(Change::Attach(e, kind, value)),
    {
        self.commands.attach(e, kind, value);
    }

    /// Records the detaching of a component; it takes place at the boundary.
    pub fn detach(&mut self, e: Entity, kind: ComponentType)
        ensures
            final(self)@ == old(self)@.with_change(Change::Detach(e, kind)),
    {
        self.commands.detach(e, kind);
    }
}

} // verus!
