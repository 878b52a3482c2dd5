//! The mathematical model of a world: what entities exist, in which order
//! they were created, and which component values each of them carries.

use vstd::prelude::*;
use crate::entity::{ComponentType, Entity};

verus! {

/// One slot of the registry.
pub struct SlotState<C> {
    /// Generation of the identifier most recently issued for this slot.
    pub generation: u64,
    /// Whether that identifier is live.
    pub alive: bool,
    /// Whether the live entity is marked for removal at the next boundary.
    pub doomed: bool,
    /// The component values attached to the live entity, by type.
    pub components: Map<ComponentType, C>,
}

/// The state of a world.
pub struct WorldState<C> {
    /// All slots ever allocated, by index.
    pub slots: Seq<SlotState<C>>,
    /// Indices of vacant slots that may be reused; the last is reused first.
    pub free: Seq<usize>,
    /// The live entities in creation order.
    pub order: Seq<Entity>,
}

/// The components a bundle attaches: a later entry of a type replaces an
/// earlier one.
pub open spec fn bundle_map<C>(bundle: Seq<(ComponentType, C)>) -> Map<ComponentType, C>
    decreases bundle.len(),
{
    if bundle.len() == 0 {
        Map::empty()
    } else {
        bundle_map(bundle.drop_last()).insert(bundle.last().0, bundle.last().1)
    }
}

/// Whether some entry of the bundle has the given type.
pub open spec fn bundle_mentions<C>(bundle: Seq<(ComponentType, C)>, kind: ComponentType) -> bool {
    exists|i: int| 0 <= i < bundle.len() && (#[trigger] bundle[i]).0 == kind
}

/// A bundle attaches exactly the types it mentions.
pub proof fn lemma_bundle_map_domain<C>(bundle: Seq<(ComponentType, C)>, kind: ComponentType)
    ensures
        bundle_map(bundle).contains_key(kind) <==> bundle_mentions(bundle, kind),
    decreases bundle.len(),
{
    if bundle.len() > 0 {
        let rest = bundle.drop_last();
        lemma_bundle_map_domain(rest, kind);
        if bundle_mentions(rest, kind) {
            let i = choose|i: int| 0 <= i < rest.len() && (#[trigger] rest[i]).0 == kind;
            assert(bundle[i].0 == kind);
        }
        if bundle.last().0 == kind {
            assert(bundle[bundle.len() - 1].0 == kind);
        }
        if bundle_mentions(bundle, kind) {
            let i = choose|i: int| 0 <= i < bundle.len() && (#[trigger] bundle[i]).0 == kind;
            if i < bundle.len() - 1 {
                assert(rest[i].0 == kind);
            }
        }
    }
}

impl<C> SlotState<C> {
    /// A slot after its entity has been removed.
    pub open spec fn vacated(self) -> Self {
        SlotState { generation: self.generation, alive: false, doomed: false, components: Map::empty() }
    }
}

impl<C> WorldState<C> {
    /// The world in which nothing was ever spawned.
    pub open spec fn empty() -> Self {
        WorldState { slots: Seq::empty(), free: Seq::empty(), order: Seq::empty() }
    }

    /// Whether `e` names a live entity.
    pub open spec fn is_alive(self, e: Entity) -> bool {
        &&& e.index < self.slots.len()
        &&& self.slots[e.index as int].alive
        &&& self.slots[e.index as int].generation == e.generation
    }

    /// Whether `e` has been handed out by some earlier spawn.
    pub open spec fn issued(self, e: Entity) -> bool {
        &&& e.index < self.slots.len()
        &&& e.generation <= self.slots[e.index as int].generation
    }

    /// Whether `e` is live and marked for removal.
    pub open spec fn is_doomed(self, e: Entity) -> bool {
        self.is_alive(e) && self.slots[e.index as int].doomed
    }

    /// The component of type `kind` attached to `e`, if `e` is live and has one.
    pub open spec fn component(self, e: Entity, kind: ComponentType) -> Option<C> {
        if self.is_alive(e) && self.slots[e.index as int].components.contains_key(kind) {
            Some(self.slots[e.index as int].components[kind])
        } else {
            None
        }
    }

    /// Whether `e` is live and carries a component of type `kind`.
    pub open spec fn has(self, e: Entity, kind: ComponentType) -> bool {
        self.component(e, kind).is_some()
    }

    /// The identifier the next spawn hands out: the most recently vacated
    /// reusable slot with its generation advanced, else a new slot.
    pub open spec fn next_entity(self) -> Entity {
        if self.free.len() > 0 {
            let i = self.free.last();
            Entity { index: i, generation: (self.slots[i as int].generation + 1) as u64 }
        } else {
            Entity { index: self.slots.len() as usize, generation: 0 }
        }
    }

    /// The state after spawning an entity with the given bundle.
    pub open spec fn spawn(self, bundle: Seq<(ComponentType, C)>) -> Self {
        let e = self.next_entity();
        let slot = SlotState {
            generation: e.generation,
            alive: true,
            doomed: false,
            components: bundle_map(bundle),
        };
        if self.free.len() > 0 {
            WorldState {
                slots: self.slots.update(e.index as int, slot),
                free: self.free.drop_last(),
                order: self.order.push(e),
            }
        } else {
            WorldState { slots: self.slots.push(slot), free: self.free, order: self.order.push(e) }
        }
    }

    /// The state after marking `e` for removal; nothing changes if `e` is stale.
    pub open spec fn despawn(self, e: Entity) -> Self {
        if self.is_alive(e) {
            let slot = self.slots[e.index as int];
            WorldState {
                slots: self.slots.update(e.index as int, SlotState { doomed: true, ..slot }),
                ..self
            }
        } else {
            self
        }
    }

    /// The state after attaching `value` as the component of type `kind` of a
    /// live entity `e`; nothing changes if `e` is stale.
    pub open spec fn attach(self, e: Entity, kind: ComponentType, value: C) -> Self {
        if self.is_alive(e) {
            let slot = self.slots[e.index as int];
            WorldState {
                slots: self.slots.update(
                    e.index as int,
                    SlotState { components: slot.components.insert(kind, value), ..slot },
                ),
                ..self
            }
        } else {
            self
        }
    }

    /// The state after detaching the component of type `kind` from `e`;
    /// nothing changes if `e` is stale.
    pub open spec fn detach(self, e: Entity, kind: ComponentType) -> Self {
        if self.is_alive(e) {
            let slot = self.slots[e.index as int];
            WorldState {
                slots: self.slots.update(
                    e.index as int,
                    SlotState { components: slot.components.remove(kind), ..slot },
                ),
                ..self
            }
        } else {
            self
        }
    }

    /// Whether `e` is not marked for removal.
    pub open spec fn survives(self, e: Entity) -> bool {
        !self.is_doomed(e)
    }

    /// The test that the next boundary applies to each entity of the order.
    pub open spec fn keeper(self) -> spec_fn(Entity) -> bool {
        |e: Entity| self.survives(e)
    }

    /// Indices among the first `n` slots that the next boundary vacates and
    /// that can be reused, in ascending order.
    pub open spec fn reclaimed(self, n: int) -> Seq<usize>
        decreases n,
    {
        if n <= 0 {
            Seq::empty()
        } else {
            let rest = self.reclaimed(n - 1);
            let slot = self.slots[n - 1];
            if slot.doomed && slot.generation < u64::MAX {
                rest.push((n - 1) as usize)
            } else {
                rest
            }
        }
    }

    /// The state after a boundary: every entity marked for removal is gone
    /// with all its components, and the order of the others is kept.
    pub open spec fn flush(self) -> Self {
        WorldState {
            slots: Seq::new(
                self.slots.len(),
                |i: int| if self.slots[i].doomed { self.slots[i].vacated() } else { self.slots[i] },
            ),
            free: self.free + self.reclaimed(self.slots.len() as int),
            order: self.order.filter(self.keeper()),
        }
    }

    /// Well-formedness of a world state.
    pub open spec fn wf(self) -> bool {
        &&& self.slots.len() <= usize::MAX
        &&& forall|i: int| 0 <= i < self.free.len() ==> self.vacant(#[trigger] self.free[i])
        &&& self.free.no_duplicates()
        &&& forall|i: int| 0 <= i < self.order.len() ==> self.is_alive(#[trigger] self.order[i])
        &&& self.order.no_duplicates()
        &&& forall|s: int| 0 <= s < self.slots.len() && (#[trigger] self.slots[s]).alive
            ==> self.order.contains(Entity { index: s as usize, generation: self.slots[s].generation })
        &&& forall|s: int| 0 <= s < self.slots.len() && !(#[trigger] self.slots[s]).alive
            ==> !self.slots[s].doomed && self.slots[s].components =~= Map::empty()
    }

    /// Whether slot `i` is vacant and may be handed out again.
    pub open spec fn vacant(self, i: usize) -> bool {
        &&& i < self.slots.len()
        &&& !self.slots[i as int].alive
        &&& self.slots[i as int].generation < u64::MAX
    }
}

} // verus!
