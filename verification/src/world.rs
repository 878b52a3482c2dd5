//! The entity registry and component storage.

use vstd::prelude::*;
use crate::entity::{ComponentType, Entity};
use crate::sparse::{collect, held, holds, peek, peek_mut, put, take};
use crate::state::{bundle_mentions, SlotState, WorldState};
use crate::state_lemmas::{
    lemma_attach_wf,
    lemma_despawn_wf,
    lemma_detach_wf,
    lemma_empty_wf,
    lemma_flush_wf,
    lemma_next_entity_fresh,
    lemma_same_state,
    lemma_spawn_attaches,
    lemma_spawn_wf,
};

verus! {

/// An operation named an identifier that is not live: the entity was
/// despawned, or the identifier belongs to another generation of its slot.
#[derive(Clone, Copy, Debug, PartialEq, Eq, Structural)]
pub struct StaleEntity;

struct Slot<C> {
    generation: u64,
    alive: bool,
    doomed: bool,
    components: Vec<Option<C>>,
}

/// Entities and their components.
pub struct World<C> {
    slots: Vec<Slot<C>>,
    free: Vec<usize>,
    order: Vec<Entity>,
}

impl<C> Slot<C> {
    spec fn state(self) -> SlotState<C> {
        SlotState {
            generation: self.generation,
            alive: self.alive,
            doomed: self.doomed,
            components: held(self.components@),
        }
    }
}

/// `t` is `s` with the component of type `kind` of the live entity `e`
/// overwritten by `v`.
spec fn overwritten<C>(s: WorldState<C>, t: WorldState<C>, e: Entity, kind: ComponentType, v: C) -> bool {
    &&& s.is_alive(e)
    &&& t.slots.len() == s.slots.len()
    &&& t.free == s.free
    &&& t.order == s.order
    &&& forall|i: int|
        0 <= i < s.slots.len() ==> {
            &&& (#[trigger] t.slots[i]).generation == s.slots[i].generation
            &&& t.slots[i].alive == s.slots[i].alive
            &&& t.slots[i].doomed == s.slots[i].doomed
            &&& i != e.index ==> t.slots[i].components == s.slots[i].components
        }
    &&& t.slots[e.index as int].components == s.slots[e.index as int].components.insert(kind, v)
}

/// `t` has the slots, vacancies and order of `s`.
spec fn untouched<C>(s: WorldState<C>, t: WorldState<C>) -> bool {
    &&& t.slots.len() == s.slots.len()
    &&& t.free == s.free
    &&& t.order == s.order
    &&& forall|i: int|
        0 <= i < s.slots.len() ==> {
            &&& (#[trigger] t.slots[i]).generation == s.slots[i].generation
            &&& t.slots[i].alive == s.slots[i].alive
            &&& t.slots[i].doomed == s.slots[i].doomed
            &&& t.slots[i].components == s.slots[i].components
        }
}

impl<C> View for World<C> {
    type V = WorldState<C>;

    closed spec fn view(&self) -> WorldState<C> {
        WorldState {
            slots: Seq::new(self.slots@.len(), |i: int| self.slots@[i].state()),
            free: self.free@,
            order: self.order@,
        }
    }
}

impl<C> World<C> {
    /// Whether the world's state is well formed.
    pub open spec fn wf(&self) -> bool {
        self@.wf()
    }

    /// A world without entities.
    pub fn new() -> (world: World<C>)
        ensures
            world.wf(),
            world@ == WorldState::<C>::empty(),
    {
        let world = World { slots: Vec::new(), free: Vec::new(), order: Vec::new() };
        proof {
            lemma_empty_wf::<C>();
            lemma_same_state(world@, WorldState::<C>::empty());
        }
        world
    }

    /// Whether `e` names a live entity.
    pub fn contains(&self, e: Entity) -> (b: bool)
        ensures
            b == self@.is_alive(e),
    {
        e.index < self.slots.len() && self.slots[e.index].alive && self.slots[e.index].generation
            == e.generation
    }

    /// Whether `e` is live and marked for removal at the next boundary.
    pub fn is_doomed(&self, e: Entity) -> (b: bool)
        ensures
            b == self@.is_doomed(e),
    {
        self.contains(e) && self.slots[e.index].doomed
    }

    /// The number of live entities.
    pub fn len(&self) -> (n: usize)
        ensures
            n == self@.order.len(),
    {
        self.order.len()
    }

    /// The live entity at position `i` of the creation order.
    pub fn entity_at(&self, i: usize) -> (e: Option<Entity>)
        ensures
            e == if i < self@.order.len() {
                Some(self@.order[i as int])
            } else {
                None
            },
    {
        if i < self.order.len() {
            Some(self.order[i])
        } else {
            None
        }
    }

    /// Spawns an entity carrying the components of `bundle` and returns its
    /// identifier, which was never handed out before.
    pub fn spawn(&mut self, bundle: Vec<(ComponentType, C)>) -> (e: Entity)
        requires
            old(self).wf(),
        ensures
            final(self).wf(),
            e == old(self)@.next_entity(),
            final(self)@ == old(self)@.spawn(bundle@),
            !old(self)@.issued(e),
            final(self)@.is_alive(e),
            forall|kind: ComponentType|
                final(self)@.has(e, kind) <==> bundle_mentions(bundle@, kind),
    {
        let components = collect(bundle);
        let e = if self.free.len() > 0 {
            let index = self.free.pop().unwrap();
            assert(old(self)@.vacant(index)) by {
                assert(old(self)@.free[old(self)@.free.len() - 1] == index);
            }
            assert(old(self)@.slots[index as int] == self.slots@[index as int].state());
            let generation = self.slots[index].generation + 1;
            self.slots[index] = Slot { generation, alive: true, doomed: false, components };
            Entity { index, generation }
        } else {
            let index = self.slots.len();
            self.slots.push(Slot { generation: 0, alive: true, doomed: false, components });
            // The new number of slots is a `usize`, so the new index lies below its maximum.
            let slots = self.slots.len();
            assert(index + 1 == slots);
            Entity { index, generation: 0 }
        };
        self.order.push(e);
        proof {
            lemma_spawn_wf(old(self)@, bundle@);
            lemma_same_state(self@, old(self)@.spawn(bundle@));
            assert forall|kind: ComponentType|
                self@.has(e, kind) <==> bundle_mentions(bundle@, kind) by {
                lemma_spawn_attaches(old(self)@, bundle@, kind);
            }
            lemma_next_entity_fresh(old(self)@);
        }
        e
    }

    /// Marks `e` and all its components for removal at the next boundary.
    /// A stale identifier changes nothing.
    pub fn despawn(&mut self, e: Entity)
        requires
            old(self).wf(),
        ensures
            final(self).wf(),
            final(self)@ == old(self)@.despawn(e),
    {
        if self.contains(e) {
            self.slots[e.index].doomed = true;
        }
        proof {
            lemma_despawn_wf(old(self)@, e);
            lemma_same_state(self@, old(self)@.despawn(e));
        }
    }

    /// Whether `e` is live and carries a component of type `kind`.
    pub fn has(&self, e: Entity, kind: ComponentType) -> (b: bool)
        ensures
            b == self@.has(e, kind),
    {
        self.contains(e) && holds(&self.slots[e.index].components, kind)
    }

    /// The component of type `kind` of `e`; none if `e` is stale or has no
    /// such component.
    pub fn get(&self, e: Entity, kind: ComponentType) -> (found: Option<&C>)
        ensures
            found.is_some() == self@.has(e, kind),
            found.is_some() ==> Some(*found.unwrap()) == self@.component(e, kind),
    {
        if self.contains(e) {
            peek(&self.slots[e.index].components, kind)
        } else {
            None
        }
    }

    /// Exclusive access to the component of type `kind` of `e`; none if `e`
    /// is stale or has no such component. Whatever is written through the
    /// access becomes the component's value.
    pub fn get_mut(&mut self, e: Entity, kind: ComponentType) -> (found: Option<&mut C>)
        requires
            old(self).wf(),
        ensures
            found.is_some() == old(self)@.has(e, kind),
            found.is_some() ==> Some(*found.unwrap()) == old(self)@.component(e, kind),
            found.is_some() ==> final(self)@ == old(self)@.attach(e, kind, *final(found.unwrap())),
            found.is_none() ==> final(self)@ == old(self)@,
            final(self).wf(),
    {
        proof {
            let s = old(self)@;
            assert forall|w: World<C>, v: C| overwritten(s, #[trigger] w@, e, kind, v) implies w@
                == #[trigger] s.attach(e, kind, v) && w@.wf() by {
                lemma_same_state(w@, s.attach(e, kind, v));
                lemma_attach_wf(s, e, kind, v);
            }
            assert forall|w: World<C>|
                overwritten(
                    s,
                    #[trigger] w@,
                    e,
                    kind,
                    w@.slots[e.index as int].components[kind],
                ) implies w@.wf() by {
                let v = w@.slots[e.index as int].components[kind];
                lemma_same_state(w@, s.attach(e, kind, v));
                lemma_attach_wf(s, e, kind, v);
            }
            assert forall|w: World<C>| untouched(s, #[trigger] w@) implies w@ == s by {
                lemma_same_state(w@, s);
            }
        }
        if self.contains(e) {
            let found = peek_mut(&mut self.slots[e.index].components, kind);
            found
        } else {
            assert(untouched(old(self)@, self@));
            None
        }
    }

    /// Attaches `value` to `e` as its component of type `kind` and returns
    /// the component it replaces.
    pub fn attach(&mut self, e: Entity, kind: ComponentType, value: C) -> (r: Result<
        Option<C>,
        StaleEntity,
    >)
        requires
            old(self).wf(),
        ensures
            final(self).wf(),
            final(self)@ == old(self)@.attach(e, kind, value),
            r.is_ok() == old(self)@.is_alive(e),
            r.is_ok() ==> r.unwrap() == old(self)@.component(e, kind),
    {
        if self.contains(e) {
            let previous = put(&mut self.slots[e.index].components, kind, value);
            proof {
                lemma_attach_wf(old(self)@, e, kind, value);
                lemma_same_state(self@, old(self)@.attach(e, kind, value));
            }
            Ok(previous)
        } else {
            Err(StaleEntity)
        }
    }

    /// Detaches the component of type `kind` from `e` and returns it.
    pub fn detach(&mut self, e: Entity, kind: ComponentType) -> (r: Result<Option<C>, StaleEntity>)
        requires
            old(self).wf(),
        ensures
            final(self).wf(),
            final(self)@ == old(self)@.detach(e, kind),
            r.is_ok() == old(self)@.is_alive(e),
            r.is_ok() ==> r.unwrap() == old(self)@.component(e, kind),
    {
        if self.contains(e) {
            let previous = take(&mut self.slots[e.index].components, kind);
            proof {
                lemma_detach_wf(old(self)@, e, kind);
                lemma_same_state(self@, old(self)@.detach(e, kind));
            }
            Ok(previous)
        } else {
            Err(StaleEntity)
        }
    }

    /// Crosses a boundary: removes every entity marked for removal together
    /// with all its components, keeping the order of the others.
    pub fn flush(&mut self)
        requires
            old(self).wf(),
        ensures
            final(self).wf(),
            final(self)@ == old(self)@.flush(),
    {
        let ghost before = self@;
        let ghost keep = before.keeper();
        let mut kept: Vec<Entity> = Vec::new();
        let mut i: usize = 0;
        assert(self.order@.take(0) =~= Seq::<Entity>::empty());
        proof {
            reveal(Seq::filter);
        }
        while i < self.order.len()
            invariant
                i <= self.order.len(),
                self@ == before,
                before.wf(),
                keep == before.keeper(),
                kept@ == self.order@.take(i as int).filter(keep),
            decreases self.order.len() - i,
        {
            let e = self.order[i];
            assert(before.is_alive(before.order[i as int]));
            assert(before.slots[e.index as int] == self.slots@[e.index as int].state());
            proof {
                assert(self.order@.take(i + 1) =~= self.order@.take(i as int).push(e));
                self.order@.take(i as int).lemma_filter_push(e, keep);
            }
            if !self.slots[e.index].doomed {
                kept.push(e);
            }
            i += 1;
        }
        assert(self.order@.take(i as int) =~= self.order@);
        let mut s: usize = 0;
        while s < self.slots.len()
            invariant
                s <= self.slots.len(),
                self.slots.len() == before.slots.len(),
                before.wf(),
                self.free@ == before.free + before.reclaimed(s as int),
                forall|j: int|
                    0 <= j < s ==> (#[trigger] self.slots@[j]).state() == (if before.slots[j].doomed {
                        before.slots[j].vacated()
                    } else {
                        before.slots[j]
                    }),
                forall|j: int|
                    s <= j < self.slots.len() ==> (#[trigger] self.slots@[j]).state()
                        == before.slots[j],
            decreases self.slots.len() - s,
        {
            if self.slots[s].doomed {
                self.slots[s].alive = false;
                self.slots[s].doomed = false;
                self.slots[s].components = Vec::new();
                assert(held(self.slots@[s as int].components@) =~= Map::empty());
                if self.slots[s].generation < u64::MAX {
                    self.free.push(s);
                    assert(self.free@ =~= before.free + before.reclaimed(s + 1));
                }
            }
            s += 1;
        }
        self.order = kept;
        proof {
            lemma_flush_wf(before);
            lemma_same_state(self@, before.flush());
        }
    }
}

} // verus!
