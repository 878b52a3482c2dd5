//! Facts about the world model: every operation keeps a state well formed.

use vstd::prelude::*;
use crate::entity::{ComponentType, Entity};
use crate::state::{bundle_map, bundle_mentions, lemma_bundle_map_domain, WorldState};

verus! {

/// Two states with the same slots, vacancies and order are the same state.
pub proof fn lemma_same_state<C>(a: WorldState<C>, b: WorldState<C>)
    requires
        a.slots.len() == b.slots.len(),
        forall|i: int|
            0 <= i < a.slots.len() ==> {
                &&& (#[trigger] a.slots[i]).generation == b.slots[i].generation
                &&& a.slots[i].alive == b.slots[i].alive
                &&& a.slots[i].doomed == b.slots[i].doomed
                &&& a.slots[i].components =~= b.slots[i].components
            },
        a.free =~= b.free,
        a.order =~= b.order,
    ensures
        a == b,
{
    assert(a.slots =~= b.slots);
}

/// Attaching to an entity the component it already has changes nothing.
pub proof fn lemma_attach_same<C>(s: WorldState<C>, e: Entity, kind: ComponentType, value: C)
    requires
        s.component(e, kind) == Some(value),
    ensures
        s.attach(e, kind, value) == s,
{
    lemma_same_state(s.attach(e, kind, value), s);
}

/// The empty world is well formed.
pub proof fn lemma_empty_wf<C>()
    ensures
        WorldState::<C>::empty().wf(),
{
}

/// The identifier handed out next was never handed out before.
pub proof fn lemma_next_entity_fresh<C>(s: WorldState<C>)
    requires
        s.wf(),
    ensures
        !s.issued(s.next_entity()),
        !s.is_alive(s.next_entity()),
{
    if s.free.len() > 0 {
        assert(s.vacant(s.free[s.free.len() - 1]));
    }
}

/// Spawning keeps a state well formed, provided a slot index is left.
pub proof fn lemma_spawn_wf<C>(s: WorldState<C>, bundle: Seq<(ComponentType, C)>)
    requires
        s.wf(),
        s.free.len() > 0 || s.slots.len() < usize::MAX,
    ensures
        s.spawn(bundle).wf(),
{
    let t = s.spawn(bundle);
    let e = s.next_entity();
    lemma_next_entity_fresh(s);
    if s.free.len() > 0 {
        assert(s.vacant(s.free[s.free.len() - 1]));
    }
    assert forall|i: int| 0 <= i < t.free.len() implies t.vacant(#[trigger] t.free[i]) by {
        assert(s.vacant(s.free[i]));
        if s.free.len() > 0 {
            assert(s.free[i] != s.free[s.free.len() - 1]);
        }
    }
    assert forall|i: int| 0 <= i < t.order.len() implies t.is_alive(#[trigger] t.order[i]) by {
        if i < s.order.len() {
            assert(s.is_alive(s.order[i]));
        }
    }
    assert(t.order.no_duplicates()) by {
        assert forall|i: int, j: int| 0 <= i < t.order.len() && 0 <= j < t.order.len() && i != j
            implies t.order[i] != t.order[j] by {
            if i < s.order.len() {
                assert(s.is_alive(s.order[i]));
            }
            if j < s.order.len() {
                assert(s.is_alive(s.order[j]));
            }
        }
    }
    assert forall|k: int| 0 <= k < t.slots.len() && (#[trigger] t.slots[k]).alive
        implies t.order.contains(Entity { index: k as usize, generation: t.slots[k].generation }) by {
        let x = Entity { index: k as usize, generation: t.slots[k].generation };
        if k == e.index {
            assert(t.order[s.order.len() as int] == x);
        } else {
            assert(s.slots[k].alive);
            assert(s.order.contains(x));
            let p = choose|p: int| 0 <= p < s.order.len() && s.order[p] == x;
            assert(t.order[p] == x);
        }
    }
}

/// Marking an entity for removal keeps a state well formed.
pub proof fn lemma_despawn_wf<C>(s: WorldState<C>, e: Entity)
    requires
        s.wf(),
    ensures
        s.despawn(e).wf(),
{
    let t = s.despawn(e);
    if s.is_alive(e) {
        assert forall|i: int| 0 <= i < t.free.len() implies t.vacant(#[trigger] t.free[i]) by {
            assert(s.vacant(s.free[i]));
        }
        assert forall|i: int| 0 <= i < t.order.len() implies t.is_alive(#[trigger] t.order[i]) by {
            assert(s.is_alive(s.order[i]));
        }
        assert forall|k: int| 0 <= k < t.slots.len() && (#[trigger] t.slots[k]).alive
            implies t.order.contains(Entity { index: k as usize, generation: t.slots[k].generation }) by {
            assert(s.slots[k].alive);
        }
    }
}

/// Attaching a component keeps a state well formed.
pub proof fn lemma_attach_wf<C>(s: WorldState<C>, e: Entity, kind: ComponentType, value: C)
    requires
        s.wf(),
    ensures
        s.attach(e, kind, value).wf(),
{
    let t = s.attach(e, kind, value);
    if s.is_alive(e) {
        assert forall|i: int| 0 <= i < t.free.len() implies t.vacant(#[trigger] t.free[i]) by {
            assert(s.vacant(s.free[i]));
        }
        assert forall|i: int| 0 <= i < t.order.len() implies t.is_alive(#[trigger] t.order[i]) by {
            assert(s.is_alive(s.order[i]));
        }
        assert forall|k: int| 0 <= k < t.slots.len() && (#[trigger] t.slots[k]).alive
            implies t.order.contains(Entity { index: k as usize, generation: t.slots[k].generation }) by {
            assert(s.slots[k].alive);
        }
    }
}

/// Detaching a component keeps a state well formed.
pub proof fn lemma_detach_wf<C>(s: WorldState<C>, e: Entity, kind: ComponentType)
    requires
        s.wf(),
    ensures
        s.detach(e, kind).wf(),
{
    let t = s.detach(e, kind);
    if s.is_alive(e) {
        assert forall|i: int| 0 <= i < t.free.len() implies t.vacant(#[trigger] t.free[i]) by {
            assert(s.vacant(s.free[i]));
        }
        assert forall|i: int| 0 <= i < t.order.len() implies t.is_alive(#[trigger] t.order[i]) by {
            assert(s.is_alive(s.order[i]));
        }
        assert forall|k: int| 0 <= k < t.slots.len() && (#[trigger] t.slots[k]).alive
            implies t.order.contains(Entity { index: k as usize, generation: t.slots[k].generation }) by {
            assert(s.slots[k].alive);
        }
    }
}

/// What the reclaimed indices are: exactly the reusable slots among the
/// first `n` that are marked for removal, each once, in ascending order.
pub proof fn lemma_reclaimed<C>(s: WorldState<C>, n: int)
    requires
        0 <= n <= s.slots.len() <= usize::MAX,
    ensures
        forall|i: int|
            0 <= i < s.reclaimed(n).len() ==> (#[trigger] s.reclaimed(n)[i]) < n && s.slots[s.reclaimed(
                n,
            )[i] as int].doomed && s.slots[s.reclaimed(n)[i] as int].generation < u64::MAX,
        forall|i: int, j: int|
            0 <= i < j < s.reclaimed(n).len() ==> (#[trigger] s.reclaimed(n)[i]) < (
            #[trigger] s.reclaimed(n)[j]),
    decreases n,
{
    if n > 0 {
        lemma_reclaimed(s, n - 1);
        let rest = s.reclaimed(n - 1);
        let all = s.reclaimed(n);
        assert forall|i: int| 0 <= i < all.len() implies (#[trigger] all[i]) < n && s.slots[all[i] as int].doomed
            && s.slots[all[i] as int].generation < u64::MAX by {
            if i < rest.len() {
                assert(all[i] == rest[i]);
            }
        }
        assert forall|i: int, j: int| 0 <= i < j < all.len() implies (#[trigger] all[i]) < (
        #[trigger] all[j]) by {
            assert(all[i] == rest[i]);
            if j < rest.len() {
                assert(all[j] == rest[j]);
            }
        }
    }
}

/// A boundary keeps a state well formed.
pub proof fn lemma_flush_wf<C>(s: WorldState<C>)
    requires
        s.wf(),
    ensures
        s.flush().wf(),
{
    let t = s.flush();
    let keep = s.keeper();
    let n = s.slots.len() as int;
    lemma_reclaimed(s, n);
    assert forall|i: int| 0 <= i < t.free.len() implies t.vacant(#[trigger] t.free[i]) by {
        if i < s.free.len() {
            assert(s.vacant(s.free[i]));
        } else {
            let x = s.reclaimed(n)[i - s.free.len()];
            assert(t.free[i] == x);
        }
    }
    assert(t.free.no_duplicates()) by {
        assert forall|i: int, j: int| 0 <= i < t.free.len() && 0 <= j < t.free.len() && i != j
            implies t.free[i] != t.free[j] by {
            if i < s.free.len() {
                assert(s.vacant(s.free[i]));
            } else {
                assert(t.free[i] == s.reclaimed(n)[i - s.free.len()]);
            }
            if j < s.free.len() {
                assert(s.vacant(s.free[j]));
            } else {
                assert(t.free[j] == s.reclaimed(n)[j - s.free.len()]);
            }
        }
    }
    assert forall|i: int| 0 <= i < t.order.len() implies t.is_alive(#[trigger] t.order[i]) by {
        let x = t.order[i];
        s.order.lemma_filter_pred(keep, i);
        assert(t.order.contains(x));
        s.order.lemma_filter_contains_rev(keep, x);
        let p = choose|p: int| 0 <= p < s.order.len() && s.order[p] == x;
        assert(s.is_alive(s.order[p]));
    }
    lemma_filter_no_duplicates(s.order, keep);
    assert forall|k: int| 0 <= k < t.slots.len() && (#[trigger] t.slots[k]).alive
        implies t.order.contains(Entity { index: k as usize, generation: t.slots[k].generation }) by {
        let x = Entity { index: k as usize, generation: t.slots[k].generation };
        assert(s.slots[k].alive);
        assert(s.order.contains(x));
        let p = choose|p: int| 0 <= p < s.order.len() && s.order[p] == x;
        assert(keep(x));
        s.order.lemma_filter_contains(keep, p);
    }
}

/// Filtering a sequence without repetitions leaves one without repetitions.
pub proof fn lemma_filter_no_duplicates<A>(s: Seq<A>, pred: spec_fn(A) -> bool)
    requires
        s.no_duplicates(),
    ensures
        s.filter(pred).no_duplicates(),
    decreases s.len(),
{
    reveal(Seq::filter);
    if s.len() > 0 {
        let rest = s.drop_last();
        lemma_filter_no_duplicates(rest, pred);
        if pred(s.last()) {
            let f = rest.filter(pred);
            assert forall|i: int| 0 <= i < f.len() implies f[i] != s.last() by {
                assert(f.contains(f[i]));
                rest.lemma_filter_contains_rev(pred, f[i]);
                let p = choose|p: int| 0 <= p < rest.len() && rest[p] == f[i];
                assert(s[p] == f[i]);
            }
        }
    }
}

/// A freshly spawned entity is live and carries a component of exactly the
/// types that its bundle mentions, with the value of the last entry of each
/// type; every other entity keeps its components.
pub proof fn lemma_spawn_attaches<C>(s: WorldState<C>, bundle: Seq<(ComponentType, C)>, kind: ComponentType)
    requires
        s.wf(),
    ensures
        s.spawn(bundle).is_alive(s.next_entity()),
        s.spawn(bundle).has(s.next_entity(), kind) <==> bundle_mentions(bundle, kind),
        bundle_mentions(bundle, kind) ==> s.spawn(bundle).component(s.next_entity(), kind) == Some(
            bundle_map(bundle)[kind],
        ),
        forall|x: Entity|
            x != s.next_entity() ==> s.spawn(bundle).component(x, kind) == s.component(x, kind),
{
    lemma_bundle_map_domain(bundle, kind);
    lemma_next_entity_fresh(s);
    if s.free.len() > 0 {
        assert(s.vacant(s.free[s.free.len() - 1]));
    }
}

/// After an entity is marked for removal and a boundary is crossed, the
/// entity is gone: it is not live and has no component of any type.
pub proof fn lemma_despawn_then_flush<C>(s: WorldState<C>, e: Entity, kind: ComponentType)
    requires
        s.wf(),
    ensures
        !s.despawn(e).flush().is_alive(e),
        !s.despawn(e).flush().has(e, kind),
        s.despawn(e).flush().component(e, kind).is_none(),
{
}

/// A boundary removes exactly the entities marked for removal: a marked
/// entity is gone, every other live entity stays live and keeps its
/// components, and nothing is left marked.
pub proof fn lemma_flush_effect<C>(s: WorldState<C>, e: Entity, kind: ComponentType)
    requires
        s.wf(),
    ensures
        s.flush().is_alive(e) <==> s.is_alive(e) && !s.is_doomed(e),
        s.flush().is_alive(e) ==> s.flush().component(e, kind) == s.component(e, kind),
        !s.flush().is_doomed(e),
{
}

/// A mark for removal stays until the boundary: spawning, attaching and
/// detaching leave a marked entity marked, and marking it again changes
/// nothing.
pub proof fn lemma_doom_persists<C>(
    s: WorldState<C>,
    e: Entity,
    other: Entity,
    bundle: Seq<(ComponentType, C)>,
    kind: ComponentType,
    value: C,
)
    requires
        s.wf(),
        s.is_doomed(e),
    ensures
        s.spawn(bundle).is_doomed(e),
        s.attach(other, kind, value).is_doomed(e),
        s.detach(other, kind).is_doomed(e),
        s.despawn(other).is_doomed(e),
        s.despawn(e) == s,
{
    lemma_next_entity_fresh(s);
    lemma_same_state(s.despawn(e), s);
}

/// Identifiers are never reused: whatever was handed out stays handed out
/// under every operation, so that a later spawn cannot return it again.
pub proof fn lemma_issued_is_monotone<C>(
    s: WorldState<C>,
    x: Entity,
    e: Entity,
    bundle: Seq<(ComponentType, C)>,
    kind: ComponentType,
    value: C,
)
    requires
        s.wf(),
        s.issued(x),
    ensures
        s.spawn(bundle).issued(x),
        s.despawn(e).issued(x),
        s.attach(e, kind, value).issued(x),
        s.detach(e, kind).issued(x),
        s.flush().issued(x),
        s.spawn(bundle).issued(s.next_entity()),
        x != s.next_entity(),
{
    lemma_next_entity_fresh(s);
    if s.free.len() > 0 {
        assert(s.vacant(s.free[s.free.len() - 1]));
    }
}

} // verus!
