//! The moving-circle plugin: a player that the held keys steer.

use vstd::prelude::*;
use crate::commands::Change;
use crate::context::{Context, ContextState};
use crate::entity::{ComponentType, Entity, ResourceType};
use crate::game::{bundle, bundled, Component, Resource, HEADING, KEYS};
use crate::input::{heading, held_keys, steer, Direction, Key};
use crate::query::selection;
use crate::runtime::SystemPanic;
use crate::state::WorldState;
use crate::state_lemmas::lemma_attach_same;

verus! {

/// The changes that set the scene: a camera, then a player at rest.
pub open spec fn player_spawns() -> Seq<Change<Component>> {
    seq![
        Change::Spawn(bundled(seq![Component::Camera])),
        Change::Spawn(
            bundled(seq![Component::Player, Component::Heading(Direction { x: 0, y: 0 })]),
        ),
    ]
}

/// Sets the scene: records the spawning of a camera and of a player at rest.
pub fn player_setup(ctx: &mut Context<Component, Resource>)
    ensures
        final(ctx)@ == (ContextState { changes: old(ctx)@.changes + player_spawns(), ..old(ctx)@ }),
{
    let camera = vec![Component::Camera];
    assert(camera@ =~= seq![Component::Camera]);
    ctx.spawn(bundle(camera));
    let player = vec![Component::Player, Component::Heading(Direction { x: 0, y: 0 })];
    assert(player@ =~= seq![Component::Player, Component::Heading(Direction { x: 0, y: 0 })]);
    ctx.spawn(bundle(player));
    assert(ctx@.changes =~= old(ctx)@.changes + player_spawns());
}

/// The direction that the keyboard state readable in `s` asks for, if a
/// keyboard state is readable.
pub open spec fn steering<C>(s: ContextState<C, Resource>) -> Option<Direction> {
    if s.granted.may_read_resource(ResourceType(KEYS)) && s.resources.contains_key(
        ResourceType(KEYS),
    ) {
        match s.resources[ResourceType(KEYS)] {
            Resource::Keys(keys) => Some(
                steer(
                    held_keys(keys).contains(Key::W),
                    held_keys(keys).contains(Key::S),
                    held_keys(keys).contains(Key::A),
                    held_keys(keys).contains(Key::D),
                ),
            ),
            _ => None,
        }
    } else {
        None
    }
}

/// Whether `e` carries a heading in `w`.
pub open spec fn has_heading(w: WorldState<Component>, e: Entity) -> bool {
    match w.component(e, ComponentType(HEADING)) {
        Some(Component::Heading(_)) => true,
        _ => false,
    }
}

/// The world after each of the given entities that carries a heading was
/// given the heading `dir`, if headings may be written.
pub open spec fn headed(
    w: WorldState<Component>,
    chosen: Seq<Entity>,
    dir: Direction,
    writable: bool,
) -> WorldState<Component>
    decreases chosen.len(),
{
    if chosen.len() == 0 {
        w
    } else {
        let before = headed(w, chosen.drop_last(), dir, writable);
        if writable && has_heading(before, chosen.last()) {
            before.attach(chosen.last(), ComponentType(HEADING), Component::Heading(dir))
        } else {
            before
        }
    }
}

/// What one invocation of the movement system does: if a keyboard state is
/// readable, every selected entity that carries a heading gets the direction
/// that the held keys ask for; else nothing changes.
pub open spec fn moved(before: ContextState<Component, Resource>) -> ContextState<
    Component,
    Resource,
> {
    match steering(before) {
        Some(dir) => before.with_world(
            headed(
                before.world,
                selection(before.world, before.granted),
                dir,
                before.granted.may_write(ComponentType(HEADING)),
            ),
        ),
        None => before,
    }
}

/// Gives every selected player the direction that the held keys ask for.
/// Fails, leaving everything as it is, if no keyboard state is readable.
pub fn move_player(ctx: &mut Context<Component, Resource>) -> (r: Result<(), SystemPanic>)
    requires
        old(ctx).wf(),
    ensures
        final(ctx).wf(),
        final(ctx)@ == moved(old(ctx)@),
        r.is_err() == steering(old(ctx)@).is_none(),
{
    let dir = match ctx.resource(ResourceType(KEYS)) {
        Some(Resource::Keys(keys)) => heading(keys),
        _ => {
            return Err(SystemPanic);
        },
    };
    let chosen = ctx.select();
    let ghost writable = ctx@.granted.may_write(ComponentType(HEADING));
    let mut k: usize = 0;
    assert(chosen@.take(0) =~= Seq::<Entity>::empty());
    while k < chosen.len()
        invariant
            k <= chosen.len(),
            ctx.wf(),
            writable == old(ctx)@.granted.may_write(ComponentType(HEADING)),
            ctx@ == old(ctx)@.with_world(headed(old(ctx)@.world, chosen@.take(k as int), dir, writable)),
        decreases chosen.len() - k,
    {
        let e = chosen[k];
        let ghost world = ctx@.world;
        proof {
            assert(chosen@.take(k + 1).drop_last() =~= chosen@.take(k as int));
        }
        match ctx.write(e, ComponentType(HEADING)) {
            Some(c) => {
                let is_heading = match c {
                    Component::Heading(_) => true,
                    _ => false,
                };
                if is_heading {
                    *c = Component::Heading(dir);
                } else {
                    proof {
                        lemma_attach_same(world, e, ComponentType(HEADING), *c);
                    }
                }
            },
            None => {},
        }
        k += 1;
    }
    assert(chosen@.take(k as int) =~= chosen@);
    Ok(())
}

} // verus!
