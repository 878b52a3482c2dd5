use mini_ecs::commands::{Command, Commands};
use mini_ecs::entity::{ComponentType, Entity};
use mini_ecs::world::World;

const A: ComponentType = ComponentType(0);
const B: ComponentType = ComponentType(1);

#[test]
fn recorded_changes_do_nothing_until_applied() {
    let mut world: World<u32> = World::new();
    let e = world.spawn(vec![(A, 1)]);
    let mut commands: Commands<u32> = Commands::new();
    commands.spawn(vec![(B, 2)]);
    commands.despawn(e);
    commands.attach(e, B, 3);
    assert_eq!(commands.len(), 3);
    assert_eq!(world.len(), 1);
    assert!(!world.has(e, B));
    assert!(!world.is_doomed(e));
}

#[test]
fn apply_replays_in_order_and_then_removes() {
    let mut world: World<u32> = World::new();
    let e = world.spawn(vec![(A, 1)]);
    let f = world.spawn(vec![(A, 5)]);
    let mut commands: Commands<u32> = Commands::new();
    commands.attach(f, B, 7);
    commands.attach(f, B, 8);
    commands.detach(f, A);
    commands.spawn(vec![(B, 2)]);
    commands.despawn(e);
    world.apply(commands);
    assert!(!world.contains(e));
    assert_eq!(world.get(f, B), Some(&8));
    assert!(!world.has(f, A));
    let spawned = Entity { index: 2, generation: 0 };
    assert_eq!(world.get(spawned, B), Some(&2));
    assert_eq!(world.len(), 2);
    assert_eq!(world.entity_at(0), Some(f));
    assert_eq!(world.entity_at(1), Some(spawned));
}

#[test]
fn a_spawn_after_a_recorded_despawn_does_not_reuse_the_slot_yet() {
    let mut world: World<u32> = World::new();
    let e = world.spawn(vec![(A, 1)]);
    let mut commands: Commands<u32> = Commands::new();
    commands.despawn(e);
    commands.spawn(vec![(A, 2)]);
    world.apply(commands);
    assert_eq!(world.len(), 1);
    assert_eq!(world.entity_at(0), Some(Entity { index: 1, generation: 0 }));
    assert_eq!(world.spawn(vec![]), Entity { index: 0, generation: 1 });
}

#[test]
fn changes_that_name_a_stale_entity_are_skipped() {
    let mut world: World<u32> = World::new();
    let e = world.spawn(vec![(A, 1)]);
    world.despawn(e);
    world.flush();
    let mut commands: Commands<u32> = Commands::new();
    commands.attach(e, A, 2);
    commands.detach(e, A);
    commands.despawn(e);
    world.apply(commands);
    assert_eq!(world.len(), 0);
    assert!(!world.has(e, A));
}

#[test]
fn perform_acts_at_once() {
    let mut world: World<u32> = World::new();
    world.perform(Command::Spawn(vec![(A, 1)]));
    let e = Entity { index: 0, generation: 0 };
    assert_eq!(world.get(e, A), Some(&1));
    world.perform(Command::Attach(e, B, 2));
    assert_eq!(world.get(e, B), Some(&2));
    world.perform(Command::Detach(e, A));
    assert!(!world.has(e, A));
    world.perform(Command::Despawn(e));
    assert!(world.is_doomed(e));
}
