use bevy::input::keyboard::KeyCode;
use bevy::input::ButtonInput;
use mini_ecs::context::Context;
use mini_ecs::entity::{ComponentType, ResourceType};
use mini_ecs::game::{bundle, Component, Resource, CAMERA, HEADING, KEYS, PLAYER};
use mini_ecs::input::{direction, heading, Direction};
use mini_ecs::moving_circle::{move_player, player_setup};
use mini_ecs::plugins::MovingCirclePlugin;
use mini_ecs::runtime::{App, SystemPanic};
use mini_ecs::systems::System;

fn keys(held: &[KeyCode]) -> ButtonInput<KeyCode> {
    let mut input = ButtonInput::default();
    for k in held {
        input.press(*k);
    }
    input
}

#[test]
fn each_key_steers_along_its_axis() {
    assert_eq!(direction(true, false, false, false), Direction { x: 0, y: 1 });
    assert_eq!(direction(false, true, false, false), Direction { x: 0, y: -1 });
    assert_eq!(direction(false, false, true, false), Direction { x: -1, y: 0 });
    assert_eq!(direction(false, false, false, true), Direction { x: 1, y: 0 });
    assert_eq!(direction(false, false, false, false), Direction { x: 0, y: 0 });
}

#[test]
fn the_steps_of_the_held_keys_add_up() {
    assert_eq!(direction(true, false, false, true), Direction { x: 1, y: 1 });
    assert_eq!(direction(false, true, true, false), Direction { x: -1, y: -1 });
    assert_eq!(direction(true, true, false, true), Direction { x: 1, y: 0 });
}

#[test]
fn opposite_keys_cancel() {
    let both = direction(true, true, false, false);
    assert_eq!(both, Direction { x: 0, y: 0 });
    assert!(!both.is_moving());
    assert!(!direction(true, true, true, true).is_moving());
    assert!(direction(true, false, false, false).is_moving());
    assert!(direction(false, false, true, false).is_moving());
}

#[test]
fn the_heading_follows_the_pressed_keys() {
    assert_eq!(heading(&keys(&[])), Direction { x: 0, y: 0 });
    assert_eq!(heading(&keys(&[KeyCode::KeyW])), Direction { x: 0, y: 1 });
    assert_eq!(heading(&keys(&[KeyCode::KeyS])), Direction { x: 0, y: -1 });
    assert_eq!(heading(&keys(&[KeyCode::KeyA])), Direction { x: -1, y: 0 });
    assert_eq!(heading(&keys(&[KeyCode::KeyD])), Direction { x: 1, y: 0 });
    assert_eq!(heading(&keys(&[KeyCode::KeyW, KeyCode::KeyS])), Direction { x: 0, y: 0 });
    assert_eq!(heading(&keys(&[KeyCode::KeyW, KeyCode::KeyD])), Direction { x: 1, y: 1 });
    assert_eq!(heading(&keys(&[KeyCode::KeyQ, KeyCode::Space])), Direction { x: 0, y: 0 });
}

#[test]
fn a_released_key_no_longer_steers() {
    let mut input = keys(&[KeyCode::KeyW, KeyCode::KeyA]);
    input.release(KeyCode::KeyW);
    assert_eq!(heading(&input), Direction { x: -1, y: 0 });
}

fn heading_of(ctx: &Context<Component, Resource>, position: usize) -> Option<Direction> {
    let world = ctx.world();
    let e = world.entity_at(position).unwrap();
    match world.get(e, ComponentType(HEADING)) {
        Some(Component::Heading(d)) => Some(*d),
        _ => None,
    }
}

#[test]
fn player_setup_records_a_camera_and_a_player_at_rest() {
    let mut ctx: Context<Component, Resource> = Context::new();
    player_setup(&mut ctx);
    assert_eq!(ctx.pending(), 2);
    assert_eq!(ctx.world().len(), 0);
    ctx.settle();
    let world = ctx.world();
    assert_eq!(world.len(), 2);
    let camera = world.entity_at(0).unwrap();
    let player = world.entity_at(1).unwrap();
    assert!(world.has(camera, ComponentType(CAMERA)));
    assert!(!world.has(camera, ComponentType(PLAYER)));
    assert!(world.has(player, ComponentType(PLAYER)));
    assert_eq!(heading_of(&ctx, 1), Some(Direction { x: 0, y: 0 }));
}

#[test]
fn move_player_steers_players_only() {
    let mut ctx: Context<Component, Resource> = Context::new();
    player_setup(&mut ctx);
    ctx.spawn(bundle(vec![Component::Heading(Direction { x: 0, y: 0 })]));
    ctx.settle();
    ctx.insert_resource(ResourceType(KEYS), Resource::Keys(keys(&[KeyCode::KeyW, KeyCode::KeyA])));
    ctx.grant(System::MovePlayer.access());
    assert_eq!(move_player(&mut ctx), Ok(()));
    assert_eq!(heading_of(&ctx, 1), Some(Direction { x: -1, y: 1 }));
    assert_eq!(heading_of(&ctx, 2), Some(Direction { x: 0, y: 0 }));
    assert_eq!(heading_of(&ctx, 0), None);
}

#[test]
fn pressing_w_and_s_together_yields_no_movement() {
    let mut ctx: Context<Component, Resource> = Context::new();
    player_setup(&mut ctx);
    ctx.settle();
    ctx.insert_resource(ResourceType(KEYS), Resource::Keys(keys(&[KeyCode::KeyD])));
    ctx.grant(System::MovePlayer.access());
    assert_eq!(move_player(&mut ctx), Ok(()));
    assert_eq!(heading_of(&ctx, 1), Some(Direction { x: 1, y: 0 }));
    ctx.insert_resource(ResourceType(KEYS), Resource::Keys(keys(&[KeyCode::KeyW, KeyCode::KeyS])));
    assert_eq!(move_player(&mut ctx), Ok(()));
    let d = heading_of(&ctx, 1).unwrap();
    assert_eq!(d, Direction { x: 0, y: 0 });
    assert!(!d.is_moving());
}

#[test]
fn move_player_fails_without_a_readable_keyboard_state() {
    let mut ctx: Context<Component, Resource> = Context::new();
    player_setup(&mut ctx);
    ctx.settle();
    ctx.grant(System::MovePlayer.access());
    assert_eq!(move_player(&mut ctx), Err(SystemPanic));
    ctx.insert_resource(ResourceType(KEYS), Resource::Keys(keys(&[KeyCode::KeyW])));
    ctx.grant(System::PlayerSetup.access());
    assert_eq!(move_player(&mut ctx), Err(SystemPanic));
    assert_eq!(heading_of(&ctx, 1), Some(Direction { x: 0, y: 0 }));
}

#[test]
fn move_player_writes_nothing_without_the_grant() {
    let mut ctx: Context<Component, Resource> = Context::new();
    player_setup(&mut ctx);
    ctx.settle();
    ctx.insert_resource(ResourceType(KEYS), Resource::Keys(keys(&[KeyCode::KeyW])));
    let mut access = System::MovePlayer.access();
    access.writes.clear();
    access.reads.push(ComponentType(HEADING));
    ctx.grant(access);
    assert_eq!(move_player(&mut ctx), Ok(()));
    assert_eq!(heading_of(&ctx, 1), Some(Direction { x: 0, y: 0 }));
}

#[test]
fn the_plugin_steers_the_player_every_tick() {
    let mut app: App<Component, Resource, System> = App::new();
    assert_eq!(MovingCirclePlugin.build(&mut app), Ok(()));
    app.register_resource(ResourceType(KEYS), Resource::Keys(keys(&[KeyCode::KeyS])));
    assert_eq!(app.startup(), Ok(()));
    assert_eq!(heading_of(app.context(), 1), Some(Direction { x: 0, y: 0 }));
    app.tick(16);
    assert_eq!(heading_of(app.context(), 1), Some(Direction { x: 0, y: -1 }));
    app.register_resource(ResourceType(KEYS), Resource::Keys(keys(&[KeyCode::KeyS, KeyCode::KeyD])));
    app.tick(16);
    assert_eq!(heading_of(app.context(), 1), Some(Direction { x: 1, y: -1 }));
    assert!(app.failures().is_empty());
}

#[test]
fn a_missing_keyboard_state_is_logged_and_the_run_goes_on() {
    let mut app: App<Component, Resource, System> = App::new();
    MovingCirclePlugin.build(&mut app).unwrap();
    assert_eq!(app.run(&vec![16, 16]), Ok(()));
    assert_eq!(app.failures(), &vec![1, 1]);
    assert_eq!(app.state(), mini_ecs::schedule::Lifecycle::UpdateLoop);
}
