use mini_ecs::chess::{chessboard, SIDE};
use mini_ecs::entity::ComponentType;
use mini_ecs::game::{Component, Resource, Tile, CAMERA, LIGHT, TILE};
use mini_ecs::plugins::ChessPlugin;
use mini_ecs::runtime::App;
use mini_ecs::schedule::Lifecycle;
use mini_ecs::systems::System;

#[test]
fn the_board_has_64_squares_each_in_its_own_place() {
    let tiles = chessboard();
    assert_eq!(SIDE, 8);
    assert_eq!(tiles.len(), 64);
    let mut seen = [[false; 8]; 8];
    for t in &tiles {
        assert!(t.i < 8 && t.j < 8);
        assert!(!seen[t.i as usize][t.j as usize]);
        seen[t.i as usize][t.j as usize] = true;
    }
}

#[test]
fn a_square_is_light_if_file_plus_rank_plus_one_is_even() {
    let tiles = chessboard();
    for t in &tiles {
        assert_eq!(t.light, (t.i + t.j + 1) % 2 == 0);
    }
    assert_eq!(tiles[0], Tile { i: 0, j: 0, light: false });
    assert_eq!(tiles[1], Tile { i: 0, j: 1, light: true });
    assert_eq!(tiles[8], Tile { i: 1, j: 0, light: true });
    assert_eq!(tiles[9], Tile { i: 1, j: 1, light: false });
    assert_eq!(tiles[63], Tile { i: 7, j: 7, light: false });
    assert_eq!(tiles.iter().filter(|t| t.light).count(), 32);
}

#[test]
fn the_squares_come_file_by_file() {
    let tiles = chessboard();
    for (k, t) in tiles.iter().enumerate() {
        assert_eq!((t.i as usize, t.j as usize), (k / 8, k % 8));
    }
}

#[test]
fn the_chess_plugin_spawns_the_scene_and_the_board_at_startup() {
    let mut app: App<Component, Resource, System> = App::new();
    assert_eq!(ChessPlugin.build(&mut app), Ok(()));
    assert_eq!(app.stages(), vec![0, 0]);
    assert_eq!(app.startup(), Ok(()));
    assert_eq!(app.state(), Lifecycle::UpdateLoop);
    let world = app.context().world();
    assert_eq!(world.len(), 66);
    let camera = world.entity_at(0).unwrap();
    let light = world.entity_at(1).unwrap();
    assert!(world.has(camera, ComponentType(CAMERA)));
    assert!(world.has(light, ComponentType(LIGHT)));
    let expected = chessboard();
    for k in 0..64 {
        let e = world.entity_at(2 + k).unwrap();
        match world.get(e, ComponentType(TILE)) {
            Some(Component::Tile(t)) => assert_eq!(*t, expected[k]),
            _ => panic!("entity {} is no tile", k),
        }
        assert!(!world.has(e, ComponentType(CAMERA)));
    }
    assert!(app.failures().is_empty());
}

#[test]
fn ticks_leave_the_board_as_it_is() {
    let mut app: App<Component, Resource, System> = App::new();
    ChessPlugin.build(&mut app).unwrap();
    assert_eq!(app.run(&vec![16, 16, 16]), Ok(()));
    assert_eq!(app.context().world().len(), 66);
    assert_eq!(app.state(), Lifecycle::UpdateLoop);
}
