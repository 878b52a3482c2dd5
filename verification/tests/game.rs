use mini_ecs::entity::{ComponentType, ResourceType};
use mini_ecs::game::{
    bundle, Component, Resource, Tile, CAMERA, GREETINGS, GREET_TIMER, HEADING, KEYS, LIGHT, NAME, PERSON,
    PLAYER, TILE,
};
use mini_ecs::input::Direction;
use mini_ecs::systems::System;
use mini_ecs::timer::Timer;

#[test]
fn every_component_has_its_own_type_identifier() {
    let all = vec![
        Component::Person,
        Component::Name(String::new()),
        Component::Player,
        Component::Heading(Direction { x: 0, y: 0 }),
        Component::Camera,
        Component::Light,
        Component::Tile(Tile { i: 0, j: 0, light: false }),
    ];
    let kinds: Vec<ComponentType> = all.iter().map(|c| c.kind()).collect();
    assert_eq!(
        kinds,
        vec![
            ComponentType(PERSON),
            ComponentType(NAME),
            ComponentType(PLAYER),
            ComponentType(HEADING),
            ComponentType(CAMERA),
            ComponentType(LIGHT),
            ComponentType(TILE),
        ]
    );
    for (k, kind) in kinds.iter().enumerate() {
        assert_eq!(kind.0 as usize, k);
    }
}

#[test]
fn every_resource_has_its_own_type_identifier() {
    assert_eq!(Resource::GreetTimer(Timer::repeating(1)).kind(), ResourceType(GREET_TIMER));
    assert_eq!(Resource::Keys(Default::default()).kind(), ResourceType(KEYS));
    assert_eq!(Resource::Greetings(Vec::new()).kind(), ResourceType(GREETINGS));
    assert_ne!(GREET_TIMER, KEYS);
    assert_ne!(KEYS, GREETINGS);
    assert_ne!(GREET_TIMER, GREETINGS);
}

#[test]
fn a_bundle_pairs_each_component_with_its_type() {
    let b = bundle(vec![Component::Player, Component::Heading(Direction { x: 1, y: -1 })]);
    assert_eq!(b.len(), 2);
    assert_eq!(b[0].0, ComponentType(PLAYER));
    assert!(matches!(b[0].1, Component::Player));
    assert_eq!(b[1].0, ComponentType(HEADING));
    assert!(matches!(b[1].1, Component::Heading(Direction { x: 1, y: -1 })));
    assert!(bundle(vec![]).is_empty());
}

#[test]
fn the_systems_declare_what_they_touch() {
    let update = System::UpdatePeople.access();
    assert_eq!(update.writes, vec![ComponentType(NAME)]);
    assert_eq!(update.filters, vec![ComponentType(PERSON)]);
    assert!(update.reads.is_empty() && update.resource_reads.is_empty() && update.resource_writes.is_empty());
    let greet = System::GreetPeople.access();
    assert_eq!(greet.reads, vec![ComponentType(NAME)]);
    assert_eq!(greet.filters, vec![ComponentType(PERSON)]);
    assert_eq!(greet.resource_writes, vec![ResourceType(GREET_TIMER), ResourceType(GREETINGS)]);
    let steer = System::MovePlayer.access();
    assert_eq!(steer.writes, vec![ComponentType(HEADING)]);
    assert_eq!(steer.filters, vec![ComponentType(PLAYER)]);
    assert_eq!(steer.resource_reads, vec![ResourceType(KEYS)]);
    for s in [System::AddPeople, System::PlayerSetup, System::ChessSetup, System::CreateChessboard] {
        let a = s.access();
        assert!(a.reads.is_empty() && a.writes.is_empty() && a.filters.is_empty());
        assert!(a.resource_reads.is_empty() && a.resource_writes.is_empty());
    }
    assert!(update.conflicts(&greet));
    assert!(!update.writes_overlap(&greet));
    assert!(!steer.conflicts(&greet));
}
