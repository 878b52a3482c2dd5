use mini_ecs::access::Access;
use mini_ecs::entity::{ComponentType, ResourceType};
use mini_ecs::game::{Component, Resource, GREET_TIMER, KEYS};
use mini_ecs::plan::Phase;
use mini_ecs::plugins::{ChessPlugin, HelloPlugin, MovingCirclePlugin};
use mini_ecs::runtime::App;
use mini_ecs::schedule::{chains_match, AccessConflict, Lifecycle, Scheduler};
use mini_ecs::systems::System;
use mini_ecs::timer::Timer;

const A: ComponentType = ComponentType(0);
const B: ComponentType = ComponentType(1);

fn reads(kinds: Vec<ComponentType>) -> Access {
    Access { reads: kinds, writes: vec![], filters: vec![], resource_reads: vec![], resource_writes: vec![] }
}

fn writes(kinds: Vec<ComponentType>) -> Access {
    Access { reads: vec![], writes: kinds, filters: vec![], resource_reads: vec![], resource_writes: vec![] }
}

#[test]
fn systems_are_numbered_in_registration_order() {
    let mut s: Scheduler<u8> = Scheduler::new();
    assert_eq!(s.register_system(Phase::Startup, reads(vec![A]), 10, None), Ok(0));
    assert_eq!(s.register_system(Phase::Update, writes(vec![A]), 11, None), Ok(1));
    assert_eq!(s.register_system(Phase::Update, reads(vec![B]), 12, None), Ok(2));
    assert_eq!(s.len(), 3);
    assert_eq!(s.roster(Phase::Startup), vec![0]);
    assert_eq!(s.roster(Phase::Update), vec![1, 2]);
    assert_eq!(*s.system(1).unwrap().0, 11);
    assert_eq!(s.system(1).unwrap().1.writes, vec![A]);
    assert!(s.system(3).is_none());
}

#[test]
fn overlapping_writes_without_a_chain_are_refused() {
    let mut s: Scheduler<u8> = Scheduler::new();
    assert_eq!(s.register_system(Phase::Update, writes(vec![A]), 0, None), Ok(0));
    assert_eq!(s.register_system(Phase::Update, writes(vec![B, A]), 1, None), Err(AccessConflict));
    assert!(s.is_refused());
    assert_eq!(s.len(), 1);
    assert_eq!(s.launch(), Err(AccessConflict));
    assert_eq!(s.state(), Lifecycle::Uninitialized);
}

#[test]
fn overlapping_writes_in_one_chain_are_admitted() {
    let mut s: Scheduler<u8> = Scheduler::new();
    assert_eq!(s.register_system(Phase::Update, writes(vec![A]), 0, Some(1)), Ok(0));
    assert_eq!(s.register_system(Phase::Update, writes(vec![A]), 1, Some(1)), Ok(1));
    assert_eq!(s.register_system(Phase::Update, writes(vec![A]), 2, Some(2)), Err(AccessConflict));
    assert_eq!(s.register_system(Phase::Update, writes(vec![A]), 3, None), Err(AccessConflict));
    assert_eq!(s.len(), 2);
}

#[test]
fn overlapping_writes_in_different_phases_are_admitted() {
    let mut s: Scheduler<u8> = Scheduler::new();
    assert_eq!(s.register_system(Phase::Startup, writes(vec![A]), 0, None), Ok(0));
    assert_eq!(s.register_system(Phase::Update, writes(vec![A]), 1, None), Ok(1));
    assert!(!s.is_refused());
    assert_eq!(s.stages(), vec![0, 0]);
}

#[test]
fn a_reader_and_a_writer_are_admitted_and_run_in_registration_order() {
    let mut s: Scheduler<u8> = Scheduler::new();
    assert_eq!(s.register_system(Phase::Update, reads(vec![A]), 0, None), Ok(0));
    assert_eq!(s.register_system(Phase::Update, writes(vec![A]), 1, None), Ok(1));
    assert!(s.must_wait(0, 1));
    assert!(!s.must_wait(1, 0));
    assert_eq!(s.stages(), vec![0, 1]);
}

#[test]
fn systems_without_conflict_share_a_stage() {
    let mut s: Scheduler<u8> = Scheduler::new();
    s.register_system(Phase::Update, writes(vec![A]), 0, None).unwrap();
    s.register_system(Phase::Update, writes(vec![B]), 1, None).unwrap();
    s.register_system(Phase::Update, reads(vec![]), 2, None).unwrap();
    assert!(!s.must_wait(0, 1));
    assert!(!s.must_wait(0, 2));
    assert_eq!(s.stages(), vec![0, 0, 0]);
}

#[test]
fn a_system_runs_right_after_the_last_system_it_waits_for() {
    let mut s: Scheduler<u8> = Scheduler::new();
    s.register_system(Phase::Update, writes(vec![A]), 0, None).unwrap();
    s.register_system(Phase::Update, reads(vec![A]), 1, None).unwrap();
    s.register_system(Phase::Update, writes(vec![B]), 2, None).unwrap();
    s.register_system(Phase::Update, reads(vec![A, B]), 3, None).unwrap();
    s.register_system(Phase::Startup, reads(vec![A]), 4, None).unwrap();
    s.register_system(Phase::Update, reads(vec![B]), 5, Some(7)).unwrap();
    s.register_system(Phase::Update, reads(vec![]), 6, Some(7)).unwrap();
    assert_eq!(s.stages(), vec![0, 1, 0, 1, 0, 1, 2]);
    assert_eq!(s.batches(Phase::Update), vec![vec![0, 2], vec![1, 3, 5], vec![6]]);
    assert_eq!(s.batches(Phase::Startup), vec![vec![4]]);
}

#[test]
fn a_phase_without_systems_has_no_stage() {
    let mut s: Scheduler<u8> = Scheduler::new();
    assert_eq!(s.batches(Phase::Update), Vec::<Vec<usize>>::new());
    s.register_system(Phase::Startup, reads(vec![A]), 0, None).unwrap();
    assert_eq!(s.batches(Phase::Update), Vec::<Vec<usize>>::new());
    assert_eq!(s.batches(Phase::Startup), vec![vec![0]]);
}

#[test]
fn a_chain_is_sequential_even_without_conflict() {
    let mut s: Scheduler<u8> = Scheduler::new();
    s.register_system(Phase::Update, reads(vec![A]), 0, Some(3)).unwrap();
    s.register_system(Phase::Update, reads(vec![B]), 1, Some(3)).unwrap();
    s.register_system(Phase::Update, reads(vec![B]), 2, Some(3)).unwrap();
    s.register_system(Phase::Update, reads(vec![B]), 3, Some(4)).unwrap();
    assert!(s.must_wait(0, 1));
    assert!(s.must_wait(0, 2));
    assert!(!s.must_wait(2, 3));
    assert_eq!(s.stages(), vec![0, 1, 2, 0]);
    assert!(chains_match(Some(3), Some(3)));
    assert!(!chains_match(Some(3), Some(4)));
    assert!(!chains_match(None, None));
    assert!(!chains_match(Some(1), None));
}

#[test]
fn must_wait_asks_for_two_systems_in_registration_order() {
    let mut s: Scheduler<u8> = Scheduler::new();
    s.register_system(Phase::Update, writes(vec![A]), 0, Some(1)).unwrap();
    s.register_system(Phase::Update, writes(vec![A]), 1, Some(1)).unwrap();
    assert!(!s.must_wait(0, 0));
    assert!(!s.must_wait(0, 2));
    assert!(!s.must_wait(5, 9));
}

#[test]
fn the_life_cycle_goes_from_launch_to_termination() {
    let mut s: Scheduler<u8> = Scheduler::new();
    assert_eq!(s.state(), Lifecycle::Uninitialized);
    s.end_pass();
    assert_eq!(s.state(), Lifecycle::Uninitialized);
    assert_eq!(s.launch(), Ok(()));
    assert_eq!(s.state(), Lifecycle::StartupPhase);
    assert_eq!(s.launch(), Ok(()));
    assert_eq!(s.state(), Lifecycle::StartupPhase);
    s.end_pass();
    assert_eq!(s.state(), Lifecycle::UpdateLoop);
    s.end_pass();
    assert_eq!(s.state(), Lifecycle::UpdateLoop);
    s.request_shutdown();
    assert_eq!(s.state(), Lifecycle::UpdateLoop);
    s.end_pass();
    assert_eq!(s.state(), Lifecycle::Terminated);
    s.end_pass();
    assert_eq!(s.launch(), Ok(()));
    assert_eq!(s.state(), Lifecycle::Terminated);
}

#[test]
fn abort_terminates_at_once() {
    let mut s: Scheduler<u8> = Scheduler::new();
    s.launch().unwrap();
    s.abort();
    assert_eq!(s.state(), Lifecycle::Terminated);
}

#[test]
fn critical_systems_are_marked_by_index() {
    let mut s: Scheduler<u8> = Scheduler::new();
    s.register_system(Phase::Update, reads(vec![]), 0, None).unwrap();
    assert!(!s.is_critical(0));
    s.set_critical(0, true);
    assert!(s.is_critical(0));
    s.set_critical(7, true);
    assert!(!s.is_critical(7));
    assert_eq!(s.len(), 1);
    s.set_critical(0, false);
    assert!(!s.is_critical(0));
}

#[test]
fn a_shutdown_is_honoured_at_the_boundary_of_a_tick() {
    let mut app: App<Component, Resource, System> = App::new();
    HelloPlugin.build(&mut app).unwrap();
    app.request_shutdown();
    assert_eq!(app.startup(), Ok(()));
    assert_eq!(app.state(), Lifecycle::UpdateLoop);
    app.tick(2_000_000_000);
    assert_eq!(app.state(), Lifecycle::Terminated);
    let seen = app.context().world().len();
    assert_eq!(seen, 3);
    app.tick(2_000_000_000);
    match app.context().resources().get(ResourceType(2)) {
        Some(Resource::Greetings(lines)) => assert_eq!(lines.len(), 3),
        _ => panic!("no list of greetings"),
    }
    assert_eq!(app.startup(), Ok(()));
    assert_eq!(app.context().world().len(), 3);
}

#[test]
fn a_failure_is_logged_and_the_rest_of_the_tick_runs() {
    let mut app: App<Component, Resource, System> = App::new();
    assert_eq!(MovingCirclePlugin.build(&mut app), Ok(()));
    assert_eq!(HelloPlugin.build(&mut app), Ok(()));
    assert_eq!(app.startup(), Ok(()));
    app.tick(2_000_000_000);
    assert_eq!(app.failures(), &vec![1]);
    assert_eq!(app.state(), Lifecycle::UpdateLoop);
    match app.context().resources().get(ResourceType(2)) {
        Some(Resource::Greetings(lines)) => assert_eq!(lines.len(), 3),
        _ => panic!("no list of greetings"),
    }
}

#[test]
fn a_failure_of_a_critical_system_terminates_the_run() {
    let mut app: App<Component, Resource, System> = App::new();
    MovingCirclePlugin.build(&mut app).unwrap();
    HelloPlugin.build(&mut app).unwrap();
    app.set_critical(1, true);
    app.startup().unwrap();
    app.tick(2_000_000_000);
    assert_eq!(app.failures(), &vec![1]);
    assert_eq!(app.state(), Lifecycle::Terminated);
    match app.context().resources().get(ResourceType(2)) {
        Some(Resource::Greetings(lines)) => assert!(lines.is_empty()),
        _ => panic!("no list of greetings"),
    }
}

#[test]
fn a_refused_registration_keeps_the_run_from_starting() {
    let mut app: App<Component, Resource, System> = App::new();
    assert_eq!(MovingCirclePlugin.build(&mut app), Ok(()));
    let mut clash = System::MovePlayer.access();
    clash.resource_reads.clear();
    assert_eq!(app.register_system(Phase::Update, clash, System::MovePlayer, None), Err(AccessConflict));
    assert_eq!(app.startup(), Err(AccessConflict));
    assert_eq!(app.state(), Lifecycle::Uninitialized);
    assert_eq!(app.run(&vec![1, 2, 3]), Err(AccessConflict));
    assert_eq!(app.context().world().len(), 0);
}

#[test]
fn the_plugins_register_side_by_side() {
    let mut app: App<Component, Resource, System> = App::new();
    assert_eq!(HelloPlugin.build(&mut app), Ok(()));
    assert_eq!(MovingCirclePlugin.build(&mut app), Ok(()));
    assert_eq!(ChessPlugin.build(&mut app), Ok(()));
    assert_eq!(app.stages(), vec![0, 0, 1, 0, 0, 0, 0]);
    assert_eq!(app.batches(Phase::Startup), vec![vec![0, 3, 5, 6]]);
    assert_eq!(app.batches(Phase::Update), vec![vec![1, 4], vec![2]]);
    assert_eq!(app.startup(), Ok(()));
    assert_eq!(app.context().world().len(), 3 + 2 + 66);
}

#[test]
fn registering_a_plugin_twice_is_refused_where_its_writers_clash() {
    let mut app: App<Component, Resource, System> = App::new();
    assert_eq!(MovingCirclePlugin.build(&mut app), Ok(()));
    assert_eq!(MovingCirclePlugin.build(&mut app), Err(AccessConflict));
    let mut chess: App<Component, Resource, System> = App::new();
    assert_eq!(ChessPlugin.build(&mut chess), Ok(()));
    assert_eq!(ChessPlugin.build(&mut chess), Ok(()));
}

#[test]
fn resources_are_registered_before_the_launch() {
    let mut app: App<Component, Resource, System> = App::new();
    assert!(app.register_resource(ResourceType(GREET_TIMER), Resource::GreetTimer(Timer::repeating(5))).is_none());
    let previous = app.register_resource(ResourceType(GREET_TIMER), Resource::GreetTimer(Timer::repeating(7)));
    match previous {
        Some(Resource::GreetTimer(t)) => assert_eq!(t.period(), 5),
        _ => panic!("the first timer is gone"),
    }
    assert!(app.context().resources().contains(ResourceType(GREET_TIMER)));
    assert!(!app.context().resources().contains(ResourceType(KEYS)));
}
