use mini_ecs::context::Context;
use mini_ecs::entity::{ComponentType, ResourceType};
use mini_ecs::game::{bundle, Component, Resource, GREETINGS, GREET_TIMER, NAME, PERSON};
use mini_ecs::hello::{
    add_people, add_person, compose_greetings, greet_people, greeting, rename_first, update_people,
};
use mini_ecs::plugins::HelloPlugin;
use mini_ecs::runtime::{App, SystemPanic};
use mini_ecs::schedule::Lifecycle;
use mini_ecs::systems::System;
use mini_ecs::timer::Timer;

const SECOND: u64 = 1_000_000_000;

fn names(ctx: &Context<Component, Resource>) -> Vec<String> {
    let world = ctx.world();
    let mut out = Vec::new();
    for k in 0..world.len() {
        let e = world.entity_at(k).unwrap();
        if let Some(Component::Name(n)) = world.get(e, ComponentType(NAME)) {
            out.push(n.clone());
        }
    }
    out
}

fn greetings(ctx: &Context<Component, Resource>) -> Vec<String> {
    match ctx.resources().get(ResourceType(GREETINGS)) {
        Some(Resource::Greetings(lines)) => lines.clone(),
        _ => panic!("no list of greetings"),
    }
}

fn people(list: &[&str]) -> Context<Component, Resource> {
    let mut ctx: Context<Component, Resource> = Context::new();
    for n in list {
        add_person(&mut ctx, n);
    }
    ctx.settle();
    ctx
}

#[test]
fn add_people_records_three_people_in_order() {
    let mut ctx: Context<Component, Resource> = Context::new();
    add_people(&mut ctx);
    assert_eq!(ctx.pending(), 3);
    assert_eq!(ctx.world().len(), 0);
    ctx.settle();
    assert_eq!(ctx.pending(), 0);
    assert_eq!(names(&ctx), vec!["Elaina Proctor", "Renzo Hume", "Zayna Nieves"]);
    let world = ctx.world();
    for k in 0..3 {
        let e = world.entity_at(k).unwrap();
        assert!(world.has(e, ComponentType(PERSON)));
        assert!(world.has(e, ComponentType(NAME)));
    }
}

#[test]
fn renaming_stops_after_the_first_match() {
    let mut ctx = people(&["A", "B", "C"]);
    ctx.grant(System::UpdatePeople.access());
    rename_first(&mut ctx, "A", "A2");
    assert_eq!(names(&ctx), vec!["A2", "B", "C"]);
    assert_eq!(ctx.world().len(), 3);
}

#[test]
fn only_the_first_of_two_equal_names_is_renamed() {
    let mut ctx = people(&["B", "A", "C", "A"]);
    ctx.grant(System::UpdatePeople.access());
    rename_first(&mut ctx, "A", "A2");
    assert_eq!(names(&ctx), vec!["B", "A2", "C", "A"]);
    rename_first(&mut ctx, "A", "A3");
    assert_eq!(names(&ctx), vec!["B", "A2", "C", "A3"]);
    rename_first(&mut ctx, "A", "A4");
    assert_eq!(names(&ctx), vec!["B", "A2", "C", "A3"]);
}

#[test]
fn renaming_passes_over_entities_that_are_no_people() {
    let mut ctx: Context<Component, Resource> = Context::new();
    ctx.spawn(bundle(vec![Component::Name("A".to_string())]));
    add_person(&mut ctx, "A");
    ctx.settle();
    ctx.grant(System::UpdatePeople.access());
    rename_first(&mut ctx, "A", "A2");
    assert_eq!(names(&ctx), vec!["A", "A2"]);
}

#[test]
fn renaming_needs_the_grant_to_write_names() {
    let mut ctx = people(&["A"]);
    ctx.grant(System::GreetPeople.access());
    rename_first(&mut ctx, "A", "A2");
    assert_eq!(names(&ctx), vec!["A"]);
}

#[test]
fn update_people_renames_elaina_proctor() {
    let mut ctx: Context<Component, Resource> = Context::new();
    add_people(&mut ctx);
    ctx.settle();
    ctx.grant(System::UpdatePeople.access());
    update_people(&mut ctx);
    assert_eq!(names(&ctx), vec!["Elaina Hume", "Renzo Hume", "Zayna Nieves"]);
    update_people(&mut ctx);
    assert_eq!(names(&ctx), vec!["Elaina Hume", "Renzo Hume", "Zayna Nieves"]);
}

#[test]
fn a_greeting_says_hello_to_the_name() {
    assert_eq!(greeting("Ann"), "hello Ann!");
    assert_eq!(greeting(""), "hello !");
    assert_eq!(greeting("Zoë Møller"), "hello Zoë Møller!");
}

#[test]
fn greetings_are_composed_in_creation_order() {
    let mut ctx = people(&["Ann", "", "Bob"]);
    ctx.grant(System::GreetPeople.access());
    assert_eq!(compose_greetings(&ctx), vec!["hello Ann!", "hello !", "hello Bob!"]);
    ctx.grant(System::AddPeople.access());
    assert_eq!(compose_greetings(&ctx), Vec::<String>::new());
}

fn greeter(period: u64) -> Context<Component, Resource> {
    let mut ctx = people(&["Ann", "Bob"]);
    ctx.insert_resource(ResourceType(GREET_TIMER), Resource::GreetTimer(Timer::repeating(period)));
    ctx.insert_resource(ResourceType(GREETINGS), Resource::Greetings(Vec::new()));
    ctx.grant(System::GreetPeople.access());
    ctx
}

#[test]
fn greet_people_greets_when_the_timer_fires() {
    let mut ctx = greeter(2 * SECOND);
    ctx.set_delta(SECOND);
    assert_eq!(greet_people(&mut ctx), Ok(()));
    assert_eq!(greetings(&ctx), Vec::<String>::new());
    assert_eq!(greet_people(&mut ctx), Ok(()));
    assert_eq!(greetings(&ctx), vec!["hello Ann!", "hello Bob!"]);
    assert_eq!(greet_people(&mut ctx), Ok(()));
    assert_eq!(greetings(&ctx).len(), 2);
    assert_eq!(greet_people(&mut ctx), Ok(()));
    assert_eq!(greetings(&ctx), vec!["hello Ann!", "hello Bob!", "hello Ann!", "hello Bob!"]);
}

#[test]
fn greet_people_advances_the_timer_by_the_time_step() {
    let mut ctx = greeter(2 * SECOND);
    ctx.set_delta(1_500_000_000);
    greet_people(&mut ctx).unwrap();
    greet_people(&mut ctx).unwrap();
    match ctx.resources().get(ResourceType(GREET_TIMER)) {
        Some(Resource::GreetTimer(t)) => {
            assert_eq!(t.elapsed(), SECOND);
            assert_eq!(t.period(), 2 * SECOND);
            assert_eq!(t.times_finished_this_tick(), 1);
        }
        _ => panic!("no timer"),
    }
}

#[test]
fn greet_people_fails_without_its_resources() {
    let mut ctx = people(&["Ann"]);
    ctx.grant(System::GreetPeople.access());
    assert_eq!(greet_people(&mut ctx), Err(SystemPanic));
    ctx.insert_resource(ResourceType(GREET_TIMER), Resource::GreetTimer(Timer::repeating(1)));
    ctx.set_delta(5);
    assert_eq!(greet_people(&mut ctx), Err(SystemPanic));
    match ctx.resources().get(ResourceType(GREET_TIMER)) {
        Some(Resource::GreetTimer(t)) => assert_eq!(t.elapsed(), 0),
        _ => panic!("no timer"),
    }
    ctx.insert_resource(ResourceType(GREETINGS), Resource::Greetings(Vec::new()));
    assert_eq!(greet_people(&mut ctx), Ok(()));
    ctx.grant(System::UpdatePeople.access());
    assert_eq!(greet_people(&mut ctx), Err(SystemPanic));
    assert_eq!(greetings(&ctx), vec!["hello Ann!"]);
}

#[test]
fn the_hello_plugin_runs_from_startup_through_the_ticks() {
    let mut app: App<Component, Resource, System> = App::new();
    assert_eq!(HelloPlugin.build(&mut app), Ok(()));
    assert_eq!(app.stages(), vec![0, 0, 1]);
    assert_eq!(app.state(), Lifecycle::Uninitialized);
    assert_eq!(app.startup(), Ok(()));
    assert_eq!(app.state(), Lifecycle::UpdateLoop);
    assert_eq!(names(app.context()), vec!["Elaina Proctor", "Renzo Hume", "Zayna Nieves"]);
    app.tick(SECOND);
    assert_eq!(names(app.context()), vec!["Elaina Hume", "Renzo Hume", "Zayna Nieves"]);
    assert_eq!(greetings(app.context()), Vec::<String>::new());
    app.tick(SECOND);
    assert_eq!(
        greetings(app.context()),
        vec!["hello Elaina Hume!", "hello Renzo Hume!", "hello Zayna Nieves!"]
    );
    app.tick(SECOND);
    assert_eq!(greetings(app.context()).len(), 3);
    app.tick(SECOND);
    assert_eq!(greetings(app.context()).len(), 6);
    assert!(app.failures().is_empty());
}

#[test]
fn the_renamed_person_is_greeted_by_the_new_name_in_the_same_tick() {
    let mut app: App<Component, Resource, System> = App::new();
    HelloPlugin.build(&mut app).unwrap();
    app.startup().unwrap();
    app.tick(2 * SECOND);
    assert_eq!(greetings(app.context())[0], "hello Elaina Hume!");
}

#[test]
fn no_update_system_runs_before_startup() {
    let mut app: App<Component, Resource, System> = App::new();
    HelloPlugin.build(&mut app).unwrap();
    app.tick(5 * SECOND);
    assert_eq!(app.state(), Lifecycle::Uninitialized);
    assert_eq!(app.context().world().len(), 0);
    assert_eq!(greetings(app.context()), Vec::<String>::new());
}
