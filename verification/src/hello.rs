//! The hello plugin: people with names, one of whom is renamed, and a
//! greeting for each of them whenever the greeting timer fires.

use vstd::prelude::*;
use crate::commands::Change;
use crate::context::{Context, ContextState};
use crate::entity::{ComponentType, Entity, ResourceType};
use crate::game::{bundle, Component, Resource, GREETINGS, GREET_TIMER, NAME, PERSON};
use crate::query::selection;
use crate::runtime::SystemPanic;
use crate::state::WorldState;
use crate::state_lemmas::lemma_attach_same;
use crate::timer::{completions_reported, remainder_after, Timer};

verus! {

/// Whether `change` spawns a person of the given name: an entity with the
/// `Person` marker and a `Name`.
pub open spec fn spawns_person(change: Change<Component>, name: Seq<char>) -> bool {
    match change {
        Change::Spawn(b) => {
            &&& b.len() == 2
            &&& b[0] == (ComponentType(PERSON), Component::Person)
            &&& b[1].0 == ComponentType(NAME)
            &&& match b[1].1 {
                Component::Name(n) => n@ == name,
                _ => false,
            }
        },
        _ => false,
    }
}

/// Whether `after` is `before` with the spawning of one person of the given
/// name recorded.
pub open spec fn person_added(
    before: ContextState<Component, Resource>,
    after: ContextState<Component, Resource>,
    name: Seq<char>,
) -> bool {
    exists|change: Change<Component>|
        #[trigger] spawns_person(change, name) && after == before.with_change(change)
}

/// Whether `after` is `before` with the spawning of the three people
/// recorded, in this order: Elaina Proctor, Renzo Hume, Zayna Nieves.
pub open spec fn people_added(
    before: ContextState<Component, Resource>,
    after: ContextState<Component, Resource>,
) -> bool {
    exists|first: ContextState<Component, Resource>, second: ContextState<Component, Resource>|
        #![trigger person_added(before, first, "Elaina Proctor"@), person_added(second, after, "Zayna Nieves"@)]
        person_added(before, first, "Elaina Proctor"@) && person_added(
            first,
            second,
            "Renzo Hume"@,
        ) && person_added(second, after, "Zayna Nieves"@)
}

/// Records the spawning of one person of the given name.
pub fn add_person(ctx: &mut Context<Component, Resource>, name: &str)
    ensures
        person_added(old(ctx)@, final(ctx)@, name@),
        final(ctx)@.world == old(ctx)@.world,
{
    let components = vec![Component::Person, Component::Name(name.to_owned())];
    let b = bundle(components);
    assert(spawns_person(Change::Spawn(b@), name@));
    ctx.spawn(b);
}

/// Records the spawning of the three people.
pub fn add_people(ctx: &mut Context<Component, Resource>)
    ensures
        people_added(old(ctx)@, final(ctx)@),
        final(ctx)@.world == old(ctx)@.world,
{
    add_person(ctx, "Elaina Proctor");
    let ghost first = ctx@;
    add_person(ctx, "Renzo Hume");
    let ghost second = ctx@;
    add_person(ctx, "Zayna Nieves");
    assert(person_added(old(ctx)@, first, "Elaina Proctor"@) && person_added(
        first,
        second,
        "Renzo Hume"@,
    ) && person_added(second, ctx@, "Zayna Nieves"@));
}

/// The name that `e` carries in `w`, if it carries one.
pub open spec fn name_of(w: WorldState<Component>, e: Entity) -> Option<Seq<char>> {
    match w.component(e, ComponentType(NAME)) {
        Some(Component::Name(n)) => Some(n@),
        _ => None,
    }
}

/// Whether `i` is the position of the first of the given entities that
/// carries the name `name`.
pub open spec fn first_named(w: WorldState<Component>, chosen: Seq<Entity>, name: Seq<char>, i: int) -> bool {
    &&& 0 <= i < chosen.len()
    &&& name_of(w, chosen[i]) == Some(name)
    &&& forall|j: int| 0 <= j < i ==> name_of(w, #[trigger] chosen[j]) != Some(name)
}

/// Whether `after` is `before` with the name of `e` replaced by `to`.
pub open spec fn renamed(
    before: ContextState<Component, Resource>,
    after: ContextState<Component, Resource>,
    e: Entity,
    to: Seq<char>,
) -> bool {
    exists|c: Component|
        #![trigger before.world.attach(e, ComponentType(NAME), c)]
        {
            &&& match c {
                Component::Name(n) => n@ == to,
                _ => false,
            }
            &&& after == before.with_world(before.world.attach(e, ComponentType(NAME), c))
        }
}

/// What one invocation of the renaming system does: the first selected
/// entity, in creation order, whose name is `from` gets the name `to`, and
/// no other entity is touched. Nothing changes if names may not be written
/// or no selected entity has that name.
pub open spec fn renames_first(
    before: ContextState<Component, Resource>,
    after: ContextState<Component, Resource>,
    from: Seq<char>,
    to: Seq<char>,
) -> bool {
    let chosen = selection(before.world, before.granted);
    if before.granted.may_write(ComponentType(NAME)) && exists|i: int|
        first_named(before.world, chosen, from, i) {
        exists|i: int|
            #![trigger chosen[i]]
            first_named(before.world, chosen, from, i) && renamed(before, after, chosen[i], to)
    } else {
        after == before
    }
}

/// Whether the component is a name that reads `name`.
pub fn is_named(c: &Component, name: &String) -> (b: bool)
    ensures
        b == match *c {
            Component::Name(n) => n@ == name@,
            _ => false,
        },
{
    match c {
        Component::Name(n) => *n == *name,
        _ => false,
    }
}

/// Gives the name `to` to the first selected entity, in creation order,
/// whose name is `from`, and stops there.
pub fn rename_first(ctx: &mut Context<Component, Resource>, from: &str, to: &str)
    requires
        old(ctx).wf(),
    ensures
        final(ctx).wf(),
        renames_first(old(ctx)@, final(ctx)@, from@, to@),
{
    let target = from.to_owned();
    let chosen = ctx.select();
    let mut k: usize = 0;
    let mut done = false;
    while k < chosen.len() && !done
        invariant
            k <= chosen.len(),
            ctx.wf(),
            target@ == from@,
            chosen@ == selection(old(ctx)@.world, old(ctx)@.granted),
            !done ==> ctx@ == old(ctx)@,
            !done && old(ctx)@.granted.may_write(ComponentType(NAME)) ==> forall|j: int|
                0 <= j < k ==> name_of(old(ctx)@.world, #[trigger] chosen@[j]) != Some(from@),
            done ==> old(ctx)@.granted.may_write(ComponentType(NAME)) && exists|i: int|
                #![trigger chosen@[i]]
                first_named(old(ctx)@.world, chosen@, from@, i) && renamed(
                    old(ctx)@,
                    ctx@,
                    chosen@[i],
                    to@,
                ),
        decreases chosen.len() - k, !done as int,
    {
        let e = chosen[k];
        match ctx.write(e, ComponentType(NAME)) {
            Some(c) => {
                if is_named(c, &target) {
                    *c = Component::Name(to.to_owned());
                    done = true;
                    proof {
                        assert(first_named(old(ctx)@.world, chosen@, from@, k as int));
                    }
                } else {
                    proof {
                        lemma_attach_same(old(ctx)@.world, e, ComponentType(NAME), *c);
                    }
                }
            },
            None => {},
        }
        if !done {
            k += 1;
        }
    }
    proof {
        if !done && old(ctx)@.granted.may_write(ComponentType(NAME)) {
            assert forall|i: int| !first_named(old(ctx)@.world, chosen@, from@, i) by {
                if 0 <= i < chosen@.len() {
                    assert(name_of(old(ctx)@.world, chosen@[i]) != Some(from@));
                }
            }
        }
    }
}

/// Renames the first person called Elaina Proctor to Elaina Hume.
pub fn update_people(ctx: &mut Context<Component, Resource>)
    requires
        old(ctx).wf(),
    ensures
        final(ctx).wf(),
        renames_first(old(ctx)@, final(ctx)@, "Elaina Proctor"@, "Elaina Hume"@),
{
    rename_first(ctx, "Elaina Proctor", "Elaina Hume");
}

/// The greeting for a name.
pub open spec fn greeting_text(name: Seq<char>) -> Seq<char> {
    "hello "@ + name + "!"@
}

/// What std's `String::push_str` does, as its documentation says: it appends
/// the given text to the end of the string. Believed, not proved.
pub assume_specification[ String::push_str ](s: &mut String, string: &str)
    ensures
        final(s)@ == old(s)@ + string@,
;

/// The greeting for a name.
pub fn greeting(name: &str) -> (line: String)
    ensures
        line@ == greeting_text(name@),
{
    let mut line = "hello ".to_owned();
    line.push_str(name);
    line.push_str("!");
    line
}

/// What the strings of a list read.
pub open spec fn texts(lines: Seq<String>) -> Seq<Seq<char>> {
    Seq::new(lines.len(), |i: int| lines[i]@)
}

/// The greetings for the names that the given entities carry, in the order
/// of the entities, if names may be read.
pub open spec fn greetings_for(w: WorldState<Component>, chosen: Seq<Entity>, readable: bool) -> Seq<
    Seq<char>,
>
    decreases chosen.len(),
{
    if chosen.len() == 0 {
        Seq::empty()
    } else {
        let rest = greetings_for(w, chosen.drop_last(), readable);
        match name_of(w, chosen.last()) {
            Some(n) => if readable {
                rest.push(greeting_text(n))
            } else {
                rest
            },
            None => rest,
        }
    }
}

/// The greeting timer that may be written in `s`, if there is one.
pub open spec fn timer_of(s: ContextState<Component, Resource>) -> Option<Timer> {
    if s.granted.may_write_resource(ResourceType(GREET_TIMER)) && s.resources.contains_key(
        ResourceType(GREET_TIMER),
    ) {
        match s.resources[ResourceType(GREET_TIMER)] {
            Resource::GreetTimer(t) => Some(t),
            _ => None,
        }
    } else {
        None
    }
}

/// The list of greetings that may be written in `s`, if there is one.
pub open spec fn outbox_of(s: ContextState<Component, Resource>) -> Option<Seq<String>> {
    if s.granted.may_write_resource(ResourceType(GREETINGS)) && s.resources.contains_key(
        ResourceType(GREETINGS),
    ) {
        match s.resources[ResourceType(GREETINGS)] {
            Resource::Greetings(list) => Some(list@),
            _ => None,
        }
    } else {
        None
    }
}

/// Whether `next` is the timer `t` advanced by `delta`.
pub open spec fn advanced(t: Timer, next: Timer, delta: u64) -> bool {
    &&& next.period_spec() == t.period_spec()
    &&& next.elapsed_spec() == remainder_after(t.period_spec(), t.elapsed_spec(), delta)
    &&& next.completions_spec() == completions_reported(t.period_spec(), t.elapsed_spec(), delta)
}

/// Whether the timer `t` fires when advanced by `delta`.
pub open spec fn fires(t: Timer, delta: u64) -> bool {
    completions_reported(t.period_spec(), t.elapsed_spec(), delta) > 0
}

/// What one invocation of the greeting system does. Without a writable
/// timer or a writable list of greetings it fails and changes nothing.
/// Otherwise the timer is advanced by the time step, and if it fires, one
/// greeting for each selected entity with a readable name is added to the
/// list, in creation order. Nothing else changes.
pub open spec fn greets(
    before: ContextState<Component, Resource>,
    after: ContextState<Component, Resource>,
    failed: bool,
) -> bool {
    match (timer_of(before), outbox_of(before)) {
        (Some(t), Some(list)) => {
            &&& !failed
            &&& after.world == before.world
            &&& after.changes == before.changes
            &&& after.granted == before.granted
            &&& after.delta == before.delta
            &&& after.resources.dom() == before.resources.dom()
            &&& forall|k: ResourceType|
                k != ResourceType(GREET_TIMER) && k != ResourceType(GREETINGS)
                    ==> #[trigger] after.resources[k] == before.resources[k]
            &&& match after.resources[ResourceType(GREET_TIMER)] {
                Resource::GreetTimer(next) => advanced(t, next, before.delta),
                _ => false,
            }
            &&& match after.resources[ResourceType(GREETINGS)] {
                Resource::Greetings(lines) => texts(lines@) == texts(list) + if fires(
                    t,
                    before.delta,
                ) {
                    greetings_for(
                        before.world,
                        selection(before.world, before.granted),
                        before.granted.may_read(ComponentType(NAME)),
                    )
                } else {
                    Seq::empty()
                },
                _ => false,
            }
        },
        _ => failed && after == before,
    }
}

/// Whether the resource is a greeting timer.
fn is_timer(r: Option<&Resource>) -> (b: bool)
    ensures
        b == match r {
            Some(Resource::GreetTimer(_)) => true,
            _ => false,
        },
{
    match r {
        Some(Resource::GreetTimer(_)) => true,
        _ => false,
    }
}

/// Whether the resource is a list of greetings.
fn is_outbox(r: Option<&Resource>) -> (b: bool)
    ensures
        b == match r {
            Some(Resource::Greetings(_)) => true,
            _ => false,
        },
{
    match r {
        Some(Resource::Greetings(_)) => true,
        _ => false,
    }
}

/// The greetings for the selected entities with a readable name, in
/// creation order.
pub fn compose_greetings(ctx: &Context<Component, Resource>) -> (lines: Vec<String>)
    ensures
        texts(lines@) == greetings_for(
            ctx@.world,
            selection(ctx@.world, ctx@.granted),
            ctx@.granted.may_read(ComponentType(NAME)),
        ),
{
    let chosen = ctx.select();
    let ghost readable = ctx@.granted.may_read(ComponentType(NAME));
    let mut lines: Vec<String> = Vec::new();
    let mut k: usize = 0;
    assert(chosen@.take(0) =~= Seq::<Entity>::empty());
    assert(texts(lines@) =~= Seq::<Seq<char>>::empty());
    while k < chosen.len()
        invariant
            k <= chosen.len(),
            readable == ctx@.granted.may_read(ComponentType(NAME)),
            texts(lines@) == greetings_for(ctx@.world, chosen@.take(k as int), readable),
        decreases chosen.len() - k,
    {
        let e = chosen[k];
        let ghost before = lines@;
        proof {
            assert(chosen@.take(k + 1).drop_last() =~= chosen@.take(k as int));
        }
        match ctx.read(e, ComponentType(NAME)) {
            Some(Component::Name(n)) => {
                let line = greeting(n.as_str());
                lines.push(line);
                assert(texts(lines@) =~= texts(before).push(greeting_text(n@)));
            },
            _ => {},
        }
        k += 1;
    }
    assert(chosen@.take(k as int) =~= chosen@);
    lines
}

/// Advances the greeting timer by the time step and, if it fires, adds a
/// greeting for each selected person to the list of greetings.
pub fn greet_people(ctx: &mut Context<Component, Resource>) -> (r: Result<(), SystemPanic>)
    ensures
        greets(old(ctx)@, final(ctx)@, r.is_err()),
{
    let timer_ok = ctx.granted().may_write_resource(ResourceType(GREET_TIMER)) && is_timer(
        ctx.resource(ResourceType(GREET_TIMER)),
    );
    let outbox_ok = ctx.granted().may_write_resource(ResourceType(GREETINGS)) && is_outbox(
        ctx.resource(ResourceType(GREETINGS)),
    );
    if !timer_ok || !outbox_ok {
        return Err(SystemPanic);
    }
    let delta = ctx.delta();
    let mut fired = false;
    match ctx.resource_mut(ResourceType(GREET_TIMER)) {
        Some(r) => {
            match r {
                Resource::GreetTimer(t) => {
                    t.tick(delta);
                    fired = t.just_finished();
                },
                _ => {},
            }
        },
        None => {},
    }
    let ghost ticked = ctx@;
    let mut lines = if fired {
        compose_greetings(ctx)
    } else {
        Vec::new()
    };
    let ghost added = lines@;
    match ctx.resource_mut(ResourceType(GREETINGS)) {
        Some(r) => {
            match r {
                Resource::Greetings(list) => {
                    let ghost had = list@;
                    list.append(&mut lines);
                    assert(texts(list@) =~= texts(had) + texts(added));
                },
                _ => {},
            }
        },
        None => {},
    }
    proof {
        assert(texts(Seq::<String>::empty()) =~= Seq::<Seq<char>>::empty());
        assert(ctx@.resources.dom() =~= old(ctx)@.resources.dom());
    }
    Ok(())
}

} // verus!
