//! The bundled plugins: each registers its resources and systems with a run.

use vstd::prelude::*;
use crate::entity::ResourceType;
use crate::game::{Component, Resource, GREETINGS, GREET_TIMER};
use crate::plan::{admissible, Phase, SystemSpec};
use crate::runtime::{App, AppState};
use crate::schedule::AccessConflict;
use crate::systems::System;
use crate::timer::Timer;

verus! {

/// The chain that orders the update systems of the hello plugin.
pub const HELLO_CHAIN: u32 = 0;

/// The period of the greeting timer in seconds.
pub const GREET_PERIOD: u32 = 2;

/// People are spawned at startup; every tick the first Elaina Proctor is
/// renamed and then, whenever the greeting timer fires, everybody is greeted.
pub struct HelloPlugin;

/// A camera and a player are spawned at startup; every tick the held keys
/// steer the player.
pub struct MovingCirclePlugin;

/// At startup a camera and a light are spawned and the board is laid out.
pub struct ChessPlugin;

/// What the roster knows of `system` registered in `phase` with `chain`.
pub open spec fn entry(phase: Phase, system: System, chain: Option<u32>) -> SystemSpec {
    SystemSpec { phase, access: system.declared(), chain, critical: false }
}

/// Whether entry `i` of `added` can be registered once the entries before
/// it have been registered on top of `systems`.
pub open spec fn admits_at(systems: Seq<SystemSpec>, added: Seq<SystemSpec>, i: int) -> bool {
    admissible(systems + added.take(i), added[i].phase, added[i].access, added[i].chain)
}

/// Whether the systems of `added` can be registered one after the other on
/// top of `systems`.
pub open spec fn admits(systems: Seq<SystemSpec>, added: Seq<SystemSpec>) -> bool {
    forall|i: int| 0 <= i < added.len() ==> #[trigger] admits_at(systems, added, i)
}

/// Whether `after` is `before` with the given systems registered on top, or,
/// where one of them is refused, a run marked as refused. Resources, data
/// and the state of the run are as before.
pub open spec fn extended(
    before: AppState<Component, Resource, System>,
    after: AppState<Component, Resource, System>,
    added: Seq<SystemSpec>,
    bodies: Seq<System>,
    ok: bool,
) -> bool {
    &&& ok == admits(before.systems, added)
    &&& ok ==> after.systems == before.systems + added && after.bodies == before.bodies + bodies
            && after.refused == before.refused
    &&& !ok ==> after.refused
    &&& after.lifecycle == before.lifecycle
    &&& after.shutdown == before.shutdown
    &&& after.log == before.log
    &&& after.ctx == before.ctx
}

/// The systems of the hello plugin, in registration order.
pub open spec fn hello_systems() -> Seq<SystemSpec> {
    seq![
        entry(Phase::Startup, System::AddPeople, None),
        entry(Phase::Update, System::UpdatePeople, Some(HELLO_CHAIN)),
        entry(Phase::Update, System::GreetPeople, Some(HELLO_CHAIN)),
    ]
}

/// The systems of the moving-circle plugin, in registration order.
pub open spec fn moving_circle_systems() -> Seq<SystemSpec> {
    seq![
        entry(Phase::Startup, System::PlayerSetup, None),
        entry(Phase::Update, System::MovePlayer, None),
    ]
}

/// The systems of the chess plugin, in registration order.
pub open spec fn chess_systems() -> Seq<SystemSpec> {
    seq![
        entry(Phase::Startup, System::ChessSetup, None),
        entry(Phase::Startup, System::CreateChessboard, None),
    ]
}

/// Whether `after` holds the resources of `before` and those of the hello
/// plugin: a greeting timer of two seconds with nothing elapsed, and an
/// empty list of greetings.
pub open spec fn hello_resources(
    before: Map<ResourceType, Resource>,
    after: Map<ResourceType, Resource>,
) -> bool {
    &&& after.dom() == before.dom().insert(ResourceType(GREET_TIMER)).insert(ResourceType(GREETINGS))
    &&& forall|k: ResourceType|
        k != ResourceType(GREET_TIMER) && k != ResourceType(GREETINGS) ==> #[trigger] after[k]
            == before[k]
    &&& match after[ResourceType(GREET_TIMER)] {
        Resource::GreetTimer(t) => t.period_spec() == 2_000_000_000 && t.elapsed_spec() == 0
            && t.completions_spec() == 0,
        _ => false,
    }
    &&& match after[ResourceType(GREETINGS)] {
        Resource::Greetings(list) => list@.len() == 0,
        _ => false,
    }
}

/// Each plugin can be registered on a run that has no systems yet.
pub proof fn lemma_plugins_admitted_alone()
    ensures
        admits(Seq::empty(), hello_systems()),
        admits(Seq::empty(), moving_circle_systems()),
        admits(Seq::empty(), chess_systems()),
{
    let none = Seq::<SystemSpec>::empty();
    assert forall|i: int| 0 <= i < 3 implies #[trigger] admits_at(none, hello_systems(), i) by {
        let before = none + hello_systems().take(i);
        assert(before.len() == i);
    }
    assert forall|i: int| 0 <= i < 2 implies #[trigger] admits_at(
        none,
        moving_circle_systems(),
        i,
    ) by {
        let before = none + moving_circle_systems().take(i);
        assert(before.len() == i);
    }
    assert forall|i: int| 0 <= i < 2 implies #[trigger] admits_at(none, chess_systems(), i) by {
        let before = none + chess_systems().take(i);
        assert(before.len() == i);
        if i == 1 {
            assert(Seq::<crate::entity::ComponentType>::empty().to_set() =~= Set::empty());
            assert(Seq::<ResourceType>::empty().to_set() =~= Set::empty());
        }
    }
}

/// Registers `first`, then `second`, stopping at the first refusal.
fn register_both(
    app: &mut App<Component, Resource, System>,
    first: (Phase, System, Option<u32>),
    second: (Phase, System, Option<u32>),
) -> (r: Result<(), AccessConflict>)
    ensures
        extended(
            old(app)@,
            final(app)@,
            seq![entry(first.0, first.1, first.2), entry(second.0, second.1, second.2)],
            seq![first.1, second.1],
            r.is_ok(),
        ),
{
    let ghost added = seq![entry(first.0, first.1, first.2), entry(second.0, second.1, second.2)];
    let ghost base = app@.systems;
    proof {
        assert(base + added.take(0) =~= base);
        assert(base + added.take(1) =~= base.push(added[0]));
    }
    match app.register_system(first.0, first.1.access(), first.1, first.2) {
        Err(conflict) => {
            assert(!admits_at(base, added, 0));
            return Err(conflict);
        },
        Ok(_) => {},
    }
    match app.register_system(second.0, second.1.access(), second.1, second.2) {
        Err(conflict) => {
            assert(!admits_at(base, added, 1));
            return Err(conflict);
        },
        Ok(_) => {},
    }
    proof {
        assert(admits_at(base, added, 0));
        assert(admits_at(base, added, 1));
        assert(app@.systems =~= base + added);
        assert(app@.bodies =~= old(app)@.bodies + seq![first.1, second.1]);
    }
    Ok(())
}

impl HelloPlugin {
    /// Registers the greeting timer, the list of greetings and the three
    /// systems of the plugin: `AddPeople` at startup, then `UpdatePeople`
    /// and `GreetPeople` as one chain of the update phase.
    pub fn build(&self, app: &mut App<Component, Resource, System>) -> (r: Result<
        (),
        AccessConflict,
    >)
        ensures
            extended(
                (AppState { ctx: final(app)@.ctx, ..old(app)@ }),
                final(app)@,
                hello_systems(),
                seq![System::AddPeople, System::UpdatePeople, System::GreetPeople],
                r.is_ok(),
            ),
            hello_resources(old(app)@.ctx.resources, final(app)@.ctx.resources),
            final(app)@.ctx == old(app)@.ctx.with_resources(final(app)@.ctx.resources),
    {
        app.register_resource(
            ResourceType(GREET_TIMER),
            Resource::GreetTimer(Timer::from_seconds(GREET_PERIOD)),
        );
        app.register_resource(ResourceType(GREETINGS), Resource::Greetings(Vec::new()));
        let ghost mid = app@;
        let ghost base = app@.systems;
        let ghost added = hello_systems();
        proof {
            assert(app@.ctx.resources.dom() =~= old(app)@.ctx.resources.dom().insert(
                ResourceType(GREET_TIMER),
            ).insert(ResourceType(GREETINGS)));
            assert(base + added.take(0) =~= base);
            assert(base + added.take(1) =~= base.push(added[0]));
            assert(base + added.take(2) =~= base.push(added[0]).push(added[1]));
        }
        match app.register_system(Phase::Startup, System::AddPeople.access(), System::AddPeople, None) {
            Err(conflict) => {
                assert(!admits_at(base, added, 0));
                return Err(conflict);
            },
            Ok(_) => {},
        }
        match app.register_system(
            Phase::Update,
            System::UpdatePeople.access(),
            System::UpdatePeople,
            Some(HELLO_CHAIN),
        ) {
            Err(conflict) => {
                assert(!admits_at(base, added, 1));
                return Err(conflict);
            },
            Ok(_) => {},
        }
        match app.register_system(
            Phase::Update,
            System::GreetPeople.access(),
            System::GreetPeople,
            Some(HELLO_CHAIN),
        ) {
            Err(conflict) => {
                assert(!admits_at(base, added, 2));
                return Err(conflict);
            },
            Ok(_) => {},
        }
        proof {
            assert(admits_at(base, added, 0));
            assert(admits_at(base, added, 1));
            assert(admits_at(base, added, 2));
            assert(app@.systems =~= base + added);
            assert(app@.bodies =~= mid.bodies + seq![
                System::AddPeople,
                System::UpdatePeople,
                System::GreetPeople,
            ]);
        }
        Ok(())
    }
}

impl MovingCirclePlugin {
    /// Registers the two systems of the plugin: `PlayerSetup` at startup and
    /// `MovePlayer` in the update phase.
    pub fn build(&self, app: &mut App<Component, Resource, System>) -> (r: Result<
        (),
        AccessConflict,
    >)
        ensures
            extended(
                old(app)@,
                final(app)@,
                moving_circle_systems(),
                seq![System::PlayerSetup, System::MovePlayer],
                r.is_ok(),
            ),
    {
        register_both(
            app,
            (Phase::Startup, System::PlayerSetup, None),
            (Phase::Update, System::MovePlayer, None),
        )
    }
}

impl ChessPlugin {
    /// Registers the two systems of the plugin, both at startup:
    /// `ChessSetup` and `CreateChessboard`.
    pub fn build(&self, app: &mut App<Component, Resource, System>) -> (r: Result<
        (),
        AccessConflict,
    >)
        ensures
            extended(
                old(app)@,
                final(app)@,
                chess_systems(),
                seq![System::ChessSetup, System::CreateChessboard],
                r.is_ok(),
            ),
    {
        register_both(
            app,
            (Phase::Startup, System::ChessSetup, None),
            (Phase::Startup, System::CreateChessboard, None),
        )
    }
}

} // verus!
