//! The systems of the bundled plugins, each with its access signature.

use vstd::prelude::*;
use crate::access::{Access, AccessSets};
use crate::chess::{chess_setup, create_chessboard, scene_spawns, tile_spawns};
use crate::context::{Context, ContextState};
use crate::entity::{ComponentType, ResourceType};
use crate::game::{Component, Resource, GREETINGS, GREET_TIMER, HEADING, KEYS, NAME, PERSON, PLAYER};
use crate::hello::{add_people, greet_people, greets, people_added, renames_first, update_people};
use crate::moving_circle::{move_player, moved, player_setup, player_spawns, steering};
use crate::runtime::{SystemBody, SystemPanic};

verus! {

/// A system of one of the bundled plugins.
#[derive(Clone, Copy, Debug, PartialEq, Eq, Structural)]
pub enum System {
    /// Spawns the three people.
    AddPeople,
    /// Renames the first person called Elaina Proctor.
    UpdatePeople,
    /// Greets every person whenever the greeting timer fires.
    GreetPeople,
    /// Spawns a camera and the player.
    PlayerSetup,
    /// Steers the player by the held keys.
    MovePlayer,
    /// Spawns a camera and a light.
    ChessSetup,
    /// Spawns the squares of the board.
    CreateChessboard,
}

impl System {
    /// The access signature that the system declares.
    pub open spec fn declared(self) -> AccessSets {
        match self {
            System::UpdatePeople => AccessSets {
                writes: seq![ComponentType(NAME)].to_set(),
                filters: seq![ComponentType(PERSON)].to_set(),
                ..AccessSets::nothing()
            },
            System::GreetPeople => AccessSets {
                reads: seq![ComponentType(NAME)].to_set(),
                filters: seq![ComponentType(PERSON)].to_set(),
                resource_writes: seq![ResourceType(GREET_TIMER), ResourceType(GREETINGS)].to_set(),
                ..AccessSets::nothing()
            },
            System::MovePlayer => AccessSets {
                writes: seq![ComponentType(HEADING)].to_set(),
                filters: seq![ComponentType(PLAYER)].to_set(),
                resource_reads: seq![ResourceType(KEYS)].to_set(),
                ..AccessSets::nothing()
            },
            _ => AccessSets::nothing(),
        }
    }

    /// The access signature that the system declares.
    pub fn access(&self) -> (access: Access)
        ensures
            access@ == self.declared(),
    {
        let mut access = Access {
            reads: Vec::new(),
            writes: Vec::new(),
            filters: Vec::new(),
            resource_reads: Vec::new(),
            resource_writes: Vec::new(),
        };
        match self {
            System::UpdatePeople => {
                access.writes.push(ComponentType(NAME));
                access.filters.push(ComponentType(PERSON));
                assert(access.writes@ =~= seq![ComponentType(NAME)]);
                assert(access.filters@ =~= seq![ComponentType(PERSON)]);
            },
            System::GreetPeople => {
                access.reads.push(ComponentType(NAME));
                access.filters.push(ComponentType(PERSON));
                access.resource_writes.push(ResourceType(GREET_TIMER));
                access.resource_writes.push(ResourceType(GREETINGS));
                assert(access.reads@ =~= seq![ComponentType(NAME)]);
                assert(access.filters@ =~= seq![ComponentType(PERSON)]);
                assert(access.resource_writes@ =~= seq![
                    ResourceType(GREET_TIMER),
                    ResourceType(GREETINGS),
                ]);
            },
            System::MovePlayer => {
                access.writes.push(ComponentType(HEADING));
                access.filters.push(ComponentType(PLAYER));
                access.resource_reads.push(ResourceType(KEYS));
                assert(access.writes@ =~= seq![ComponentType(HEADING)]);
                assert(access.filters@ =~= seq![ComponentType(PLAYER)]);
                assert(access.resource_reads@ =~= seq![ResourceType(KEYS)]);
            },
            _ => {},
        }
        assert(Seq::<ComponentType>::empty().to_set() =~= Set::<ComponentType>::empty());
        assert(Seq::<ResourceType>::empty().to_set() =~= Set::<ResourceType>::empty());
        access
    }
}

impl SystemBody<Component, Resource> for System {
    open spec fn effect(
        &self,
        before: ContextState<Component, Resource>,
        after: ContextState<Component, Resource>,
        failed: bool,
    ) -> bool {
        match *self {
            System::AddPeople => !failed && people_added(before, after),
            System::UpdatePeople => !failed && renames_first(
                before,
                after,
                "Elaina Proctor"@,
                "Elaina Hume"@,
            ),
            System::GreetPeople => greets(before, after, failed),
            System::PlayerSetup => !failed && after == (ContextState {
                changes: before.changes + player_spawns(),
                ..before
            }),
            System::MovePlayer => after == moved(before) && failed == steering(before).is_none(),
            System::ChessSetup => !failed && after == (ContextState {
                changes: before.changes + scene_spawns(),
                ..before
            }),
            System::CreateChessboard => !failed && after == (ContextState {
                changes: before.changes + tile_spawns(),
                ..before
            }),
        }
    }

    fn run(&self, ctx: &mut Context<Component, Resource>) -> (r: Result<(), SystemPanic>) {
        match self {
            System::AddPeople => {
                add_people(ctx);
                Ok(())
            },
            System::UpdatePeople => {
                update_people(ctx);
                Ok(())
            },
            System::GreetPeople => greet_people(ctx),
            System::PlayerSetup => {
                player_setup(ctx);
                Ok(())
            },
            System::MovePlayer => move_player(ctx),
            System::ChessSetup => {
                chess_setup(ctx);
                Ok(())
            },
            System::CreateChessboard => {
                create_chessboard(ctx);
                Ok(())
            },
        }
    }
}

} // verus!
