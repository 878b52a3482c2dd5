//! The components and resources of the bundled plugins, and the type
//! identifiers under which they are stored.

use vstd::prelude::*;
use bevy::input::keyboard::KeyCode;
use bevy::input::ButtonInput;
use crate::entity::{ComponentType, ResourceType};
use crate::input::Direction;
use crate::timer::Timer;

verus! {

/// Type identifier of the `Person` marker.
pub const PERSON: u16 = 0;

/// Type identifier of the `Name` component.
pub const NAME: u16 = 1;

/// Type identifier of the `Player` marker.
pub const PLAYER: u16 = 2;

/// Type identifier of the `Heading` component.
pub const HEADING: u16 = 3;

/// Type identifier of the `Camera` marker.
pub const CAMERA: u16 = 4;

/// Type identifier of the `Light` marker.
pub const LIGHT: u16 = 5;

/// Type identifier of the `Tile` component.
pub const TILE: u16 = 6;

/// Type identifier of the greeting timer.
pub const GREET_TIMER: u16 = 0;

/// Type identifier of the keyboard state.
pub const KEYS: u16 = 1;

/// Type identifier of the greetings waiting to be shown.
pub const GREETINGS: u16 = 2;

/// One square of the board.
#[derive(Clone, Copy, Debug, PartialEq, Eq, Structural)]
pub struct Tile {
    /// The file of the square, from 0.
    pub i: u8,
    /// The rank of the square, from 0.
    pub j: u8,
    /// Whether the square is light.
    pub light: bool,
}

/// A component value of any of the bundled types.
pub enum Component {
    /// Marks a person.
    Person,
    /// The name of a person.
    Name(String),
    /// Marks the player.
    Player,
    /// The direction in which the player moves this tick.
    Heading(Direction),
    /// Marks a camera.
    Camera,
    /// Marks a light.
    Light,
    /// A square of the board.
    Tile(Tile),
}

/// A resource value of any of the bundled types.
pub enum Resource {
    /// The timer that paces the greetings.
    GreetTimer(Timer),
    /// The keys currently held.
    Keys(ButtonInput<KeyCode>),
    /// The greetings produced and not yet shown, oldest first.
    Greetings(Vec<String>),
}

impl Component {
    /// The type identifier under which the value is stored.
    pub open spec fn kind_spec(self) -> ComponentType {
        match self {
            Component::Person => ComponentType(PERSON),
            Component::Name(_) => ComponentType(NAME),
            Component::Player => ComponentType(PLAYER),
            Component::Heading(_) => ComponentType(HEADING),
            Component::Camera => ComponentType(CAMERA),
            Component::Light => ComponentType(LIGHT),
            Component::Tile(_) => ComponentType(TILE),
        }
    }

    /// The type identifier under which the value is stored.
    pub fn kind(&self) -> (k: ComponentType)
        ensures
            k == self.kind_spec(),
    {
        match self {
            Component::Person => ComponentType(PERSON),
            Component::Name(_) => ComponentType(NAME),
            Component::Player => ComponentType(PLAYER),
            Component::Heading(_) => ComponentType(HEADING),
            Component::Camera => ComponentType(CAMERA),
            Component::Light => ComponentType(LIGHT),
            Component::Tile(_) => ComponentType(TILE),
        }
    }
}

impl Resource {
    /// The type identifier under which the value is stored.
    pub open spec fn kind_spec(self) -> ResourceType {
        match self {
            Resource::GreetTimer(_) => ResourceType(GREET_TIMER),
            Resource::Keys(_) => ResourceType(KEYS),
            Resource::Greetings(_) => ResourceType(GREETINGS),
        }
    }

    /// The type identifier under which the value is stored.
    pub fn kind(&self) -> (k: ResourceType)
        ensures
            k == self.kind_spec(),
    {
        match self {
            Resource::GreetTimer(_) => ResourceType(GREET_TIMER),
            Resource::Keys(_) => ResourceType(KEYS),
            Resource::Greetings(_) => ResourceType(GREETINGS),
        }
    }
}

/// A bundle made of the given components, each under its own type.
pub open spec fn bundled(components: Seq<Component>) -> Seq<(ComponentType, Component)> {
    Seq::new(components.len(), |i: int| (components[i].kind_spec(), components[i]))
}

/// Makes a bundle of the given components, each under its own type.
pub fn bundle(components: Vec<Component>) -> (b: Vec<(ComponentType, Component)>)
    ensures
        b@ == bundled(components@),
{
    let ghost given = components@;
    let mut rest = components;
    let mut stack: Vec<Component> = Vec::new();
    while rest.len() > 0
        invariant
            rest.len() + stack.len() == given.len(),
            forall|j: int| 0 <= j < rest.len() ==> rest@[j] == given[j],
            forall|j: int| 0 <= j < stack.len() ==> stack@[j] == given[given.len() - 1 - j],
        decreases rest.len(),
    {
        let c = rest.pop().unwrap();
        stack.push(c);
    }
    let mut b: Vec<(ComponentType, Component)> = Vec::new();
    while stack.len() > 0
        invariant
            stack.len() + b.len() == given.len(),
            forall|j: int| 0 <= j < stack.len() ==> stack@[j] == given[given.len() - 1 - j],
            forall|j: int| 0 <= j < b.len() ==> b@[j] == (given[j].kind_spec(), given[j]),
        decreases stack.len(),
    {
        let c = stack.pop().unwrap();
        let k = c.kind();
        b.push((k, c));
    }
    assert(b@ =~= bundled(given));
    b
}

} // verus!
