//! Keyboard state, as far as movement reads it.

use vstd::prelude::*;
use bevy::input::keyboard::KeyCode;
use bevy::input::ButtonInput;
use std::hash::Hash;

verus! {

#[verifier::external_type_specification]
#[verifier::external_body]
#[verifier::reject_recursive_types(T)]
pub struct ExButtonInput<T: Copy + Eq + Hash + Send + Sync + 'static>(ButtonInput<T>);

#[verifier::external_type_specification]
#[verifier::external_body]
pub struct ExKeyCode(KeyCode);

/// The keys that steer.
#[derive(Clone, Copy, Debug, PartialEq, Eq, Structural)]
pub enum Key {
    W,
    A,
    S,
    D,
}

/// The steering keys that are currently held down.
pub uninterp spec fn held_keys(keys: ButtonInput<KeyCode>) -> Set<Key>;

/// Asks `ButtonInput::pressed` whether the key code of `key` is in the set
/// of pressed inputs.
///
/// Believed, not proved: the answer is membership of that key code in the
/// pressed set, which is what `held_keys` names.
#[verifier::external_body]
fn is_pressed(keys: &ButtonInput<KeyCode>, key: Key) -> (b: bool)
    ensures
        b == held_keys(*keys).contains(key),
{
    keys.pressed(
        match key {
            Key::W => KeyCode::KeyW,
            Key::A => KeyCode::KeyA,
            Key::S => KeyCode::KeyS,
            Key::D => KeyCode::KeyD,
        },
    )
}

/// A direction on the plane, one step at most along each axis.
#[derive(Clone, Copy, Debug, PartialEq, Eq, Structural)]
pub struct Direction {
    pub x: i8,
    pub y: i8,
}

/// One step if `positive` alone is held, one step back if `negative` alone
/// is held, none if both or neither.
pub open spec fn axis(positive: bool, negative: bool) -> int {
    (if positive {
        1int
    } else {
        0int
    }) - (if negative {
        1int
    } else {
        0int
    })
}

/// The sum of the unit steps of the held keys: W is +y, S is -y, A is -x,
/// D is +x.
pub open spec fn steer(w: bool, s: bool, a: bool, d: bool) -> Direction {
    Direction { x: axis(d, a) as i8, y: axis(w, s) as i8 }
}

/// The direction that the four key states ask for.
pub fn direction(w: bool, s: bool, a: bool, d: bool) -> (r: Direction)
    ensures
        r == steer(w, s, a, d),
{
    let mut x: i8 = 0;
    let mut y: i8 = 0;
    if w {
        y += 1;
    }
    if s {
        y -= 1;
    }
    if a {
        x -= 1;
    }
    if d {
        x += 1;
    }
    Direction { x, y }
}

/// The direction that the held keys ask for.
pub fn heading(keys: &ButtonInput<KeyCode>) -> (r: Direction)
    ensures
        r == steer(
            held_keys(*keys).contains(Key::W),
            held_keys(*keys).contains(Key::S),
            held_keys(*keys).contains(Key::A),
            held_keys(*keys).contains(Key::D),
        ),
{
    direction(
        is_pressed(keys, Key::W),
        is_pressed(keys, Key::S),
        is_pressed(keys, Key::A),
        is_pressed(keys, Key::D),
    )
}

impl Direction {
    /// Whether the direction asks for any movement: its length exceeds zero.
    pub fn is_moving(&self) -> (b: bool)
        ensures
            b == (self.x != 0 || self.y != 0),
    {
        self.x != 0 || self.y != 0
    }
}

/// Opposite keys cancel: with W and S both held there is no movement along
/// y, with A and D both held none along x, and with all four held or none
/// held there is no movement at all.
pub proof fn lemma_opposite_keys_cancel(w: bool, s: bool, a: bool, d: bool)
    ensures
        w == s ==> steer(w, s, a, d).y == 0,
        a == d ==> steer(w, s, a, d).x == 0,
        w == s && a == d ==> steer(w, s, a, d) == (Direction { x: 0, y: 0 }),
        -1 <= steer(w, s, a, d).x <= 1,
        -1 <= steer(w, s, a, d).y <= 1,
{
}

} // verus!
