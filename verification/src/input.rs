//! The keys of a game and the moves that they ask for.

use vstd::prelude::*;

use crate::direction::Direction;

verus! {

/// A key that asks for a move: one of the letters W, A, S, D, or an arrow.
#[derive(Clone, Copy, Debug, PartialEq, Eq, Structural)]
pub enum Key {
    W,
    A,
    S,
    D,
    Up,
    Left,
    Down,
    Right,
}

/// The move that a key asks for: W and the arrow up for north, A and the
/// arrow left for west, S and the arrow down for south, D and the arrow right
/// for east.
pub open spec fn direction_spec(key: Key) -> Direction {
    match key {
        Key::W => Direction::North,
        Key::Up => Direction::North,
        Key::A => Direction::West,
        Key::Left => Direction::West,
        Key::S => Direction::South,
        Key::Down => Direction::South,
        Key::D => Direction::East,
        Key::Right => Direction::East,
    }
}

/// The move that a key asks for.
pub fn direction_of(key: Key) -> (dir: Direction)
    ensures
        dir == direction_spec(key),
{
    match key {
        Key::W | Key::Up => Direction::North,
        Key::A | Key::Left => Direction::West,
        Key::S | Key::Down => Direction::South,
        Key::D | Key::Right => Direction::East,
    }
}

} // verus!
