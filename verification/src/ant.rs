//! The moving agent: a facing direction and a 1-based grid position.

use vstd::prelude::*;

verus! {

use crate::board::Pos;
use crate::board::SIDE;

/// A facing direction, one of the four-element cycle
/// Up -> Right -> Down -> Left -> Up.
#[derive(Debug, Copy, Clone, Eq, PartialEq, Structural)]
pub enum Direction {
    Up,
    Right,
    Down,
    Left,
}

/// The clockwise neighbor in the direction cycle.
pub open spec fn cw(d: Direction) -> Direction {
    match d {
        Direction::Up => Direction::Right,
        Direction::Right => Direction::Down,
        Direction::Down => Direction::Left,
        Direction::Left => Direction::Up,
    }
}

/// The counter-clockwise neighbor in the direction cycle.
pub open spec fn ccw(d: Direction) -> Direction {
    match d {
        Direction::Up => Direction::Left,
        Direction::Left => Direction::Down,
        Direction::Down => Direction::Right,
        Direction::Right => Direction::Up,
    }
}

/// The ant: where it stands and where it faces.
pub struct Ant {
    pub direction: Direction,
    pub pos: Pos,
}

impl Ant {
    /// A fresh ant faces Up and stands at the exact center of the board.
    pub fn new() -> (a: Ant)
        ensures
            a.direction == Direction::Up,
            a.pos.0 == SIDE / 2,
            a.pos.1 == SIDE / 2,
    {
        Ant { direction: Direction::Up, pos: (512, 512) }
    }

    /// Turn a quarter turn clockwise; the position does not change.
    pub fn rotate_cw(&mut self)
        ensures
            final(self).direction == cw(old(self).direction),
            final(self).pos == old(self).pos,
    {
        self.direction = match self.direction {
            Direction::Down => Direction::Left,
            Direction::Left => Direction::Up,
            Direction::Up => Direction::Right,
            Direction::Right => Direction::Down,
        }
    }

    /// Turn a quarter turn counter-clockwise; the position does not change.
    pub fn rotate_ccw(&mut self)
        ensures
            final(self).direction == ccw(old(self).direction),
            final(self).pos == old(self).pos,
    {
        self.direction = match self.direction {
            Direction::Down => Direction::Right,
            Direction::Right => Direction::Up,
            Direction::Up => Direction::Left,
            Direction::Left => Direction::Down,
        }
    }
}

} // verus!
