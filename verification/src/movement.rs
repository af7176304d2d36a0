//! Headings, steering input and the per-frame movement of the snake.

use vstd::prelude::*;
use crate::snake::SnakeBody;

verus! {

/// One of the four headings a segment can move in.
#[derive(Clone, Copy, PartialEq, Eq, Structural, Debug)]
pub enum Direction {
    Up,
    Down,
    Left,
    Right,
}

impl Direction {
    /// The heading that points the other way: `Up` and `Down` swap, and so
    /// do `Left` and `Right`.
    pub open spec fn spec_opposite(self) -> Direction {
        match self {
            Direction::Up => Direction::Down,
            Direction::Down => Direction::Up,
            Direction::Left => Direction::Right,
            Direction::Right => Direction::Left,
        }
    }

    /// Returns the heading that points the other way.
    #[verifier::when_used_as_spec(spec_opposite)]
    pub fn opposite(self) -> (r: Direction)
        ensures
            r == self.spec_opposite(),
    {
        match self {
            Direction::Up => Direction::Down,
            Direction::Down => Direction::Up,
            Direction::Left => Direction::Right,
            Direction::Right => Direction::Left,
        }
    }
}

/// The directional keys that are held in one frame.
#[derive(Clone, Copy, PartialEq, Eq, Structural, Debug)]
pub struct ArrowKeys {
    pub up: bool,
    pub down: bool,
    pub left: bool,
    pub right: bool,
}

/// One frame of movement: the held keys steer the head, and if the tick
/// has fired the snake moves by one cell.
///
/// Steering happens in every frame, so the last heading asked for before a
/// tick is the one the head moves in.
pub fn move_snake(body: &mut SnakeBody, keys: ArrowKeys, tick_fired: bool)
    requires
        old(body).wf(),
    ensures
        final(body).wf(),
        tick_fired ==> final(body)@ == old(body)@.steered(keys).advanced(),
        !tick_fired ==> final(body)@ == old(body)@.steered(keys),
{
    body.steer(keys);
    if tick_fired {
        body.advance();
    }
}

} // verus!
