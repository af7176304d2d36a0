//! The playing field: its bounds, its cells and the one-cell step with the
//! mirroring edge.

use vstd::prelude::*;
use crate::movement::Direction;

verus! {

/// Smallest coordinate of the playing field, on either axis.
pub const GRID_MIN: i32 = -9;

/// Largest coordinate of the playing field, on either axis.
pub const GRID_MAX: i32 = 9;

/// A cell of the playing field, by its column `x` and its row `y`.
///
/// Its view is the pair `(x, y)` of mathematical integers.
#[derive(Clone, Copy, PartialEq, Eq, Structural, Debug)]
pub struct Position {
    pub x: i32,
    pub y: i32,
}

impl View for Position {
    type V = (int, int);

    open spec fn view(&self) -> (int, int) {
        (self.x as int, self.y as int)
    }
}

/// The cells of a list of positions, in the same order.
pub open spec fn cells_of(positions: Seq<Position>) -> Seq<(int, int)> {
    Seq::new(positions.len(), |i: int| positions[i]@)
}

/// Whether both coordinates of `cell` lie between `GRID_MIN` and `GRID_MAX`.
pub open spec fn in_grid(cell: (int, int)) -> bool {
    &&& GRID_MIN <= cell.0 <= GRID_MAX
    &&& GRID_MIN <= cell.1 <= GRID_MAX
}

/// One step towards larger coordinates. A coordinate that stands on the far
/// edge is mirrored through the origin instead: from `GRID_MAX` the step
/// leads to `-GRID_MAX`.
pub open spec fn wrap_forward(coord: int) -> int {
    if coord >= GRID_MAX {
        -coord
    } else {
        coord + 1
    }
}

/// One step towards smaller coordinates. A coordinate that stands on the
/// near edge is mirrored through the origin instead: from `GRID_MIN` the
/// step leads to `-GRID_MIN`.
pub open spec fn wrap_backward(coord: int) -> int {
    if coord <= GRID_MIN {
        -coord
    } else {
        coord - 1
    }
}

/// The cell reached from `cell` by one step along `heading`. Only the
/// coordinate of the heading's axis changes.
pub open spec fn step(cell: (int, int), heading: Direction) -> (int, int) {
    match heading {
        Direction::Up => (cell.0, wrap_forward(cell.1)),
        Direction::Down => (cell.0, wrap_backward(cell.1)),
        Direction::Left => (wrap_backward(cell.0), cell.1),
        Direction::Right => (wrap_forward(cell.0), cell.1),
    }
}

impl Position {
    /// The cell `(x, y)`, if it lies on the playing field.
    pub fn new(x: i32, y: i32) -> (r: Option<Position>)
        ensures
            in_grid((x as int, y as int)) ==> r == Some(Position { x, y }),
            !in_grid((x as int, y as int)) ==> r is None,
    {
        let position = Position { x, y };
        if position.is_in_grid() {
            Some(position)
        } else {
            None
        }
    }

    /// Whether this cell lies on the playing field.
    pub fn is_in_grid(&self) -> (r: bool)
        ensures
            r == in_grid(self@),
    {
        GRID_MIN <= self.x && self.x <= GRID_MAX && GRID_MIN <= self.y && self.y <= GRID_MAX
    }

    /// Moves one cell along `heading`, mirroring at the edge of the field.
    pub fn step(self, heading: Direction) -> (r: Position)
        requires
            in_grid(self@),
        ensures
            r@ == step(self@, heading),
            in_grid(r@),
    {
        match heading {
            Direction::Up => {
                if self.y >= GRID_MAX {
                    Position { x: self.x, y: -self.y }
                } else {
                    Position { x: self.x, y: self.y + 1 }
                }
            },
            Direction::Down => {
                if self.y <= GRID_MIN {
                    Position { x: self.x, y: -self.y }
                } else {
                    Position { x: self.x, y: self.y - 1 }
                }
            },
            Direction::Left => {
                if self.x <= GRID_MIN {
                    Position { x: -self.x, y: self.y }
                } else {
                    Position { x: self.x - 1, y: self.y }
                }
            },
            Direction::Right => {
                if self.x >= GRID_MAX {
                    Position { x: -self.x, y: self.y }
                } else {
                    Position { x: self.x + 1, y: self.y }
                }
            },
        }
    }
}

/// On the edge that a heading points at, a step along it mirrors the
/// coordinate through the origin; on the opposite edge it is an ordinary step
/// of one cell. The other coordinate never changes.
pub proof fn lemma_step_at_edges(other: int)
    ensures
        step((other, GRID_MAX as int), Direction::Up) == (other, -GRID_MAX),
        step((other, GRID_MIN as int), Direction::Down) == (other, -GRID_MIN),
        step((GRID_MIN as int, other), Direction::Left) == (-GRID_MIN, other),
        step((GRID_MAX as int, other), Direction::Right) == (-GRID_MAX, other),
        step((other, GRID_MIN as int), Direction::Up) == (other, GRID_MIN + 1),
        step((other, GRID_MAX as int), Direction::Down) == (other, GRID_MAX - 1),
        step((GRID_MAX as int, other), Direction::Left) == (GRID_MAX - 1, other),
        step((GRID_MIN as int, other), Direction::Right) == (GRID_MIN + 1, other),
{
}

/// A step never leaves the playing field.
pub proof fn lemma_step_in_grid(cell: (int, int), heading: Direction)
    requires
        in_grid(cell),
    ensures
        in_grid(step(cell, heading)),
{
}

/// A step along a heading and a step along its opposite undo each other, in
/// either order, at the edges too.
pub proof fn lemma_step_inverse(cell: (int, int), heading: Direction)
    requires
        in_grid(cell),
    ensures
        step(step(cell, heading.opposite()), heading) == cell,
        step(step(cell, heading), heading.opposite()) == cell,
{
}

} // verus!
