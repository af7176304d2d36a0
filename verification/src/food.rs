//! The food: at most one cell at a time, placed at random on a cell that
//! nothing occupies, eaten when the head reaches it.

use rand::Rng;
use vstd::prelude::*;
use crate::grid::{cells_of, in_grid, Position, GRID_MAX, GRID_MIN};
use crate::snake::{SnakeBody, SnakeGrow};

verus! {

/// How many random cells `spawn_food` tries before it searches the field
/// cell by cell.
pub const PLACEMENT_ATTEMPTS: usize = 64;

/// The food, by the cell that holds it. Its view is that cell.
#[derive(Clone, Copy, PartialEq, Eq, Structural, Debug)]
pub struct Food {
    pub position: Position,
}

impl View for Food {
    type V = (int, int);

    open spec fn view(&self) -> (int, int) {
        self.position@
    }
}

/// The signal that the head has reached the food.
#[derive(Clone, Copy, PartialEq, Eq, Structural, Debug)]
pub struct FoodEaten;

/// Whether `cell` lies on the playing field and none of `occupied` is on it.
pub open spec fn is_free(occupied: Seq<Position>, cell: (int, int)) -> bool {
    in_grid(cell) && !cells_of(occupied).contains(cell)
}

/// Whether every cell of the playing field is occupied.
pub open spec fn grid_full(occupied: Seq<Position>) -> bool {
    forall|cell: (int, int)| #[trigger] in_grid(cell) ==> cells_of(occupied).contains(cell)
}

/// Whether a search that goes through the field column by column, each
/// column from the bottom up, comes to `a` before `b`.
pub open spec fn scanned_before(a: (int, int), b: (int, int)) -> bool {
    a.0 < b.0 || (a.0 == b.0 && a.1 < b.1)
}

/// Whether the head is on the cell of the food.
pub open spec fn reached(head: (int, int), food: Option<Food>) -> bool {
    food matches Some(f) && f@ == head
}

/// Draws an integer from `low` to `high`, both included, with
/// `rand::Rng::gen_range` on the generator that `rand::thread_rng` hands
/// out. `gen_range` panics on an empty range, which `requires` rules out;
/// `thread_rng` panics only where the system gives it no seed, which no
/// argument decides. Of the result the contract claims the range and nothing
/// else: which value comes is open, and two calls may differ.
#[verifier::external_body]
fn random_between(low: i32, high: i32) -> (r: i32)
    requires
        low <= high,
    ensures
        low <= r <= high,
{
    rand::thread_rng().gen_range(low..=high)
}

/// Whether one of `occupied` is on the cell of `position`.
pub fn is_occupied(occupied: &Vec<Position>, position: Position) -> (r: bool)
    ensures
        r == cells_of(occupied@).contains(position@),
{
    let mut i: usize = 0;
    while i < occupied.len()
        invariant
            i <= occupied.len(),
            forall|k: int| 0 <= k < i ==> cells_of(occupied@)[k] != position@,
        decreases occupied.len() - i,
    {
        if occupied[i] == position {
            assert(cells_of(occupied@)[i as int] == position@);
            return true;
        }
        i += 1;
    }
    false
}

/// The food on cell `(x, y)`, if that cell lies on the playing field and is
/// free. This is what becomes of one draw of `spawn_food`.
pub fn food_at(occupied: &Vec<Position>, x: i32, y: i32) -> (r: Option<Food>)
    ensures
        is_free(occupied@, (x as int, y as int)) ==> r == Some(Food { position: Position { x, y } }),
        !is_free(occupied@, (x as int, y as int)) ==> r is None,
{
    match Position::new(x, y) {
        Some(position) => {
            if is_occupied(occupied, position) {
                None
            } else {
                Some(Food { position })
            }
        },
        None => None,
    }
}

/// The food on the first free cell that a search column by column comes to;
/// `None` where every cell of the field is occupied.
pub fn first_free_cell(occupied: &Vec<Position>) -> (r: Option<Food>)
    ensures
        match r {
            Some(food) => {
                &&& is_free(occupied@, food@)
                &&& forall|cell: (int, int)|
                    #[trigger] in_grid(cell) && scanned_before(cell, food@) ==> cells_of(
                        occupied@,
                    ).contains(cell)
            },
            None => grid_full(occupied@),
        },
{
    let mut x: i32 = GRID_MIN;
    while x <= GRID_MAX
        invariant
            GRID_MIN <= x <= GRID_MAX + 1,
            forall|cell: (int, int)|
                #[trigger] in_grid(cell) && cell.0 < x ==> cells_of(occupied@).contains(cell),
        decreases GRID_MAX + 1 - x,
    {
        let mut y: i32 = GRID_MIN;
        while y <= GRID_MAX
            invariant
                GRID_MIN <= x <= GRID_MAX,
                GRID_MIN <= y <= GRID_MAX + 1,
                forall|cell: (int, int)|
                    #[trigger] in_grid(cell) && scanned_before(cell, (x as int, y as int))
                        ==> cells_of(occupied@).contains(cell),
            decreases GRID_MAX + 1 - y,
        {
            let placed = food_at(occupied, x, y);
            if placed.is_some() {
                return placed;
            }
            y += 1;
        }
        x += 1;
    }
    None
}

/// Places the food on a free cell of the playing field.
///
/// It draws cells at random, up to `PLACEMENT_ATTEMPTS` times, and takes
/// the first that is free. If none of them was, it takes the first free cell
/// that a search of the whole field finds. So it fails only where no cell is
/// free, and says so by returning `None`.
pub fn spawn_food(occupied: &Vec<Position>) -> (r: Option<Food>)
    ensures
        match r {
            Some(food) => is_free(occupied@, food@),
            None => grid_full(occupied@),
        },
{
    let mut attempts: usize = 0;
    while attempts < PLACEMENT_ATTEMPTS
        invariant
            attempts <= PLACEMENT_ATTEMPTS,
        decreases PLACEMENT_ATTEMPTS - attempts,
    {
        let x = random_between(GRID_MIN, GRID_MAX);
        let y = random_between(GRID_MIN, GRID_MAX);
        let placed = food_at(occupied, x, y);
        if placed.is_some() {
            return placed;
        }
        attempts += 1;
    }
    first_free_cell(occupied)
}

/// Removes the food if the head is on its cell, and signals that it was
/// eaten.
pub fn handle_food_eaten(body: &SnakeBody, food: &mut Option<Food>) -> (eaten: Option<FoodEaten>)
    requires
        body.wf(),
    ensures
        reached(body@.head().cell, *old(food)) ==> *final(food) is None && eaten is Some,
        !reached(body@.head().cell, *old(food)) ==> *final(food) == *old(food) && eaten is None,
{
    let head = body.head().position;
    match *food {
        Some(f) => {
            if f.position == head {
                *food = None;
                Some(FoodEaten)
            } else {
                None
            }
        },
        None => None,
    }
}

/// What follows a meal: new food is placed on a cell that the snake does
/// not occupy, and the snake is told to grow. Without a meal nothing
/// happens.
pub fn eat_food(body: &SnakeBody, food: &mut Option<Food>, eaten: Option<FoodEaten>) -> (grow:
    Option<SnakeGrow>)
    ensures
        eaten is None ==> *final(food) == *old(food) && grow is None,
        eaten is Some ==> grow is Some && match *final(food) {
            Some(f) => in_grid(f@) && !body@.cells().contains(f@),
            None => forall|cell: (int, int)| #[trigger] in_grid(cell) ==> body@.cells().contains(cell),
        },
{
    match eaten {
        Some(_) => {
            let occupied = body.positions();
            *food = spawn_food(&occupied);
            Some(SnakeGrow)
        },
        None => None,
    }
}

} // verus!
