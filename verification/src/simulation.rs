//! The whole simulation: the snake and the food, and what one frame does to
//! them.

use vstd::prelude::*;
use crate::food::{eat_food, handle_food_eaten, spawn_food, Food};
use crate::grid::in_grid;
use crate::movement::{move_snake, ArrowKeys};
use crate::snake::{
    grow_snake, handle_snake_collision, lemma_advanced_wf, lemma_grown_wf, lemma_spawned_wf,
    lemma_steered_wf, spawn_snake, Snake, SnakeBody, SnakeGrow,
};

verus! {

/// What the simulation is in contracts: the snake, and the cell of the food
/// if there is food.
pub struct World {
    pub snake: Snake,
    pub food: Option<(int, int)>,
}

impl World {
    /// The snake after the collision check, the steering and, if the tick
    /// has fired, the move of one frame.
    pub open spec fn moved(self, keys: ArrowKeys, tick_fired: bool) -> Snake {
        let steered = self.snake.checked().steered(keys);
        if tick_fired {
            steered.advanced()
        } else {
            steered
        }
    }

    /// Whether the head is on the food once the snake has moved.
    pub open spec fn eats(self, keys: ArrowKeys, tick_fired: bool) -> bool {
        self.food == Some(self.moved(keys, tick_fired).head().cell)
    }

    /// The snake at the end of the frame: it has moved, and it has grown by
    /// one segment if it ate.
    pub open spec fn next_snake(self, keys: ArrowKeys, tick_fired: bool) -> Snake {
        if self.eats(keys, tick_fired) {
            self.moved(keys, tick_fired).grown()
        } else {
            self.moved(keys, tick_fired)
        }
    }
}

/// The state of one run: the snake and the food. It has one writer, the
/// frame.
pub struct Simulation {
    pub body: SnakeBody,
    pub food: Option<Food>,
}

impl View for Simulation {
    type V = World;

    open spec fn view(&self) -> World {
        World {
            snake: self.body@,
            food: match self.food {
                Some(food) => Some(food@),
                None => None,
            },
        }
    }
}

/// What happened in one frame.
#[derive(Clone, Copy, PartialEq, Eq, Structural, Debug)]
pub struct FrameReport {
    /// The head was on a tail segment when the frame began, and the snake
    /// started afresh.
    pub collided: bool,
    /// The head reached the food in this frame.
    pub eaten: bool,
}

/// Every transition of a frame keeps a valid snake valid.
pub proof fn lemma_frame_wf(world: World, keys: ArrowKeys, tick_fired: bool)
    requires
        world.snake.wf(),
    ensures
        world.snake.checked().wf(),
        world.moved(keys, tick_fired).wf(),
        world.next_snake(keys, tick_fired).wf(),
{
    lemma_spawned_wf();
    let checked = world.snake.checked();
    lemma_steered_wf(checked, keys);
    lemma_advanced_wf(checked.steered(keys));
    lemma_grown_wf(world.moved(keys, tick_fired));
}

impl Simulation {
    /// Whether the snake is valid.
    pub open spec fn wf(&self) -> bool {
        self.body.wf()
    }

    /// A fresh run: the starting snake, and food on a cell that it does not
    /// occupy.
    pub fn new() -> (r: Simulation)
        ensures
            r.wf(),
            r@.snake == Snake::spawned(),
            r@.food matches Some(cell) && in_grid(cell) && !Snake::spawned().cells().contains(cell),
    {
        let body = spawn_snake();
        let occupied = body.positions();
        let food = spawn_food(&occupied);
        assert(food is Some) by {
            assert(in_grid((1, 1)));
            assert(!Snake::spawned().cells().contains((1, 1)));
        }
        Simulation { body, food }
    }

    /// One frame, in this order: the collision check, on the snake as the
    /// last frame left it; the steering; the move, if the tick has fired;
    /// the meal, if the head is now on the food. A meal places new food on a
    /// cell that the snake does not occupy and then lets the snake grow by
    /// one segment.
    pub fn frame(&mut self, keys: ArrowKeys, tick_fired: bool) -> (report: FrameReport)
        requires
            old(self).wf(),
        ensures
            final(self).wf(),
            report.collided == old(self)@.snake.collided(),
            report.eaten == old(self)@.eats(keys, tick_fired),
            final(self)@.snake == old(self)@.next_snake(keys, tick_fired),
            !report.eaten ==> final(self)@.food == old(self)@.food,
            report.eaten ==> match final(self)@.food {
                Some(cell) => in_grid(cell) && !old(self)@.moved(keys, tick_fired).cells().contains(
                    cell,
                ),
                None => forall|cell: (int, int)| #[trigger]
                    in_grid(cell) ==> old(self)@.moved(keys, tick_fired).cells().contains(cell),
            },
    {
        let collided = handle_snake_collision(&mut self.body);
        move_snake(&mut self.body, keys, tick_fired);
        let eaten = handle_food_eaten(&self.body, &mut self.food);
        let grow = eat_food(&self.body, &mut self.food, eaten);
        let mut signals: Vec<SnakeGrow> = Vec::new();
        match grow {
            Some(signal) => {
                signals.push(signal);
            },
            None => {},
        }
        let ghost moved = self.body@;
        grow_snake(&mut self.body, &signals);
        assert(moved.grown_by(1) == moved.grown()) by {
            reveal_with_fuel(Snake::grown_by, 2);
        }
        FrameReport { collided, eaten: eaten.is_some() }
    }
}

} // verus!
