//! The snake's body: a chain of segments, head first, with the transitions
//! that steer it, move it by one tick, let it grow and start it afresh.

use vstd::prelude::*;
use crate::grid::{
    cells_of, in_grid, lemma_step_in_grid, lemma_step_inverse, step, Position, GRID_MAX, GRID_MIN,
};
use crate::movement::{ArrowKeys, Direction};

verus! {

/// What a segment is in contracts: the cell it occupies and the heading it
/// last moved in.
pub struct Segment {
    pub cell: (int, int),
    pub heading: Direction,
}

/// What a snake is in contracts.
///
/// `segments` is the chain in order: the head at index 0, then the tail. The
/// head's heading is the one it will move in at the next tick. `committed`
/// is the heading the head moved in at the last tick.
#[verifier::ext_equal]
pub struct Snake {
    pub segments: Seq<Segment>,
    pub committed: Direction,
}

impl Snake {
    /// The head: the first segment of the chain.
    pub open spec fn head(self) -> Segment {
        self.segments[0]
    }

    /// The last segment of the chain.
    pub open spec fn last(self) -> Segment {
        self.segments[self.segments.len() - 1]
    }

    /// What holds of every snake: it has a head and at least one tail
    /// segment, every segment lies on the playing field, and the head is
    /// not about to move back the way it came.
    pub open spec fn wf(self) -> bool {
        &&& self.segments.len() >= 2
        &&& forall|i: int| 0 <= i < self.segments.len() ==> in_grid(#[trigger] self.segments[i].cell)
        &&& self.head().heading != self.committed.opposite()
    }

    /// The snake a run starts with: the head at the origin heading right,
    /// and one tail segment in the cell to its left.
    pub open spec fn spawned() -> Snake {
        Snake {
            segments: seq![
                Segment { cell: (0, 0), heading: Direction::Right },
                Segment { cell: (-1, 0), heading: Direction::Right },
            ],
            committed: Direction::Right,
        }
    }

    /// The heading that the held keys ask for, if any. A key counts unless it
    /// asks for the exact reverse of the committed heading. Of several keys
    /// that count, right goes before left, left before down, down before up.
    pub open spec fn requested(self, keys: ArrowKeys) -> Option<Direction> {
        if keys.right && self.committed != Direction::Left {
            Some(Direction::Right)
        } else if keys.left && self.committed != Direction::Right {
            Some(Direction::Left)
        } else if keys.down && self.committed != Direction::Up {
            Some(Direction::Down)
        } else if keys.up && self.committed != Direction::Down {
            Some(Direction::Up)
        } else {
            None
        }
    }

    /// The snake after the held keys were applied: the head takes the
    /// requested heading, if there is one. Nothing else changes.
    pub open spec fn steered(self, keys: ArrowKeys) -> Snake {
        match self.requested(keys) {
            Some(heading) => Snake {
                segments: self.segments.update(
                    0,
                    Segment { cell: self.head().cell, heading },
                ),
                committed: self.committed,
            },
            None => self,
        }
    }

    /// The snake after one tick. Every segment moves one cell along its own
    /// heading. Then each tail segment takes over the heading that the
    /// segment before it moved in, and the head's heading is committed.
    pub open spec fn advanced(self) -> Snake {
        Snake {
            segments: Seq::new(
                self.segments.len(),
                |i: int|
                    Segment {
                        cell: step(self.segments[i].cell, self.segments[i].heading),
                        heading: if i == 0 {
                            self.segments[0].heading
                        } else {
                            self.segments[i - 1].heading
                        },
                    },
            ),
            committed: self.head().heading,
        }
    }

    /// The segment that growth appends: one cell behind the last segment,
    /// against its heading, and with the same heading.
    pub open spec fn trailing(self) -> Segment {
        Segment {
            cell: step(self.last().cell, self.last().heading.opposite()),
            heading: self.last().heading,
        }
    }

    /// The snake after it grew by one segment.
    pub open spec fn grown(self) -> Snake {
        Snake { segments: self.segments.push(self.trailing()), committed: self.committed }
    }

    /// The snake after it grew `count` times.
    pub open spec fn grown_by(self, count: nat) -> Snake
        decreases count,
    {
        if count == 0 {
            self
        } else {
            self.grown_by((count - 1) as nat).grown()
        }
    }

    /// Whether the head occupies the cell of some tail segment.
    pub open spec fn collided(self) -> bool {
        exists|i: int| 1 <= i < self.segments.len() && (#[trigger] self.segments[i]).cell == self.head().cell
    }

    /// The snake after the collision check: the starting snake if the head
    /// ran into the tail, the same snake otherwise.
    pub open spec fn checked(self) -> Snake {
        if self.collided() {
            Snake::spawned()
        } else {
            self
        }
    }

    /// Whether the chain hangs together: a step along its own heading
    /// brings each tail segment to the cell of the segment before it.
    pub open spec fn connected(self) -> bool {
        forall|i: int|
            1 <= i < self.segments.len() ==> step(
                (#[trigger] self.segments[i]).cell,
                self.segments[i].heading,
            ) == self.segments[i - 1].cell
    }

    /// The occupied cells, in chain order.
    pub open spec fn cells(self) -> Seq<(int, int)> {
        Seq::new(self.segments.len(), |i: int| self.segments[i].cell)
    }
}

/// One segment of the snake: where it is, and the heading it last moved in.
#[derive(Clone, Copy, PartialEq, Eq, Structural, Debug)]
pub struct SnakeSegment {
    pub position: Position,
    pub direction: Direction,
}

impl View for SnakeSegment {
    type V = Segment;

    open spec fn view(&self) -> Segment {
        Segment { cell: self.position@, heading: self.direction }
    }
}

impl SnakeSegment {
    /// A segment at `position` that last moved in `direction`.
    pub fn new(direction: Direction, position: Position) -> (r: SnakeSegment)
        ensures
            r == (SnakeSegment { position, direction }),
    {
        SnakeSegment { position, direction }
    }
}

/// The views of a list of segments, in the same order.
pub open spec fn segment_views(segments: Seq<SnakeSegment>) -> Seq<Segment> {
    Seq::new(segments.len(), |i: int| segments[i]@)
}

/// The snake: its segments in chain order, head first, and the heading the
/// head moved in at the last tick.
pub struct SnakeBody {
    head_direction: Direction,
    segments: Vec<SnakeSegment>,
}

impl View for SnakeBody {
    type V = Snake;

    closed spec fn view(&self) -> Snake {
        Snake { segments: segment_views(self.segments@), committed: self.head_direction }
    }
}

/// The signal that the snake is to grow by one segment.
#[derive(Clone, Copy, PartialEq, Eq, Structural, Debug)]
pub struct SnakeGrow;

/// The starting snake is valid and has not run into itself.
pub proof fn lemma_spawned_wf()
    ensures
        Snake::spawned().wf(),
        !Snake::spawned().collided(),
{
}

/// Steering keeps a valid snake valid, and never turns the head against the
/// committed heading.
pub proof fn lemma_steered_wf(snake: Snake, keys: ArrowKeys)
    requires
        snake.wf(),
    ensures
        snake.steered(keys).wf(),
        snake.steered(keys).head().heading != snake.committed.opposite(),
        snake.steered(keys).committed == snake.committed,
{
    let next = snake.steered(keys);
    assert forall|i: int| 0 <= i < next.segments.len() implies in_grid(
        #[trigger] next.segments[i].cell,
    ) by {
        assert(in_grid(snake.segments[i].cell));
    }
}

/// Growth keeps a valid snake valid.
pub proof fn lemma_grown_wf(snake: Snake)
    requires
        snake.wf(),
    ensures
        snake.grown().wf(),
{
    let next = snake.grown();
    assert(in_grid(snake.last().cell));
    lemma_step_in_grid(snake.last().cell, snake.last().heading.opposite());
    assert forall|i: int| 0 <= i < next.segments.len() implies in_grid(
        #[trigger] next.segments[i].cell,
    ) by {
        if i < snake.segments.len() {
            assert(in_grid(snake.segments[i].cell));
        }
    }
}

/// Away from the edge the cell behind is the neighbour against the heading:
/// one row down behind a segment that heads up, one column left behind one
/// that heads right, and so on. Only a last segment that stands on the edge
/// it has just come in by gets its new segment mirrored to the other side.
pub proof fn lemma_trailing_is_neighbour(snake: Snake)
    requires
        snake.wf(),
    ensures
        snake.trailing().heading == snake.last().heading,
        match snake.last().heading {
            Direction::Up => snake.last().cell.1 > GRID_MIN ==> snake.trailing().cell == (
                snake.last().cell.0,
                snake.last().cell.1 - 1,
            ),
            Direction::Down => snake.last().cell.1 < GRID_MAX ==> snake.trailing().cell == (
                snake.last().cell.0,
                snake.last().cell.1 + 1,
            ),
            Direction::Left => snake.last().cell.0 < GRID_MAX ==> snake.trailing().cell == (
                snake.last().cell.0 + 1,
                snake.last().cell.1,
            ),
            Direction::Right => snake.last().cell.0 > GRID_MIN ==> snake.trailing().cell == (
                snake.last().cell.0 - 1,
                snake.last().cell.1,
            ),
        },
{
}

/// A tick keeps a valid snake valid.
pub proof fn lemma_advanced_wf(snake: Snake)
    requires
        snake.wf(),
    ensures
        snake.advanced().wf(),
{
    let next = snake.advanced();
    assert forall|i: int| 0 <= i < next.segments.len() implies in_grid(
        #[trigger] next.segments[i].cell,
    ) by {
        assert(in_grid(snake.segments[i].cell));
    }
}

/// The starting snake hangs together.
pub proof fn lemma_spawned_connected()
    ensures
        Snake::spawned().connected(),
{
    let snake = Snake::spawned();
    assert forall|i: int| 1 <= i < snake.segments.len() implies step(
        (#[trigger] snake.segments[i]).cell,
        snake.segments[i].heading,
    ) == snake.segments[i - 1].cell by {
        assert(i == 1);
        assert(snake.segments[1].cell == (-1int, 0int));
        assert(snake.segments[0].cell == (0int, 0int));
    }
}

/// Steering keeps a snake that hangs together so: it touches the heading of
/// the head only.
pub proof fn lemma_steered_connected(snake: Snake, keys: ArrowKeys)
    requires
        snake.wf(),
        snake.connected(),
    ensures
        snake.steered(keys).connected(),
{
    let steered = snake.steered(keys);
    assert forall|i: int| 1 <= i < steered.segments.len() implies step(
        (#[trigger] steered.segments[i]).cell,
        steered.segments[i].heading,
    ) == steered.segments[i - 1].cell by {
        assert(steered.segments[i] == snake.segments[i]);
        assert(steered.segments[i - 1].cell == snake.segments[i - 1].cell);
    }
}

/// Growth keeps a snake that hangs together so: one step brings the new
/// segment to the cell of the old last segment.
pub proof fn lemma_grown_connected(snake: Snake)
    requires
        snake.wf(),
        snake.connected(),
    ensures
        snake.grown().connected(),
        step(snake.grown().last().cell, snake.grown().last().heading) == snake.last().cell,
{
    let grown = snake.grown();
    let n = snake.segments.len() as int;
    assert(in_grid(snake.segments[n - 1].cell));
    lemma_step_inverse(snake.last().cell, snake.last().heading);
    assert(grown.segments[n] == snake.trailing());
    assert(step(snake.trailing().cell, snake.trailing().heading) == snake.last().cell);
    assert forall|i: int| 1 <= i < grown.segments.len() implies step(
        (#[trigger] grown.segments[i]).cell,
        grown.segments[i].heading,
    ) == grown.segments[i - 1].cell by {
        if i < n {
            assert(grown.segments[i] == snake.segments[i]);
            assert(grown.segments[i - 1] == snake.segments[i - 1]);
        } else {
            assert(grown.segments[i - 1] == snake.last());
        }
    }
}

/// The tail follows the path of the head: in a snake that hangs together, a
/// tick brings each tail segment to the cell that the segment before it has
/// just left, and the snake still hangs together.
pub proof fn lemma_tail_follows(snake: Snake)
    requires
        snake.wf(),
        snake.connected(),
    ensures
        snake.advanced().connected(),
        forall|i: int|
            1 <= i < snake.segments.len() ==> (#[trigger] snake.advanced().segments[i]).cell
                == snake.segments[i - 1].cell,
{
    let next = snake.advanced();
    assert forall|i: int| 1 <= i < snake.segments.len() implies (#[trigger] next.segments[i]).cell
        == snake.segments[i - 1].cell by {
        assert(step(snake.segments[i].cell, snake.segments[i].heading) == snake.segments[i
            - 1].cell);
    }
    assert forall|i: int| 1 <= i < next.segments.len() implies step(
        (#[trigger] next.segments[i]).cell,
        next.segments[i].heading,
    ) == next.segments[i - 1].cell by {
        assert(next.segments[i].cell == snake.segments[i - 1].cell);
        assert(next.segments[i].heading == snake.segments[i - 1].heading);
        assert(next.segments[i - 1].cell == step(
            snake.segments[i - 1].cell,
            snake.segments[i - 1].heading,
        ));
    }
}

/// The snake a run starts with: the head at the origin heading right, and
/// one tail segment in the cell to its left.
pub fn spawn_snake() -> (body: SnakeBody)
    ensures
        body.wf(),
        body@ == Snake::spawned(),
{
    let mut segments: Vec<SnakeSegment> = Vec::new();
    segments.push(SnakeSegment::new(Direction::Right, Position { x: 0, y: 0 }));
    segments.push(SnakeSegment::new(Direction::Right, Position { x: -1, y: 0 }));
    let body = SnakeBody { head_direction: Direction::Right, segments };
    assert(body@ =~= Snake::spawned());
    body
}

impl SnakeBody {
    /// Whether this body is a valid snake.
    pub open spec fn wf(&self) -> bool {
        self@.wf()
    }

    /// The snake made of `segments`, head first, whose head moved in
    /// `head_direction` at the last tick; `None` where that is no valid
    /// snake.
    pub fn from_segments(head_direction: Direction, segments: Vec<SnakeSegment>) -> (r: Option<
        SnakeBody,
    >)
        ensures
            ({
                let snake = Snake {
                    segments: segment_views(segments@),
                    committed: head_direction,
                };
                match r {
                    Some(body) => snake.wf() && body@ == snake,
                    None => !snake.wf(),
                }
            }),
    {
        let n: usize = segments.len();
        if n < 2 {
            return None;
        }
        if segments[0].direction == head_direction.opposite() {
            return None;
        }
        let mut i: usize = 0;
        while i < n
            invariant
                i <= n,
                n == segments.len(),
                forall|k: int| 0 <= k < i ==> in_grid((#[trigger] segments[k]).position@),
            decreases n - i,
        {
            if !segments[i].position.is_in_grid() {
                assert(!in_grid(segment_views(segments@)[i as int].cell));
                return None;
            }
            i += 1;
        }
        Some(SnakeBody { head_direction, segments })
    }

    /// The number of segments, the head included.
    pub fn len(&self) -> (r: usize)
        ensures
            r == self@.segments.len(),
    {
        self.segments.len()
    }

    /// The heading the head moved in at the last tick.
    pub fn head_direction(&self) -> (r: Direction)
        ensures
            r == self@.committed,
    {
        self.head_direction
    }

    /// The segments in chain order, head first.
    pub fn segments(&self) -> (r: &Vec<SnakeSegment>)
        ensures
            segment_views(r@) == self@.segments,
    {
        &self.segments
    }

    /// The head.
    pub fn head(&self) -> (r: SnakeSegment)
        requires
            self.wf(),
        ensures
            r@ == self@.head(),
    {
        self.segments[0]
    }

    /// The occupied cells in chain order, head first.
    pub fn positions(&self) -> (r: Vec<Position>)
        ensures
            cells_of(r@) == self@.cells(),
    {
        let n: usize = self.segments.len();
        let mut cells: Vec<Position> = Vec::new();
        let mut i: usize = 0;
        while i < n
            invariant
                i <= n,
                n == self.segments.len(),
                cells.len() == i,
                forall|k: int| 0 <= k < i ==> (#[trigger] cells[k]) == self.segments[k].position,
            decreases n - i,
        {
            cells.push(self.segments[i].position);
            i += 1;
        }
        assert(cells_of(cells@) =~= self@.cells());
        cells
    }

    /// Whether the head occupies the cell of some tail segment.
    pub fn has_collided(&self) -> (r: bool)
        requires
            self.wf(),
        ensures
            r == self@.collided(),
    {
        let n: usize = self.segments.len();
        let head = self.segments[0].position;
        let mut i: usize = 1;
        while i < n
            invariant
                1 <= i <= n,
                n == self.segments.len(),
                head == self.segments[0].position,
                forall|k: int| 1 <= k < i ==> (#[trigger] self@.segments[k]).cell != self@.head().cell,
            decreases n - i,
        {
            if self.segments[i].position == head {
                assert(self@.segments[i as int].cell == self@.head().cell);
                return true;
            }
            i += 1;
        }
        false
    }

    /// Appends one segment: one cell behind the last segment, against its
    /// heading and mirrored at the edge like any step, and with the same
    /// heading. The segments that were there stay as they are.
    pub fn grow(&mut self)
        requires
            old(self).wf(),
        ensures
            final(self).wf(),
            final(self)@ == old(self)@.grown(),
            final(self)@.segments.len() == old(self)@.segments.len() + 1,
            final(self)@.last().cell == step(
                old(self)@.last().cell,
                old(self)@.last().heading.opposite(),
            ),
            step(final(self)@.last().cell, final(self)@.last().heading) == old(self)@.last().cell,
    {
        let n: usize = self.segments.len();
        let last = self.segments[n - 1];
        assert(last@ == self@.last());
        assert(in_grid(self@.segments[n - 1].cell));
        let placement = last.position.step(last.direction.opposite());
        self.segments.push(SnakeSegment::new(last.direction, placement));
        proof {
            lemma_grown_wf(old(self)@);
            lemma_step_inverse(old(self)@.last().cell, old(self)@.last().heading);
            assert(self@ =~= old(self)@.grown());
        }
    }

    /// Applies the keys that are held to the head's heading. A key that asks
    /// for the exact reverse of the heading committed at the last tick is
    /// ignored.
    pub fn steer(&mut self, keys: ArrowKeys)
        requires
            old(self).wf(),
        ensures
            final(self).wf(),
            final(self)@ == old(self)@.steered(keys),
            final(self)@.head().heading != old(self)@.committed.opposite(),
    {
        let mut head = self.segments[0];
        if keys.up && self.head_direction != Direction::Down {
            head.direction = Direction::Up;
        }
        if keys.down && self.head_direction != Direction::Up {
            head.direction = Direction::Down;
        }
        if keys.left && self.head_direction != Direction::Right {
            head.direction = Direction::Left;
        }
        if keys.right && self.head_direction != Direction::Left {
            head.direction = Direction::Right;
        }
        self.segments.set(0, head);
        assert(self@ =~= old(self)@.steered(keys));
    }

    /// Moves the snake by one tick.
    ///
    /// Every segment moves one cell along its own heading, mirroring at the
    /// edge of the field. Only then do the headings travel down the chain:
    /// each tail segment takes the heading that the segment before it had
    /// when the tick began. The head keeps its heading, which becomes the
    /// committed one.
    pub fn advance(&mut self)
        requires
            old(self).wf(),
        ensures
            final(self).wf(),
            final(self)@ == old(self)@.advanced(),
            final(self)@.segments.len() == old(self)@.segments.len(),
            forall|i: int|
                1 <= i < old(self)@.segments.len() ==> (#[trigger] final(self)@.segments[i]).heading
                    == old(self)@.segments[i - 1].heading,
    {
        let ghost before = self@;
        let n: usize = self.segments.len();

        // The headings as they are when the tick begins, in chain order.
        let mut headings: Vec<Direction> = Vec::new();
        let mut i: usize = 0;
        while i < n
            invariant
                i <= n,
                n == self.segments.len(),
                headings.len() == i,
                self@ == before,
                forall|k: int| 0 <= k < i ==> headings[k] == before.segments[k].heading,
            decreases n - i,
        {
            headings.push(self.segments[i].direction);
            i += 1;
        }

        // Every segment moves along its own heading.
        i = 0;
        while i < n
            invariant
                i <= n,
                n == self.segments.len(),
                n == before.segments.len(),
                before.wf(),
                self.head_direction == before.committed,
                forall|k: int|
                    0 <= k < i ==> (#[trigger] self.segments[k])@ == (Segment {
                        cell: step(before.segments[k].cell, before.segments[k].heading),
                        heading: before.segments[k].heading,
                    }),
                forall|k: int| i <= k < n ==> (#[trigger] self.segments[k])@ == before.segments[k],
            decreases n - i,
        {
            let segment = self.segments[i];
            assert(segment@ == before.segments[i as int]);
            assert(in_grid(before.segments[i as int].cell));
            let moved = SnakeSegment::new(segment.direction, segment.position.step(segment.direction));
            self.segments.set(i, moved);
            i += 1;
        }

        // Each tail segment takes the heading of the segment before it.
        i = 1;
        while i < n
            invariant
                1 <= i <= n,
                n == self.segments.len(),
                n == before.segments.len(),
                n == headings.len(),
                self.head_direction == before.committed,
                forall|k: int| 0 <= k < n ==> headings[k] == before.segments[k].heading,
                forall|k: int|
                    0 <= k < n ==> (#[trigger] self.segments[k])@.cell == step(
                        before.segments[k].cell,
                        before.segments[k].heading,
                    ),
                self.segments[0]@.heading == before.segments[0].heading,
                forall|k: int|
                    1 <= k < i ==> (#[trigger] self.segments[k])@.heading == before.segments[k
                        - 1].heading,
            decreases n - i,
        {
            let segment = self.segments[i];
            self.segments.set(i, SnakeSegment::new(headings[i - 1], segment.position));
            i += 1;
        }

        self.head_direction = self.segments[0].direction;
        proof {
            lemma_advanced_wf(before);
            assert(self@ =~= before.advanced());
        }
    }
}

/// Lets the snake grow once for every signal in `events`.
pub fn grow_snake(body: &mut SnakeBody, events: &Vec<SnakeGrow>)
    requires
        old(body).wf(),
    ensures
        final(body).wf(),
        final(body)@ == old(body)@.grown_by(events.len() as nat),
        final(body)@.segments.len() == old(body)@.segments.len() + events.len(),
{
    let mut i: usize = 0;
    while i < events.len()
        invariant
            i <= events.len(),
            body.wf(),
            body@ == old(body)@.grown_by(i as nat),
            body@.segments.len() == old(body)@.segments.len() + i,
        decreases events.len() - i,
    {
        body.grow();
        i += 1;
    }
}

/// The collision check: if the head occupies the cell of a tail segment, the
/// whole snake is replaced by the starting snake. Says whether it was.
pub fn handle_snake_collision(body: &mut SnakeBody) -> (collided: bool)
    requires
        old(body).wf(),
    ensures
        final(body).wf(),
        collided == old(body)@.collided(),
        final(body)@ == old(body)@.checked(),
        collided ==> final(body)@ == Snake::spawned(),
        !collided ==> final(body)@ == old(body)@,
{
    if body.has_collided() {
        *body = spawn_snake();
        true
    } else {
        false
    }
}

} // verus!
