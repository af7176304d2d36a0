use snake_sim::grid::Position;
use snake_sim::movement::{move_snake, ArrowKeys, Direction};
use snake_sim::snake::{
    grow_snake, handle_snake_collision, spawn_snake, SnakeBody, SnakeGrow, SnakeSegment,
};

const NO_KEYS: ArrowKeys = ArrowKeys { up: false, down: false, left: false, right: false };

fn keys(up: bool, down: bool, left: bool, right: bool) -> ArrowKeys {
    ArrowKeys { up, down, left, right }
}

fn segment(x: i32, y: i32, direction: Direction) -> SnakeSegment {
    SnakeSegment::new(direction, Position { x, y })
}

fn body_of(head_direction: Direction, segments: Vec<SnakeSegment>) -> SnakeBody {
    match SnakeBody::from_segments(head_direction, segments) {
        Some(body) => body,
        None => panic!("not a valid snake"),
    }
}

#[test]
fn segment_new_keeps_its_arguments() {
    let made = SnakeSegment::new(Direction::Left, Position { x: 4, y: -2 });
    assert_eq!(made.position, Position { x: 4, y: -2 });
    assert_eq!(made.direction, Direction::Left);
}

#[test]
fn spawn_is_head_at_origin_and_one_tail_segment() {
    let body = spawn_snake();
    assert_eq!(body.len(), 2);
    assert_eq!(body.head_direction(), Direction::Right);
    assert_eq!(
        body.segments(),
        &vec![segment(0, 0, Direction::Right), segment(-1, 0, Direction::Right)]
    );
    assert_eq!(body.head(), segment(0, 0, Direction::Right));
    assert_eq!(body.positions(), vec![Position { x: 0, y: 0 }, Position { x: -1, y: 0 }]);
    assert!(!body.has_collided());
}

#[test]
fn press_up_then_one_tick() {
    let mut body = spawn_snake();
    move_snake(&mut body, keys(true, false, false, false), true);
    assert_eq!(body.segments(), &vec![segment(0, 1, Direction::Up), segment(0, 0, Direction::Up)]);
    assert_eq!(body.head_direction(), Direction::Up);
}

#[test]
fn press_up_without_a_tick_only_turns_the_head() {
    let mut body = spawn_snake();
    move_snake(&mut body, keys(true, false, false, false), false);
    assert_eq!(
        body.segments(),
        &vec![segment(0, 0, Direction::Up), segment(-1, 0, Direction::Right)]
    );
    assert_eq!(body.head_direction(), Direction::Right);
}

#[test]
fn tick_without_keys_moves_straight_on() {
    let mut body = spawn_snake();
    move_snake(&mut body, NO_KEYS, true);
    assert_eq!(
        body.segments(),
        &vec![segment(1, 0, Direction::Right), segment(0, 0, Direction::Right)]
    );
    assert_eq!(body.head_direction(), Direction::Right);
}

#[test]
fn frame_without_keys_or_tick_changes_nothing() {
    let mut body = spawn_snake();
    move_snake(&mut body, NO_KEYS, false);
    assert_eq!(
        body.segments(),
        &vec![segment(0, 0, Direction::Right), segment(-1, 0, Direction::Right)]
    );
    assert_eq!(body.head_direction(), Direction::Right);
}

#[test]
fn headings_travel_down_the_chain_one_segment_per_tick() {
    let mut body = body_of(
        Direction::Up,
        vec![
            segment(0, 0, Direction::Up),
            segment(0, -1, Direction::Up),
            segment(-1, -1, Direction::Right),
            segment(-1, 0, Direction::Down),
        ],
    );
    body.steer(keys(false, false, true, false));
    let before: Vec<SnakeSegment> = body.segments().clone();
    body.advance();
    let after = body.segments();
    assert_eq!(after.len(), before.len());
    assert_eq!(after[0].direction, before[0].direction);
    for i in 1..after.len() {
        assert_eq!(after[i].direction, before[i - 1].direction);
    }
    for i in 0..after.len() {
        assert_eq!(after[i].position, before[i].position.step(before[i].direction));
    }
    assert_eq!(
        after,
        &vec![
            segment(-1, 0, Direction::Left),
            segment(0, 0, Direction::Left),
            segment(0, -1, Direction::Up),
            segment(-1, -1, Direction::Right),
        ]
    );
    assert_eq!(body.head_direction(), Direction::Left);
}

#[test]
fn tail_follows_the_path_of_the_head() {
    let mut body = spawn_snake();
    grow_snake(&mut body, &vec![SnakeGrow, SnakeGrow]);
    move_snake(&mut body, keys(true, false, false, false), true);
    move_snake(&mut body, NO_KEYS, true);
    move_snake(&mut body, keys(false, false, true, false), true);
    assert_eq!(
        body.positions(),
        vec![
            Position { x: -1, y: 2 },
            Position { x: 0, y: 2 },
            Position { x: 0, y: 1 },
            Position { x: 0, y: 0 },
        ]
    );
    assert_eq!(
        body.segments(),
        &vec![
            segment(-1, 2, Direction::Left),
            segment(0, 2, Direction::Left),
            segment(0, 1, Direction::Up),
            segment(0, 0, Direction::Up),
        ]
    );
}

#[test]
fn reversal_of_the_committed_heading_is_ignored() {
    let mut body = spawn_snake();
    body.steer(keys(false, false, true, false));
    assert_eq!(body.head().direction, Direction::Right);

    let mut body = body_of(
        Direction::Up,
        vec![segment(0, 0, Direction::Up), segment(0, -1, Direction::Up)],
    );
    body.steer(keys(false, true, false, false));
    assert_eq!(body.head().direction, Direction::Up);

    let mut body = body_of(
        Direction::Down,
        vec![segment(0, 0, Direction::Down), segment(0, 1, Direction::Down)],
    );
    body.steer(keys(true, false, false, false));
    assert_eq!(body.head().direction, Direction::Down);

    let mut body = body_of(
        Direction::Left,
        vec![segment(0, 0, Direction::Left), segment(1, 0, Direction::Left)],
    );
    body.steer(keys(false, false, false, true));
    assert_eq!(body.head().direction, Direction::Left);
}

#[test]
fn turns_are_accepted() {
    for (pressed, expected) in [
        (keys(true, false, false, false), Direction::Up),
        (keys(false, true, false, false), Direction::Down),
        (keys(false, false, false, true), Direction::Right),
    ] {
        let mut body = spawn_snake();
        body.steer(pressed);
        assert_eq!(body.head().direction, expected);
        assert_eq!(body.head_direction(), Direction::Right);
    }
}

#[test]
fn reversal_is_judged_against_the_committed_heading_not_the_pending_one() {
    let mut body = spawn_snake();
    body.steer(keys(true, false, false, false));
    assert_eq!(body.head().direction, Direction::Up);
    // Down reverses the pending heading, but not the committed one.
    body.steer(keys(false, true, false, false));
    assert_eq!(body.head().direction, Direction::Down);
    // Left reverses the committed heading and stays ignored.
    body.steer(keys(false, false, true, false));
    assert_eq!(body.head().direction, Direction::Down);
    body.advance();
    assert_eq!(body.head_direction(), Direction::Down);
    body.steer(keys(true, false, false, false));
    assert_eq!(body.head().direction, Direction::Down);
}

#[test]
fn head_never_points_against_the_committed_heading() {
    let all = [false, true];
    let mut body = spawn_snake();
    let mut round = 0;
    for _ in 0..3 {
        for up in all {
            for down in all {
                for left in all {
                    for right in all {
                        round += 1;
                        let committed = body.head_direction();
                        move_snake(&mut body, keys(up, down, left, right), false);
                        assert_ne!(body.head().direction, committed.opposite());
                        assert_eq!(body.head_direction(), committed);
                        move_snake(&mut body, NO_KEYS, round % 3 == 0);
                        assert_ne!(body.head().direction, body.head_direction().opposite());
                    }
                }
            }
        }
    }
}

#[test]
fn of_several_keys_the_later_in_the_order_wins() {
    let mut body = spawn_snake();
    body.steer(keys(true, true, false, false));
    assert_eq!(body.head().direction, Direction::Down);

    let mut body = spawn_snake();
    body.steer(keys(true, true, false, true));
    assert_eq!(body.head().direction, Direction::Right);

    // Left is a reversal here and does not count, so down wins.
    let mut body = spawn_snake();
    body.steer(keys(true, true, true, false));
    assert_eq!(body.head().direction, Direction::Down);

    let mut body = body_of(
        Direction::Up,
        vec![segment(0, 0, Direction::Up), segment(0, -1, Direction::Up)],
    );
    body.steer(keys(true, true, true, false));
    assert_eq!(body.head().direction, Direction::Left);
    body.steer(keys(true, true, true, true));
    assert_eq!(body.head().direction, Direction::Right);
}

#[test]
fn growth_appends_one_cell_behind_the_last_segment() {
    let mut body = spawn_snake();
    body.grow();
    assert_eq!(body.len(), 3);
    assert_eq!(
        body.segments(),
        &vec![
            segment(0, 0, Direction::Right),
            segment(-1, 0, Direction::Right),
            segment(-2, 0, Direction::Right),
        ]
    );
}

#[test]
fn growth_goes_against_each_heading() {
    for (direction, behind) in [
        (Direction::Up, Position { x: 3, y: 2 }),
        (Direction::Down, Position { x: 3, y: 4 }),
        (Direction::Left, Position { x: 4, y: 3 }),
        (Direction::Right, Position { x: 2, y: 3 }),
    ] {
        let head = Position { x: 3, y: 3 }.step(direction);
        let mut body = body_of(
            direction,
            vec![SnakeSegment::new(direction, head), segment(3, 3, direction)],
        );
        body.grow();
        assert_eq!(body.len(), 3);
        assert_eq!(body.segments()[2], SnakeSegment::new(direction, behind));
        assert_eq!(body.segments()[1], segment(3, 3, direction));
    }
}

#[test]
fn growth_at_the_edge_is_mirrored_like_a_step() {
    let mut body = body_of(
        Direction::Right,
        vec![segment(-8, 0, Direction::Right), segment(-9, 0, Direction::Right)],
    );
    body.grow();
    assert_eq!(body.segments()[2], segment(9, 0, Direction::Right));
    let last = body.segments()[1];
    body.advance();
    assert_eq!(body.segments()[2].position, last.position);
}

#[test]
fn new_segment_steps_onto_the_cell_of_the_old_last_segment() {
    let mut body = spawn_snake();
    move_snake(&mut body, keys(true, false, false, false), true);
    let old_last = body.segments()[body.len() - 1];
    body.grow();
    let new_last = body.segments()[body.len() - 1];
    assert_eq!(new_last.direction, old_last.direction);
    assert_eq!(new_last.position.step(new_last.direction), old_last.position);
    assert_eq!(new_last.position, Position { x: 0, y: -1 });
}

#[test]
fn grow_snake_grows_once_per_signal() {
    let mut body = spawn_snake();
    grow_snake(&mut body, &vec![]);
    assert_eq!(body.len(), 2);
    grow_snake(&mut body, &vec![SnakeGrow]);
    assert_eq!(body.len(), 3);
    grow_snake(&mut body, &vec![SnakeGrow, SnakeGrow, SnakeGrow]);
    assert_eq!(body.len(), 6);
    assert_eq!(
        body.positions(),
        vec![
            Position { x: 0, y: 0 },
            Position { x: -1, y: 0 },
            Position { x: -2, y: 0 },
            Position { x: -3, y: 0 },
            Position { x: -4, y: 0 },
            Position { x: -5, y: 0 },
        ]
    );
    assert_eq!(body.head_direction(), Direction::Right);
}

#[test]
fn collision_replaces_the_snake_by_the_starting_snake() {
    let mut body = body_of(
        Direction::Up,
        vec![
            segment(0, 0, Direction::Up),
            segment(1, 0, Direction::Left),
            segment(1, 1, Direction::Down),
            segment(0, 1, Direction::Right),
            segment(0, 0, Direction::Up),
        ],
    );
    assert!(body.has_collided());
    assert!(handle_snake_collision(&mut body));
    assert_eq!(body.len(), 2);
    assert_eq!(
        body.segments(),
        &vec![segment(0, 0, Direction::Right), segment(-1, 0, Direction::Right)]
    );
    assert_eq!(body.head_direction(), Direction::Right);
    assert!(!handle_snake_collision(&mut body));
}

#[test]
fn collision_with_the_first_tail_segment_counts() {
    let mut body = body_of(
        Direction::Left,
        vec![segment(5, 5, Direction::Left), segment(5, 5, Direction::Up)],
    );
    assert!(handle_snake_collision(&mut body));
    assert_eq!(body.positions(), vec![Position { x: 0, y: 0 }, Position { x: -1, y: 0 }]);
}

#[test]
fn tail_segments_on_one_cell_are_no_collision() {
    let segments = vec![
        segment(0, 0, Direction::Up),
        segment(1, 0, Direction::Left),
        segment(1, 0, Direction::Left),
    ];
    let mut body = body_of(Direction::Up, segments.clone());
    assert!(!body.has_collided());
    assert!(!handle_snake_collision(&mut body));
    assert_eq!(body.segments(), &segments);
    assert_eq!(body.head_direction(), Direction::Up);
}

#[test]
fn snake_that_runs_into_itself_starts_afresh() {
    let mut body = spawn_snake();
    grow_snake(&mut body, &vec![SnakeGrow, SnakeGrow, SnakeGrow]);
    move_snake(&mut body, keys(true, false, false, false), true);
    assert!(!handle_snake_collision(&mut body));
    move_snake(&mut body, keys(false, false, true, false), true);
    assert!(!handle_snake_collision(&mut body));
    move_snake(&mut body, keys(false, true, false, false), true);
    assert_eq!(body.head().position, Position { x: -1, y: 0 });
    assert!(body.has_collided());
    assert!(handle_snake_collision(&mut body));
    assert_eq!(
        body.segments(),
        &vec![segment(0, 0, Direction::Right), segment(-1, 0, Direction::Right)]
    );
}

#[test]
fn from_segments_keeps_a_valid_snake() {
    let segments = vec![segment(9, 9, Direction::Down), segment(-9, -9, Direction::Left)];
    let body = body_of(Direction::Left, segments.clone());
    assert_eq!(body.segments(), &segments);
    assert_eq!(body.head_direction(), Direction::Left);
    assert_eq!(body.len(), 2);
}

#[test]
fn from_segments_rejects_a_chain_without_tail() {
    assert!(SnakeBody::from_segments(Direction::Right, vec![]).is_none());
    assert!(SnakeBody::from_segments(Direction::Right, vec![segment(0, 0, Direction::Right)])
        .is_none());
}

#[test]
fn from_segments_rejects_a_segment_off_the_field() {
    assert!(SnakeBody::from_segments(
        Direction::Right,
        vec![segment(0, 0, Direction::Right), segment(-10, 0, Direction::Right)],
    )
    .is_none());
    assert!(SnakeBody::from_segments(
        Direction::Right,
        vec![segment(0, 10, Direction::Right), segment(0, 0, Direction::Right)],
    )
    .is_none());
}

#[test]
fn from_segments_rejects_a_head_turned_against_the_committed_heading() {
    assert!(SnakeBody::from_segments(
        Direction::Right,
        vec![segment(0, 0, Direction::Left), segment(-1, 0, Direction::Right)],
    )
    .is_none());
    assert!(SnakeBody::from_segments(
        Direction::Up,
        vec![segment(0, 0, Direction::Down), segment(-1, 0, Direction::Right)],
    )
    .is_none());
}

#[test]
fn head_wraps_at_the_edge_and_the_tail_follows() {
    let mut body = body_of(
        Direction::Up,
        vec![segment(4, 9, Direction::Up), segment(4, 8, Direction::Up)],
    );
    body.advance();
    assert_eq!(body.positions(), vec![Position { x: 4, y: -9 }, Position { x: 4, y: 9 }]);
    body.advance();
    assert_eq!(body.positions(), vec![Position { x: 4, y: -8 }, Position { x: 4, y: -9 }]);
}

#[test]
fn every_segment_stays_on_the_field() {
    let mut body = spawn_snake();
    grow_snake(&mut body, &vec![SnakeGrow, SnakeGrow, SnakeGrow, SnakeGrow]);
    let presses = [
        keys(true, false, false, false),
        NO_KEYS,
        keys(false, false, false, true),
        NO_KEYS,
        NO_KEYS,
    ];
    for tick in 0..200 {
        move_snake(&mut body, presses[tick % presses.len()], true);
        if tick % 17 == 0 {
            body.grow();
        }
        for cell in body.positions() {
            assert!(cell.is_in_grid());
        }
        assert!(body.len() >= 2);
    }
}
