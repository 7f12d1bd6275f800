use vim_snake::grid::{Direction, Position, ARENA_HEIGHT, ARENA_WIDTH};

fn at(x: i32, y: i32) -> Position {
    Position { x, y }
}

#[test]
fn arena_is_fifty_by_fifty() {
    assert_eq!(ARENA_WIDTH, 50);
    assert_eq!(ARENA_HEIGHT, 50);
}

#[test]
fn opposite_swaps_left_and_right() {
    assert_eq!(Direction::Left.opposite(), Direction::Right);
    assert_eq!(Direction::Right.opposite(), Direction::Left);
}

#[test]
fn opposite_swaps_up_and_down() {
    assert_eq!(Direction::Up.opposite(), Direction::Down);
    assert_eq!(Direction::Down.opposite(), Direction::Up);
}

#[test]
fn opposite_is_an_involution() {
    for d in [Direction::Left, Direction::Up, Direction::Down, Direction::Right] {
        assert_eq!(d.opposite().opposite(), d);
        assert_ne!(d.opposite(), d);
    }
}

#[test]
fn step_left_decreases_x() {
    assert_eq!(at(10, 20).step(Direction::Left), at(9, 20));
}

#[test]
fn step_right_increases_x() {
    assert_eq!(at(10, 20).step(Direction::Right), at(11, 20));
}

#[test]
fn step_up_increases_y() {
    assert_eq!(at(10, 20).step(Direction::Up), at(10, 21));
}

#[test]
fn step_down_decreases_y() {
    assert_eq!(at(10, 20).step(Direction::Down), at(10, 19));
}

#[test]
fn step_then_step_back_returns() {
    for d in [Direction::Left, Direction::Up, Direction::Down, Direction::Right] {
        assert_eq!(at(0, 49).step(d).step(d.opposite()), at(0, 49));
    }
}

#[test]
fn corners_are_in_bounds() {
    assert!(at(0, 0).in_bounds());
    assert!(at(49, 0).in_bounds());
    assert!(at(0, 49).in_bounds());
    assert!(at(49, 49).in_bounds());
}

#[test]
fn cells_across_each_wall_are_out_of_bounds() {
    assert!(!at(-1, 20).in_bounds());
    assert!(!at(50, 20).in_bounds());
    assert!(!at(10, -1).in_bounds());
    assert!(!at(10, 50).in_bounds());
}

#[test]
fn last_column_is_in_bounds_for_every_row() {
    for y in 0..50 {
        assert!(at(49, y).in_bounds());
        assert!(!at(50, y).in_bounds());
    }
}

#[test]
fn far_cells_are_out_of_bounds() {
    assert!(!at(i32::MIN, 0).in_bounds());
    assert!(!at(0, i32::MAX).in_bounds());
    assert!(!at(-1, -1).in_bounds());
}

#[test]
fn stepping_off_each_wall_leaves_the_arena() {
    assert!(!at(0, 7).step(Direction::Left).in_bounds());
    assert!(!at(49, 7).step(Direction::Right).in_bounds());
    assert!(!at(7, 0).step(Direction::Down).in_bounds());
    assert!(!at(7, 49).step(Direction::Up).in_bounds());
    assert!(at(48, 7).step(Direction::Right).in_bounds());
}
