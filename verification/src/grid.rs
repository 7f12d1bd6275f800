//! Grid geometry: the arena, its cells and the four unit steps.

use vstd::prelude::*;

verus! {

/// Number of cells along the horizontal axis of the arena.
pub const ARENA_WIDTH: u32 = 50;

/// Number of cells along the vertical axis of the arena.
pub const ARENA_HEIGHT: u32 = 50;

/// One of the four headings. `Up` increases `y`.
#[derive(Clone, Copy, Debug, PartialEq, Eq, Structural)]
pub enum Direction {
    Left,
    Up,
    Down,
    Right,
}

impl Direction {
    /// The heading that points the other way.
    pub open spec fn spec_opposite(self) -> Direction {
        match self {
            Direction::Left => Direction::Right,
            Direction::Right => Direction::Left,
            Direction::Up => Direction::Down,
            Direction::Down => Direction::Up,
        }
    }

    /// Horizontal component of the unit step along this heading.
    pub open spec fn dx(self) -> int {
        match self {
            Direction::Left => -1,
            Direction::Right => 1,
            _ => 0,
        }
    }

    /// Vertical component of the unit step along this heading.
    pub open spec fn dy(self) -> int {
        match self {
            Direction::Up => 1,
            Direction::Down => -1,
            _ => 0,
        }
    }

    /// The heading that points the other way.
    #[verifier::when_used_as_spec(spec_opposite)]
    pub fn opposite(self) -> (r: Direction)
        ensures
            r == self.spec_opposite(),
    {
        match self {
            Direction::Left => Direction::Right,
            Direction::Right => Direction::Left,
            Direction::Up => Direction::Down,
            Direction::Down => Direction::Up,
        }
    }
}

/// A grid cell. A cell of the arena has `0 <= x < ARENA_WIDTH` and
/// `0 <= y < ARENA_HEIGHT`; other values name cells outside it.
#[derive(Clone, Copy, Debug, PartialEq, Eq, Structural)]
pub struct Position {
    pub x: i32,
    pub y: i32,
}

impl Position {
    /// Whether the cell lies inside the arena.
    pub open spec fn in_arena(self) -> bool {
        0 <= self.x < ARENA_WIDTH && 0 <= self.y < ARENA_HEIGHT
    }

    /// Whether a unit step from this cell, in any direction, stays within `i32`.
    pub open spec fn can_step(self) -> bool {
        i32::MIN < self.x < i32::MAX && i32::MIN < self.y < i32::MAX
    }

    /// The neighbouring cell one unit step along `d`.
    pub open spec fn spec_step(self, d: Direction) -> Position {
        Position { x: (self.x + d.dx()) as i32, y: (self.y + d.dy()) as i32 }
    }

    /// Whether the cell lies inside the arena.
    pub fn in_bounds(&self) -> (inside: bool)
        ensures
            inside == self.in_arena(),
    {
        self.x >= 0 && self.y >= 0 && (self.x as u32) < ARENA_WIDTH && (self.y as u32)
            < ARENA_HEIGHT
    }

    /// The neighbouring cell one unit step along `d`.
    #[verifier::when_used_as_spec(spec_step)]
    pub fn step(self, d: Direction) -> (next: Position)
        requires
            self.can_step(),
        ensures
            next == self.spec_step(d),
            next.x == self.x + d.dx(),
            next.y == self.y + d.dy(),
    {
        match d {
            Direction::Left => Position { x: self.x - 1, y: self.y },
            Direction::Right => Position { x: self.x + 1, y: self.y },
            Direction::Up => Position { x: self.x, y: self.y + 1 },
            Direction::Down => Position { x: self.x, y: self.y - 1 },
        }
    }
}

/// Every cell of the arena can take a unit step, and the step leaves the arena
/// exactly when it crosses one of the four walls.
pub proof fn lemma_step_from_arena(p: Position, d: Direction)
    requires
        p.in_arena(),
    ensures
        p.can_step(),
        p.spec_step(d).x == p.x + d.dx(),
        p.spec_step(d).y == p.y + d.dy(),
        !p.spec_step(d).in_arena() <==> (p.spec_step(d).x == -1 || p.spec_step(d).x == ARENA_WIDTH
            || p.spec_step(d).y == -1 || p.spec_step(d).y == ARENA_HEIGHT),
{
}

} // verus!
