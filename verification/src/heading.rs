//! The direction resolver: from the keys held down to the head's next heading.

use vstd::prelude::*;
use crate::grid::Direction;

verus! {

/// The logical movement keys that are held down during one input pass.
#[derive(Clone, Copy, Debug, PartialEq, Eq, Structural)]
pub struct PressedKeys {
    pub left: bool,
    pub up: bool,
    pub down: bool,
    pub right: bool,
}

impl PressedKeys {
    /// The one heading that the held keys ask for: the first held key in the
    /// order right, up, down, left. No key held asks for nothing.
    pub open spec fn spec_candidate(self) -> Option<Direction> {
        if self.right {
            Some(Direction::Right)
        } else if self.up {
            Some(Direction::Up)
        } else if self.down {
            Some(Direction::Down)
        } else if self.left {
            Some(Direction::Left)
        } else {
            None
        }
    }

    /// No key held.
    pub fn none() -> (keys: PressedKeys)
        ensures
            keys == (PressedKeys { left: false, up: false, down: false, right: false }),
    {
        PressedKeys { left: false, up: false, down: false, right: false }
    }

    /// Exactly the key for `d` held.
    pub fn only(d: Direction) -> (keys: PressedKeys)
        ensures
            keys.spec_candidate() == Some(d),
            keys.left == (d == Direction::Left),
            keys.up == (d == Direction::Up),
            keys.down == (d == Direction::Down),
            keys.right == (d == Direction::Right),
    {
        PressedKeys {
            left: d == Direction::Left,
            up: d == Direction::Up,
            down: d == Direction::Down,
            right: d == Direction::Right,
        }
    }

    /// The one heading that the held keys ask for.
    #[verifier::when_used_as_spec(spec_candidate)]
    pub fn candidate(self) -> (c: Option<Direction>)
        ensures
            c == self.spec_candidate(),
    {
        if self.right {
            Some(Direction::Right)
        } else if self.up {
            Some(Direction::Up)
        } else if self.down {
            Some(Direction::Down)
        } else if self.left {
            Some(Direction::Left)
        } else {
            None
        }
    }
}

/// The head's two headings: the one it will take at the next move, and the one
/// it took at the last.
#[derive(Clone, Copy, Debug, PartialEq, Eq, Structural)]
pub struct SnakeHead {
    /// The heading applied by the most recent move.
    pub last_direction: Direction,
    /// The heading that the next move will apply.
    pub direction: Direction,
}

impl SnakeHead {
    /// The pending heading never reverses the heading last taken.
    pub open spec fn valid(self) -> bool {
        self.direction != self.last_direction.spec_opposite()
    }

    /// The head after one input pass: the candidate becomes the pending
    /// heading unless it reverses the heading last taken.
    pub open spec fn steered(self, keys: PressedKeys) -> SnakeHead {
        match keys.spec_candidate() {
            Some(d) if d != self.last_direction.spec_opposite() => SnakeHead {
                last_direction: self.last_direction,
                direction: d,
            },
            _ => self,
        }
    }

    /// The head after one move: the pending heading has been taken.
    pub open spec fn advanced(self) -> SnakeHead {
        SnakeHead { last_direction: self.direction, direction: self.direction }
    }

    /// A head that has just moved along `d`.
    pub fn heading(d: Direction) -> (head: SnakeHead)
        ensures
            head == (SnakeHead { last_direction: d, direction: d }),
            head.valid(),
    {
        SnakeHead { last_direction: d, direction: d }
    }

    /// Runs one input pass over the held keys.
    pub fn steer(&mut self, keys: PressedKeys)
        ensures
            *final(self) == old(self).steered(keys),
            old(self).valid() ==> final(self).valid(),
    {
        match keys.candidate() {
            Some(d) => {
                if d != self.last_direction.opposite() {
                    self.direction = d;
                }
            },
            None => {},
        }
    }

    /// Records that the pending heading has been taken.
    pub fn advance(&mut self)
        ensures
            *final(self) == old(self).advanced(),
            final(self).valid(),
    {
        self.last_direction = self.direction;
    }
}

} // verus!
