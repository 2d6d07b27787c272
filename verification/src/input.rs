//! The input resolver: from the directional keys that are held down to the snake's heading.

use vstd::prelude::*;
use crate::geometry::Direction;

verus! {

/// The directional keys that are held down at one moment.
#[derive(Clone, Copy, PartialEq, Eq, Structural, Debug)]
pub struct PressedKeys {
    pub left: bool,
    pub right: bool,
    pub down: bool,
    pub up: bool,
}

impl PressedKeys {
    /// No key is held down.
    pub open spec fn none() -> PressedKeys {
        PressedKeys { left: false, right: false, down: false, up: false }
    }

    /// The key of heading `d` is held down, and no other.
    pub open spec fn only(d: Direction) -> PressedKeys {
        PressedKeys {
            left: d == Direction::Left,
            right: d == Direction::Right,
            down: d == Direction::Down,
            up: d == Direction::Up,
        }
    }

    /// The heading that the keys ask for: the first key held down in the order left, right,
    /// down, up; with no key held down, the heading `current`.
    pub open spec fn candidate_spec(&self, current: Direction) -> Direction {
        if self.left {
            Direction::Left
        } else if self.right {
            Direction::Right
        } else if self.down {
            Direction::Down
        } else if self.up {
            Direction::Up
        } else {
            current
        }
    }

    /// Returns the heading that the keys ask for.
    #[verifier::when_used_as_spec(candidate_spec)]
    pub fn candidate(&self, current: Direction) -> (r: Direction)
        ensures
            r == self.candidate_spec(current),
    {
        if self.left {
            Direction::Left
        } else if self.right {
            Direction::Right
        } else if self.down {
            Direction::Down
        } else if self.up {
            Direction::Up
        } else {
            current
        }
    }
}

/// The heading after the keys were read: the heading they ask for, unless that would turn
/// the snake right around, in which case the heading stays.
pub open spec fn resolve_heading_spec(current: Direction, keys: PressedKeys) -> Direction {
    let asked = keys.candidate_spec(current);
    if asked == current.opposite_spec() {
        current
    } else {
        asked
    }
}

/// Resolves the keys held down into the snake's next heading.
#[verifier::when_used_as_spec(resolve_heading_spec)]
pub fn resolve_heading(current: Direction, keys: PressedKeys) -> (r: Direction)
    ensures
        r == resolve_heading_spec(current, keys),
        r != current.opposite_spec(),
{
    let asked = keys.candidate(current);
    if asked == current.opposite() {
        current
    } else {
        asked
    }
}

} // verus!
