//! Grid geometry: cells, headings, and movement on a grid whose edges wrap around.

use vstd::prelude::*;

verus! {

/// Default number of columns of the arena.
pub const ARENA_WIDTH: i32 = 10;

/// Default number of rows of the arena.
pub const ARENA_HEIGHT: i32 = 10;

/// A cell of the grid, by column `x` and row `y`.
#[derive(Clone, Copy, PartialEq, Eq, Structural, Debug)]
pub struct Position {
    pub x: i32,
    pub y: i32,
}

/// A heading of the snake.
#[derive(Clone, Copy, PartialEq, Eq, Structural, Debug)]
pub enum Direction {
    Left,
    Right,
    Up,
    Down,
}

impl Direction {
    /// The heading that points the other way.
    pub open spec fn opposite_spec(&self) -> Direction {
        match self {
            Direction::Left => Direction::Right,
            Direction::Right => Direction::Left,
            Direction::Up => Direction::Down,
            Direction::Down => Direction::Up,
        }
    }

    /// The change of the column that one step in this heading makes.
    pub open spec fn dx(self) -> int {
        match self {
            Direction::Left => -1,
            Direction::Right => 1,
            Direction::Up => 0,
            Direction::Down => 0,
        }
    }

    /// The change of the row that one step in this heading makes.
    pub open spec fn dy(self) -> int {
        match self {
            Direction::Left => 0,
            Direction::Right => 0,
            Direction::Up => 1,
            Direction::Down => -1,
        }
    }

    /// Returns the heading that points the other way.
    #[verifier::when_used_as_spec(opposite_spec)]
    pub fn opposite(&self) -> (r: Direction)
        ensures
            r == self.opposite_spec(),
    {
        match self {
            Direction::Left => Direction::Right,
            Direction::Right => Direction::Left,
            Direction::Up => Direction::Down,
            Direction::Down => Direction::Up,
        }
    }
}

/// Where a coordinate that left `0..bound` comes back in: below zero it becomes the last
/// coordinate, at or above `bound` it becomes the first. A coordinate inside stays.
pub open spec fn wrap_spec(coord: int, bound: int) -> int {
    if coord < 0 {
        bound - 1
    } else if coord >= bound {
        0
    } else {
        coord
    }
}

/// Brings a coordinate back into `0..bound`.
pub fn wrap(coord: i32, bound: i32) -> (r: i32)
    requires
        bound >= 1,
    ensures
        r == wrap_spec(coord as int, bound as int),
        0 <= r < bound,
{
    if coord < 0 {
        bound - 1
    } else if coord >= bound {
        0
    } else {
        coord
    }
}

/// The grid: `width` columns and `height` rows.
#[derive(Clone, Copy, PartialEq, Eq, Structural, Debug)]
pub struct Arena {
    pub width: i32,
    pub height: i32,
}

impl Arena {
    /// A grid has at least one column and one row.
    pub open spec fn wf(self) -> bool {
        self.width >= 1 && self.height >= 1
    }

    /// Whether `p` is a cell of this grid.
    pub open spec fn contains(self, p: Position) -> bool {
        0 <= p.x < self.width && 0 <= p.y < self.height
    }

    /// The cell reached from `p` by one step in heading `d`, each axis wrapped by itself.
    pub open spec fn advance_spec(self, p: Position, d: Direction) -> Position {
        Position {
            x: wrap_spec(p.x + d.dx(), self.width as int) as i32,
            y: wrap_spec(p.y + d.dy(), self.height as int) as i32,
        }
    }

    /// Makes a grid, or `None` where a side is not positive.
    pub fn new(width: i32, height: i32) -> (r: Option<Arena>)
        ensures
            r == (if width >= 1 && height >= 1 {
                Some(Arena { width, height })
            } else {
                None
            }),
    {
        if width >= 1 && height >= 1 {
            Some(Arena { width, height })
        } else {
            None
        }
    }

    /// Tells whether `p` is a cell of this grid.
    pub fn holds(&self, p: Position) -> (r: bool)
        ensures
            r == self.contains(p),
    {
        0 <= p.x && p.x < self.width && 0 <= p.y && p.y < self.height
    }

    /// Moves `p` one step in heading `d` and wraps it around the edges.
    pub fn advance(&self, p: Position, d: Direction) -> (r: Position)
        requires
            self.wf(),
            self.contains(p),
        ensures
            r == self.advance_spec(p, d),
            self.contains(r),
    {
        let x: i32 = match d {
            Direction::Left => p.x - 1,
            Direction::Right => p.x + 1,
            Direction::Up => p.x,
            Direction::Down => p.x,
        };
        let y: i32 = match d {
            Direction::Left => p.y,
            Direction::Right => p.y,
            Direction::Up => p.y + 1,
            Direction::Down => p.y - 1,
        };
        Position { x: wrap(x, self.width), y: wrap(y, self.height) }
    }
}

impl Default for Arena {
    /// The grid of the default size.
    fn default() -> (r: Arena)
        ensures
            r == (Arena { width: ARENA_WIDTH, height: ARENA_HEIGHT }),
    {
        Arena { width: ARENA_WIDTH, height: ARENA_HEIGHT }
    }
}

} // verus!
