//! What a game is set up with: the grid, and where and how the snake starts.

use vstd::prelude::*;
use crate::geometry::{Arena, Direction, Position, ARENA_HEIGHT, ARENA_WIDTH};

verus! {

/// The time between two movement ticks, in milliseconds.
pub const MOVEMENT_PERIOD_MILLIS: u64 = 150;

/// The time between two pieces of food, in milliseconds.
pub const FOOD_PERIOD_MILLIS: u64 = 1000;

/// The set-up of a game.
#[derive(Clone, Copy, PartialEq, Eq, Structural, Debug)]
pub struct Config {
    /// The grid that the game is played on.
    pub arena: Arena,
    /// The cell in which the head of a new snake starts.
    pub spawn: Position,
    /// The heading of a new snake.
    pub heading: Direction,
}

impl Config {
    /// The grid is well-formed and the snake starts on it.
    pub open spec fn wf(self) -> bool {
        self.arena.wf() && self.arena.contains(self.spawn)
    }

    /// The cell in which the one body segment of a new snake starts: one step behind the head.
    pub open spec fn behind(self) -> Position {
        self.arena.advance_spec(self.spawn, self.heading.opposite_spec())
    }

    /// Makes a set-up, or `None` where the snake would start off the grid or the grid has
    /// no cell.
    pub fn new(arena: Arena, spawn: Position, heading: Direction) -> (r: Option<Config>)
        ensures
            r == (if (Config { arena, spawn, heading }).wf() {
                Some(Config { arena, spawn, heading })
            } else {
                None
            }),
    {
        if arena.width >= 1 && arena.height >= 1 && arena.holds(spawn) {
            Some(Config { arena, spawn, heading })
        } else {
            None
        }
    }

    /// Tells whether this set-up is well-formed.
    pub fn is_valid(&self) -> (r: bool)
        ensures
            r == self.wf(),
    {
        self.arena.width >= 1 && self.arena.height >= 1 && self.arena.holds(self.spawn)
    }
}

impl Default for Config {
    /// The grid of the default size, with the snake starting in cell (3, 3) and heading up.
    fn default() -> (r: Config)
        ensures
            r == (Config {
                arena: Arena { width: ARENA_WIDTH, height: ARENA_HEIGHT },
                spawn: Position { x: 3, y: 3 },
                heading: Direction::Up,
            }),
            r.wf(),
            r.behind() == (Position { x: 3, y: 2 }),
    {
        Config {
            arena: Arena { width: ARENA_WIDTH, height: ARENA_HEIGHT },
            spawn: Position { x: 3, y: 3 },
            heading: Direction::Up,
        }
    }
}

} // verus!
