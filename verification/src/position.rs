//! Value-typed coordinates on the board.
use vstd::prelude::*;
use crate::direction::Direction;

verus! {

/// A cell coordinate: `x` is the row, `y` the column, both signed so that
/// off-board neighbors of edge cells can be represented.
#[derive(Clone, Copy, Debug, PartialEq, Eq, Structural)]
pub struct Position {
    pub x: i8,
    pub y: i8,
}

/// `|a - b|` over mathematical integers.
pub open spec fn abs_diff(a: int, b: int) -> int {
    if a >= b {
        a - b
    } else {
        b - a
    }
}

/// The cell one step from `p` in direction `d` (`p` itself for `Stay`).
pub open spec fn neighbor_of(p: Position, d: Direction) -> (int, int) {
    match d {
        Direction::North => (p.x - 1, p.y as int),
        Direction::East => (p.x as int, p.y + 1),
        Direction::South => (p.x + 1, p.y as int),
        Direction::West => (p.x as int, p.y - 1),
        Direction::Stay => (p.x as int, p.y as int),
    }
}

impl Position {
    /// The neighboring position in direction `d`; `Stay` returns `self`.
    pub fn neighbor(&self, dir: Direction) -> (r: Position)
        requires
            i8::MIN < self.x < i8::MAX,
            i8::MIN < self.y < i8::MAX,
        ensures
            (r.x as int, r.y as int) == neighbor_of(*self, dir),
    {
        match dir {
            Direction::North => Position { x: self.x - 1, y: self.y },
            Direction::East => Position { x: self.x, y: self.y + 1 },
            Direction::South => Position { x: self.x + 1, y: self.y },
            Direction::West => Position { x: self.x, y: self.y - 1 },
            Direction::Stay => Position { x: self.x, y: self.y },
        }
    }

    /// The four compass neighbors, in the order north, east, south, west.
    pub fn neighbors(&self) -> (r: [Position; 4])
        requires
            i8::MIN < self.x < i8::MAX,
            i8::MIN < self.y < i8::MAX,
        ensures
            r@.len() == 4,
            (r@[0].x as int, r@[0].y as int) == neighbor_of(*self, Direction::North),
            (r@[1].x as int, r@[1].y as int) == neighbor_of(*self, Direction::East),
            (r@[2].x as int, r@[2].y as int) == neighbor_of(*self, Direction::South),
            (r@[3].x as int, r@[3].y as int) == neighbor_of(*self, Direction::West),
    {
        [
            Position { x: self.x - 1, y: self.y },
            Position { x: self.x, y: self.y + 1 },
            Position { x: self.x + 1, y: self.y },
            Position { x: self.x, y: self.y - 1 },
        ]
    }

    /// `|x1 - x2| + |y1 - y2|` on the integer grid.
    pub fn manhattan_distance(&self, other: &Position) -> (r: usize)
        ensures
            r == abs_diff(self.x as int, other.x as int) + abs_diff(
                self.y as int,
                other.y as int,
            ),
    {
        let dx: i32 = if self.x >= other.x {
            self.x as i32 - other.x as i32
        } else {
            other.x as i32 - self.x as i32
        };
        let dy: i32 = if self.y >= other.y {
            self.y as i32 - other.y as i32
        } else {
            other.y as i32 - self.y as i32
        };
        (dx + dy) as usize
    }
}

} // verus!
