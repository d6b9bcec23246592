//! The contents of one board cell.
use vstd::prelude::*;

verus! {

/// What a board cell holds.  `Mine(0)` is an unowned mine; `Mine(k)` for
/// `k` in `1..=4` is owned by hero `k`.  `Hero(k)` is the hero standing there.
#[derive(Clone, Copy, Debug, PartialEq, Eq, Structural)]
pub enum Tile {
    Wall,
    Air,
    Tavern,
    Mine(usize),
    Hero(usize),
}

/// A tile the game can actually produce: mine owners in `0..=4`,
/// hero ids in `1..=4`.
pub open spec fn tile_ok(t: Tile) -> bool {
    match t {
        Tile::Mine(k) => k <= 4,
        Tile::Hero(k) => 1 <= k <= 4,
        _ => true,
    }
}

/// The Zobrist code of a tile: `Wall -> 0`, `Air -> 1`, `Tavern -> 2`,
/// `Mine(k) -> 3 + k`, `Hero(k) -> 7 + k`; `0..12` for every valid tile.
pub open spec fn tile_code(t: Tile) -> int {
    match t {
        Tile::Wall => 0,
        Tile::Air => 1,
        Tile::Tavern => 2,
        Tile::Mine(k) => 3 + k,
        Tile::Hero(k) => 7 + k,
    }
}

/// Walkable cells: the breadth-first search passes through these.
pub open spec fn is_walkable(t: Tile) -> bool {
    match t {
        Tile::Air => true,
        Tile::Hero(_) => true,
        _ => false,
    }
}

/// Terminal cells: a path may end on these but never crosses them.
pub open spec fn is_terminal(t: Tile) -> bool {
    match t {
        Tile::Tavern => true,
        Tile::Mine(_) => true,
        _ => false,
    }
}

/// The kind of a tile: wall, walkable, tavern or mine.  Board mutations
/// never change a cell's kind, which is what keeps the path cache valid
/// across mine-ownership flips and hero movement.
pub open spec fn tile_kind(t: Tile) -> int {
    match t {
        Tile::Wall => 0,
        Tile::Air => 1,
        Tile::Hero(_) => 1,
        Tile::Tavern => 2,
        Tile::Mine(_) => 3,
    }
}

/// Does the tile hold a mine (owned or not)?
pub open spec fn is_mine(t: Tile) -> bool {
    match t {
        Tile::Mine(_) => true,
        _ => false,
    }
}

/// The owner of a mine tile (0 when unowned); meaningless for other tiles.
pub open spec fn mine_owner(t: Tile) -> int {
    match t {
        Tile::Mine(k) => k as int,
        _ => -1,
    }
}

impl Tile {
    /// The Zobrist code of this tile.
    pub fn to_usize(&self) -> (r: usize)
        requires
            tile_ok(*self),
        ensures
            r == tile_code(*self),
            r < 12,
    {
        match *self {
            Tile::Wall => 0,
            Tile::Air => 1,
            Tile::Tavern => 2,
            Tile::Mine(x) => 3 + x,
            Tile::Hero(x) => 7 + x,
        }
    }
}

impl Default for Tile {
    /// Cells default to walls.
    fn default() -> (r: Tile)
        ensures
            r == Tile::Wall,
    {
        Tile::Wall
    }
}

} // verus!
