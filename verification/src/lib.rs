//! Search core of a turn-based four-player grid-combat bot.
//!
//! Heroes walk a square board, capture gold mines, fight each other and heal
//! at taverns.  The library simulates the game forward with make/unmake,
//! hashes positions incrementally (Zobrist), answers shortest-path queries
//! over the fixed board topology with a memoized breadth-first search, and
//! searches the game tree with a best-reply alpha/beta driven by MTD-f under
//! a wall-clock deadline.
use vstd::prelude::*;

pub mod board;
pub mod bot;
pub mod direction;
pub mod game;
pub mod hero;
pub mod lru;
pub mod mv;
pub mod position;
pub mod state;
pub mod tile;
pub mod transposition_table;
pub mod zobrist;

verus! {

/// Failures surfaced to callers as values.
#[derive(Clone, Copy, Debug, PartialEq, Eq, Structural)]
pub enum BotError {
    /// A two-byte glyph in the board payload is not one of the known tiles.
    MalformedTile,
    /// A hero id outside `1..=4`.
    BadHeroId,
}

} // verus!
