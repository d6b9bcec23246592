//! Per-player state.
use vstd::prelude::*;
use crate::direction::Direction;
use crate::position::Position;

verus! {

/// One player's gameplay state.  Ids run `1..=4`; `heroes[k-1].id == k`
/// throughout a game.  Display-only wire fields (player name, user id) live
/// with the driver, not here.
#[derive(Clone, Copy, Debug)]
pub struct Hero {
    pub id: usize,
    pub elo: u16,
    pub pos: Position,
    pub last_dir: Direction,
    pub life: u8,
    pub gold: u32,
    pub mine_count: u16,
    pub spawn_pos: Position,
    pub crashed: bool,
}

/// Hero equality weighs only the gameplay-affecting fields: id, position,
/// life, gold, mine count and the crash flag — not rating, spawn cell or
/// the last direction walked.
impl PartialEq for Hero {
    fn eq(&self, other: &Hero) -> (r: bool) {
        self.id == other.id && self.pos == other.pos && self.life == other.life && self.gold
            == other.gold && self.mine_count == other.mine_count && self.crashed == other.crashed
    }
}

impl vstd::std_specs::cmp::PartialEqSpecImpl for Hero {
    open spec fn obeys_eq_spec() -> bool {
        true
    }

    open spec fn eq_spec(&self, other: &Hero) -> bool {
        self.id == other.id && self.pos == other.pos && self.life == other.life && self.gold
            == other.gold && self.mine_count == other.mine_count && self.crashed == other.crashed
    }
}

} // verus!
