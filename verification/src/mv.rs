//! One expansion of the best-reply tree.
use vstd::prelude::*;
use crate::direction::Direction;

verus! {

/// A node expansion: which player the move belongs to (0 for the bot's
/// own turn, `1..=3` for the opponents in seat order after it), and the
/// four directions applied over the next four plies.
#[derive(Clone, Copy, Debug)]
pub struct Move {
    pub player: u8,
    pub directions: [Direction; 4],
}

/// Moves compare by owner and by all four directions.
impl PartialEq for Move {
    fn eq(&self, other: &Move) -> (r: bool) {
        let r = self.player == other.player && self.directions[0] == other.directions[0]
            && self.directions[1] == other.directions[1] && self.directions[2]
            == other.directions[2] && self.directions[3] == other.directions[3];
        proof {
            if r {
                assert(self.directions@ =~= other.directions@);
            }
        }
        r
    }
}

impl vstd::std_specs::cmp::PartialEqSpecImpl for Move {
    open spec fn obeys_eq_spec() -> bool {
        true
    }

    open spec fn eq_spec(&self, other: &Move) -> bool {
        self.player == other.player && self.directions@ == other.directions@
    }
}

impl Default for Move {
    /// The null move: everyone passes.
    fn default() -> (r: Move)
        ensures
            r.player == 0,
            r.directions@ =~= seq![
                Direction::Stay,
                Direction::Stay,
                Direction::Stay,
                Direction::Stay,
            ],
    {
        Move {
            player: 0,
            directions: [Direction::Stay, Direction::Stay, Direction::Stay, Direction::Stay],
        }
    }
}

} // verus!
