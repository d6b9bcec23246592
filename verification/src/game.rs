//! Global match state: the four heroes, the board, and the turn counter.
use vstd::prelude::*;
use crate::board::{cell_at, in_bounds, pos_in_bounds, Board};
use crate::position::Position;
use crate::hero::Hero;
use crate::tile::{tile_kind, Tile};

verus! {

/// Caps that keep the arithmetic of long games inside machine integers:
/// a match never runs longer than this many turns.
pub const MAX_TURNS_CAP: usize = 1000000;

/// Mining income per turn is bounded by the number of mine cells, itself at
/// most the cell count of the largest board.
pub const GOLD_BASE_CAP: u32 = 0x40000000;

/// How many cells of `s` hold a mine owned by `k`.
pub open spec fn count_mines_of(s: Seq<Tile>, k: int) -> int
    decreases s.len(),
{
    if s.len() == 0 {
        0
    } else {
        count_mines_of(s.drop_last(), k) + if s.last() == Tile::Mine(k as usize) {
            1int
        } else {
            0int
        }
    }
}

/// How many cells of `s` hold a mine owned by anyone.
pub open spec fn owned_mines(s: Seq<Tile>) -> int
    decreases s.len(),
{
    if s.len() == 0 {
        0
    } else {
        owned_mines(s.drop_last()) + match s.last() {
            Tile::Mine(k) => if k >= 1 {
                1int
            } else {
                0int
            },
            _ => 0int,
        }
    }
}

/// Rewriting one cell shifts the owner counts by the departing and the
/// arriving tile.
pub proof fn lemma_count_update(s: Seq<Tile>, i: int, t: Tile, k: int)
    requires
        0 <= i < s.len(),
    ensures
        count_mines_of(s.update(i, t), k) == count_mines_of(s, k) - (if s[i] == Tile::Mine(
            k as usize,
        ) {
            1int
        } else {
            0int
        }) + (if t == Tile::Mine(k as usize) {
            1int
        } else {
            0int
        }),
    decreases s.len(),
{
    if i == s.len() - 1 {
        assert(s.update(i, t).drop_last() =~= s.drop_last());
    } else {
        assert(s.update(i, t).drop_last() =~= s.drop_last().update(i, t));
        lemma_count_update(s.drop_last(), i, t, k);
    }
}

/// An owner's count never exceeds the cell count.
pub proof fn lemma_count_le_len(s: Seq<Tile>, k: int)
    ensures
        0 <= count_mines_of(s, k) <= s.len(),
    decreases s.len(),
{
    if s.len() > 0 {
        lemma_count_le_len(s.drop_last(), k);
    }
}

/// A cell holding `Mine(k)` witnesses a positive count for `k`.
pub proof fn lemma_count_pos(s: Seq<Tile>, i: int, k: int)
    requires
        0 <= i < s.len(),
        s[i] == Tile::Mine(k as usize),
    ensures
        count_mines_of(s, k) >= 1,
    decreases s.len(),
{
    lemma_count_le_len(s.drop_last(), k);
    if i < s.len() - 1 {
        lemma_count_pos(s.drop_last(), i, k);
    }
}

/// When no cell holds `Mine(k)` the count for `k` is zero.
pub proof fn lemma_count_zero(s: Seq<Tile>, k: int)
    requires
        forall|i: int| 0 <= i < s.len() ==> #[trigger] s[i] != Tile::Mine(k as usize),
    ensures
        count_mines_of(s, k) == 0,
    decreases s.len(),
{
    if s.len() > 0 {
        lemma_count_zero(s.drop_last(), k);
    }
}

/// Over a grid of valid tiles, the owned-mine total splits into the four
/// per-hero counts.
pub proof fn lemma_owned_split(s: Seq<Tile>)
    requires
        forall|i: int| 0 <= i < s.len() ==> crate::tile::tile_ok(#[trigger] s[i]),
    ensures
        owned_mines(s) == count_mines_of(s, 1) + count_mines_of(s, 2) + count_mines_of(s, 3)
            + count_mines_of(s, 4),
    decreases s.len(),
{
    if s.len() > 0 {
        assert(forall|i: int|
            0 <= i < s.drop_last().len() ==> crate::tile::tile_ok(#[trigger] s.drop_last()[i]));
        lemma_owned_split(s.drop_last());
    }
}

/// One full match as the server reports it, minus the wire-only strings.
pub struct Game {
    pub turn: usize,
    pub max_turns: usize,
    pub heroes: Vec<Hero>,
    pub board: Board,
    pub finished: bool,
}

impl Game {
    /// Hero `k` (1-based) of a well-formed game.
    pub open spec fn hero(self, k: int) -> Hero {
        self.heroes@[k - 1]
    }

    /// Per-hero sanity: ids in order, positions on the board and mirrored
    /// by hero tiles, spawn cells on walkable ground, lives in `1..=100`,
    /// mine counts equal to the owned-tile counts, and gold below the
    /// overflow-safety line for the current turn.
    pub open spec fn heroes_ok(self) -> bool {
        let c = self.board.board@;
        let s = self.board.size as int;
        &&& self.heroes@.len() == 4
        &&& forall|i: int|
            0 <= i < 4 ==> {
                let h = #[trigger] self.heroes@[i];
                &&& h.id == i + 1
                &&& pos_in_bounds(s, h.pos)
                &&& pos_in_bounds(s, h.spawn_pos)
                &&& cell_at(c, s, h.pos.x as int, h.pos.y as int) == Tile::Hero((i + 1) as usize)
                &&& tile_kind(cell_at(c, s, h.spawn_pos.x as int, h.spawn_pos.y as int)) == 1
                &&& 1 <= h.life <= 100
                &&& h.mine_count == count_mines_of(c, i + 1)
                &&& h.gold <= GOLD_BASE_CAP + 1225 * self.turn
            }
    }

    /// Tile-side sanity: every hero tile points back at its hero.
    pub open spec fn tiles_ok(self) -> bool {
        let c = self.board.board@;
        let s = self.board.size as int;
        forall|x: int, y: int|
            #![trigger cell_at(c, s, x, y)]
            in_bounds(s, x, y) ==> match cell_at(c, s, x, y) {
                Tile::Hero(k) => 1 <= k <= 4 && self.heroes@[k - 1].pos == (Position {
                    x: x as i8,
                    y: y as i8,
                }),
                _ => true,
            }
    }

    /// Law: the heroes' mine counts sum to the number of owned mine tiles
    /// on the board.  Well-formedness carries the per-hero counts, and
    /// every move preserves well-formedness, so the conservation holds
    /// after every `make_move`.
    pub proof fn lemma_mine_conservation(self)
        requires
            self.wf(),
        ensures
            self.heroes@[0].mine_count + self.heroes@[1].mine_count + self.heroes@[2].mine_count
                + self.heroes@[3].mine_count == owned_mines(self.board.board@),
    {
        lemma_owned_split(self.board.board@);
    }

    /// Well-formedness of a whole game.
    pub open spec fn wf(self) -> bool {
        &&& self.board.wf()
        &&& self.heroes_ok()
        &&& self.tiles_ok()
        &&& self.turn <= self.max_turns
        &&& self.max_turns <= MAX_TURNS_CAP
        &&& (self.finished <==> self.turn == self.max_turns)
    }
}

} // verus!
