//! The game simulator: legal moves and the one-turn make/unmake transition
//! with exact undo, specified by spec-level step functions.
use vstd::prelude::*;
use crate::board::{cell_at, idx_of, in_bounds, lemma_idx_bounds, lemma_idx_recover, pos_in_bounds};
use crate::direction::Direction;
use crate::game::{
    count_mines_of, lemma_count_le_len, lemma_count_pos, lemma_count_update, Game,
};
use crate::hero::Hero;
use crate::position::{abs_diff, neighbor_of, Position};
use crate::tile::{is_mine, tile_kind, tile_ok, Tile};

verus! {

/// The game plus the bot's own hero, cached from the hero array and kept
/// consistent after every move.
pub struct State {
    pub game: Game,
    pub hero: Hero,
}

/// What `make_move` hands back so `unmake_move` can restore the state
/// exactly: the four heroes as they were, and every overwritten tile with
/// its position, in write order.
pub struct UnmakeInfo {
    pub heroes: Vec<Hero>,
    pub tiles: Vec<(Position, Tile)>,
}

/// The cells obtained by replaying the recorded deltas last-first.
pub open spec fn rewind(cells: Seq<Tile>, deltas: Seq<(Position, Tile)>, size: int) -> Seq<Tile>
    decreases deltas.len(),
{
    if deltas.len() == 0 {
        cells
    } else {
        let pt = deltas.last();
        rewind(
            cells.update(idx_of(size, pt.0.x as int, pt.0.y as int), pt.1),
            deltas.drop_last(),
            size,
        )
    }
}

/// The deltas can be replayed over `cells` by in-kind tile writes.
pub open spec fn deltas_ok(cells: Seq<Tile>, deltas: Seq<(Position, Tile)>, size: int) -> bool
    decreases deltas.len(),
{
    if deltas.len() == 0 {
        true
    } else {
        let pt = deltas.last();
        &&& pos_in_bounds(size, pt.0)
        &&& tile_ok(pt.1)
        &&& tile_kind(pt.1) == tile_kind(cell_at(cells, size, pt.0.x as int, pt.0.y as int))
        &&& deltas_ok(
            cells.update(idx_of(size, pt.0.x as int, pt.0.y as int), pt.1),
            deltas.drop_last(),
            size,
        )
    }
}

/// The deltas form a replayable undo log leading from `cells` back to
/// `orig`.
pub open spec fn undoes(
    cells: Seq<Tile>,
    deltas: Seq<(Position, Tile)>,
    size: int,
    orig: Seq<Tile>,
) -> bool {
    deltas_ok(cells, deltas, size) && rewind(cells, deltas, size) == orig
}

/// Recording the overwritten tile before an in-kind write keeps the undo
/// log replayable and its destination unchanged.
pub proof fn lemma_undo_step(
    cells: Seq<Tile>,
    deltas: Seq<(Position, Tile)>,
    size: int,
    orig: Seq<Tile>,
    p: Position,
    t: Tile,
)
    requires
        undoes(cells, deltas, size, orig),
        pos_in_bounds(size, p),
        1 <= size <= 35,
        cells.len() == size * size,
        tile_ok(t),
        tile_ok(cells[idx_of(size, p.x as int, p.y as int)]),
        tile_kind(t) == tile_kind(cells[idx_of(size, p.x as int, p.y as int)]),
    ensures
        undoes(
            cells.update(idx_of(size, p.x as int, p.y as int), t),
            deltas.push((p, cells[idx_of(size, p.x as int, p.y as int)])),
            size,
            orig,
        ),
{
    lemma_idx_bounds(size, p.x as int, p.y as int);
    let i = idx_of(size, p.x as int, p.y as int);
    let oldt = cells[i];
    let newc = cells.update(i, t);
    let d2 = deltas.push((p, oldt));
    assert(d2.last() == (p, oldt));
    assert(d2.drop_last() =~= deltas);
    assert(newc.update(i, oldt) =~= cells);
    assert(cell_at(newc, size, p.x as int, p.y as int) == t);
}

// --------------------------------------------------------------------------
// Legal moves
// --------------------------------------------------------------------------
/// May the hero to move step in direction `d`?  Air always; a mine only
/// when not already its own; a tavern only with the two gold it costs.
pub open spec fn can_step(g: Game, d: Direction) -> bool {
    let h = g.heroes@[(g.turn % 4) as int];
    let np = neighbor_of(h.pos, d);
    let t = cell_at(g.board.board@, g.board.size as int, np.0, np.1);
    match t {
        Tile::Air => true,
        Tile::Mine(x) => x != h.id,
        Tile::Tavern => h.gold >= 2,
        _ => false,
    }
}

/// The legal directions of the hero to move, in compass order with `Stay`
/// last: empty once the game is over, `Stay` alone for a crashed hero.
pub open spec fn legal_dirs(g: Game) -> Seq<Direction> {
    let h = g.heroes@[(g.turn % 4) as int];
    if g.turn > g.max_turns {
        Seq::<Direction>::empty()
    } else if h.crashed {
        seq![Direction::Stay]
    } else {
        (if can_step(g, Direction::North) {
            seq![Direction::North]
        } else {
            Seq::<Direction>::empty()
        }) + (if can_step(g, Direction::East) {
            seq![Direction::East]
        } else {
            Seq::<Direction>::empty()
        }) + (if can_step(g, Direction::South) {
            seq![Direction::South]
        } else {
            Seq::<Direction>::empty()
        }) + (if can_step(g, Direction::West) {
            seq![Direction::West]
        } else {
            Seq::<Direction>::empty()
        }) + seq![Direction::Stay]
    }
}

/// The first `di` compass directions of the legal-move list (the hero to
/// move being live and the game running).
pub open spec fn legal_prefix(g: Game, di: int) -> Seq<Direction> {
    (if di >= 1 && can_step(g, Direction::North) {
        seq![Direction::North]
    } else {
        Seq::<Direction>::empty()
    }) + (if di >= 2 && can_step(g, Direction::East) {
        seq![Direction::East]
    } else {
        Seq::<Direction>::empty()
    }) + (if di >= 3 && can_step(g, Direction::South) {
        seq![Direction::South]
    } else {
        Seq::<Direction>::empty()
    }) + (if di >= 4 && can_step(g, Direction::West) {
        seq![Direction::West]
    } else {
        Seq::<Direction>::empty()
    })
}

// --------------------------------------------------------------------------
// The one-turn transition, written out as spec functions
// --------------------------------------------------------------------------
/// End-of-turn thirst: the mover loses one life, never below one.
pub open spec fn thirst(l: int) -> int {
    if l > 1 {
        l - 1
    } else {
        l
    }
}

/// A tavern drink: fifty life, clamped to one hundred.
pub open spec fn heal50(l: int) -> int {
    if l + 50 > 100 {
        100
    } else {
        l + 50
    }
}

/// Manhattan distance between two positions.
pub open spec fn manh(a: Position, b: Position) -> int {
    abs_diff(a.x as int, b.x as int) + abs_diff(a.y as int, b.y as int)
}

/// Every mine tile of `hero_id` restamped with `killer_id`'s mark.
pub open spec fn restamped(cells: Seq<Tile>, hero_id: int, killer_id: int) -> Seq<Tile> {
    Seq::new(
        cells.len(),
        |i: int|
            if cells[i] == Tile::Mine(hero_id as usize) {
                Tile::Mine(killer_id as usize)
            } else {
                cells[i]
            },
    )
}

/// What restamping does to each owner's mine count: the victim's whole
/// count moves to the killer.
pub proof fn lemma_count_restamped(c: Seq<Tile>, hero_id: int, killer_id: int, k: int)
    requires
        hero_id != killer_id,
        1 <= hero_id <= 4,
        0 <= killer_id <= 4,
        1 <= k <= 4,
    ensures
        count_mines_of(restamped(c, hero_id, killer_id), k) == count_mines_of(c, k) - (if k
            == hero_id {
            count_mines_of(c, hero_id)
        } else {
            0int
        }) + (if k == killer_id {
            count_mines_of(c, hero_id)
        } else {
            0int
        }),
    decreases c.len(),
{
    if c.len() > 0 {
        assert(restamped(c, hero_id, killer_id).drop_last() =~= restamped(
            c.drop_last(),
            hero_id,
            killer_id,
        ));
        assert(restamped(c, hero_id, killer_id).last() == (if c.last() == Tile::Mine(
            hero_id as usize,
        ) {
            Tile::Mine(killer_id as usize)
        } else {
            c.last()
        }));
        lemma_count_restamped(c.drop_last(), hero_id, killer_id, k);
    }
}

/// The hero array after a kill's mine-count transfer.
pub open spec fn transfer_heroes(hs: Seq<Hero>, hero_id: int, killer_id: int) -> Seq<Hero> {
    let v = hs[hero_id - 1].mine_count;
    let hs1 = if killer_id >= 1 {
        hs.update(
            killer_id - 1,
            Hero { mine_count: (hs[killer_id - 1].mine_count + v) as u16, ..hs[killer_id - 1] },
        )
    } else {
        hs
    };
    hs1.update(hero_id - 1, Hero { mine_count: 0, ..hs1[hero_id - 1] })
}

/// The revival at the end of a kill: when the spawn cell is free (air, or
/// the victim's own tile) the victim's tile moves there; either way its
/// life is restored.
pub open spec fn revive_spec(hs: Seq<Hero>, c: Seq<Tile>, size: int, hero_id: int) -> (
    Seq<Hero>,
    Seq<Tile>,
) {
    let h = hs[hero_id - 1];
    let st = cell_at(c, size, h.spawn_pos.x as int, h.spawn_pos.y as int);
    if st == Tile::Air || st == Tile::Hero(hero_id as usize) {
        let c1 = c.update(idx_of(size, h.pos.x as int, h.pos.y as int), Tile::Air).update(
            idx_of(size, h.spawn_pos.x as int, h.spawn_pos.y as int),
            Tile::Hero(hero_id as usize),
        );
        (hs.update(hero_id - 1, Hero { pos: h.spawn_pos, life: 100, ..h }), c1)
    } else {
        (hs.update(hero_id - 1, Hero { life: 100, ..h }), c)
    }
}

/// A whole kill: transfer the mines, kill the heroes standing on the
/// victim's spawn (each crediting the victim), then revive the victim.
/// `fuel` bounds the respawn-collision chain, which the hero count bounds
/// in any case.
pub open spec fn kill_spec(
    hs: Seq<Hero>,
    c: Seq<Tile>,
    size: int,
    hero_id: int,
    killer_id: int,
    fuel: nat,
) -> (Seq<Hero>, Seq<Tile>)
    decreases fuel, 1int, 0int,
{
    let hs1 = transfer_heroes(hs, hero_id, killer_id);
    let c1 = restamped(c, hero_id, killer_id);
    let (hs2, c2) = chain_spec(hs1, c1, size, hero_id, 1, fuel);
    revive_spec(hs2, c2, size, hero_id)
}

/// The respawn-collision chain: the three other heroes in turn, each
/// killed in its stead if it stands on the victim's spawn cell.
pub open spec fn chain_spec(
    hs: Seq<Hero>,
    c: Seq<Tile>,
    size: int,
    hero_id: int,
    i: int,
    fuel: nat,
) -> (Seq<Hero>, Seq<Tile>)
    decreases fuel, 0int, 4 - i,
{
    if i < 1 || i >= 4 {
        (hs, c)
    } else {
        let j = ((hero_id - 1) + i) % 4;
        let (hs1, c1) = if fuel > 0 && hs[j].pos == hs[hero_id - 1].spawn_pos {
            kill_spec(hs, c, size, j + 1, hero_id, (fuel - 1) as nat)
        } else {
            (hs, c)
        };
        chain_spec(hs1, c1, size, hero_id, i + 1, fuel)
    }
}

/// The neighbor-tile action of a move: nothing against a wall or a hero;
/// a paid drink at a tavern; a step onto air; a mine capture, or death on
/// the mine when life is too low.  The flag says whether the mover died.
pub open spec fn move_phase(g: Game, d: Direction) -> (Seq<Hero>, Seq<Tile>, bool) {
    let hs = g.heroes@;
    let c = g.board.board@;
    let size = g.board.size as int;
    let hi = (g.turn % 4) as int;
    let h = hs[hi];
    let np = neighbor_of(h.pos, d);
    let t = cell_at(c, size, np.0, np.1);
    match t {
        Tile::Tavern => if h.gold >= 2 {
            (
                hs.update(
                    hi,
                    Hero { gold: (h.gold - 2) as u32, life: heal50(h.life as int) as u8, ..h },
                ),
                c,
                false,
            )
        } else {
            (hs, c, false)
        },
        Tile::Air => {
            let npos = Position { x: np.0 as i8, y: np.1 as i8 };
            let c1 = c.update(idx_of(size, h.pos.x as int, h.pos.y as int), Tile::Air).update(
                idx_of(size, np.0, np.1),
                Tile::Hero((hi + 1) as usize),
            );
            (hs.update(hi, Hero { pos: npos, ..h }), c1, false)
        },
        Tile::Mine(o) => if o == hi + 1 {
            (hs, c, false)
        } else if h.life <= 20 {
            let r = kill_spec(hs, c, size, hi + 1, 0, 4);
            (r.0, r.1, true)
        } else {
            (
                capture_heroes(hs, hi, o as int),
                c.update(idx_of(size, np.0, np.1), Tile::Mine((hi + 1) as usize)),
                false,
            )
        },
        _ => (hs, c, false),
    }
}

/// The adjacency-damage phase: every other hero within one step of the
/// mover loses twenty life, or dies (credited to the mover) when at
/// twenty or below.
pub open spec fn adj_phase(hs: Seq<Hero>, c: Seq<Tile>, size: int, hi: int, i: int) -> (
    Seq<Hero>,
    Seq<Tile>,
)
    decreases 4 - i,
{
    if i < 0 || i >= 4 {
        (hs, c)
    } else if i == hi {
        adj_phase(hs, c, size, hi, i + 1)
    } else {
        let r = if manh(hs[i].pos, hs[hi].pos) == 1 {
            if hs[i].life <= 20 {
                kill_spec(hs, c, size, i + 1, hi + 1, 4)
            } else {
                (hs.update(i, Hero { life: (hs[i].life - 20) as u8, ..hs[i] }), c)
            }
        } else {
            (hs, c)
        };
        adj_phase(r.0, r.1, size, hi, i + 1)
    }
}

/// The state after the neighbor-tile action and (unless the mover died)
/// the adjacency damage.
pub open spec fn step_mid(g: Game, d: Direction) -> (Seq<Hero>, Seq<Tile>) {
    let hi = (g.turn % 4) as int;
    let m0 = move_phase(g, d);
    if m0.2 {
        (m0.0, m0.1)
    } else {
        adj_phase(m0.0, m0.1, g.board.size as int, hi, 0)
    }
}

/// One whole move: the neighbor-tile action, then (unless the mover died)
/// adjacency damage, then mining income (the pre-death count when the
/// mover died on a mine), thirst, and the recorded direction.
pub open spec fn step_state(g: Game, d: Direction) -> (Seq<Hero>, Seq<Tile>) {
    let hi = (g.turn % 4) as int;
    let pre_mc = g.heroes@[hi].mine_count;
    let m0 = move_phase(g, d);
    let r1 = step_mid(g, d);
    let hs1 = r1.0;
    let m = hs1[hi];
    let inc: int = if m0.2 {
        pre_mc as int
    } else {
        m.mine_count as int
    };
    let hs2 = hs1.update(hi, Hero { gold: (m.gold + inc) as u32, ..m });
    let m2 = hs2[hi];
    let hs3 = hs2.update(hi, Hero { life: thirst(m2.life as int) as u8, last_dir: d, ..m2 });
    (hs3, r1.1)
}

/// The hero array after one move.  (Opaque: callers of `make_move` carry
/// this as a name; the simulator's own proofs reveal it.)
#[verifier::opaque]
pub open spec fn step_heroes(g: Game, d: Direction) -> Seq<Hero> {
    step_state(g, d).0
}

/// The board cells after one move.  (Opaque, as `step_heroes`.)
#[verifier::opaque]
pub open spec fn step_cells(g: Game, d: Direction) -> Seq<Tile> {
    step_state(g, d).1
}

/// The hero array after a mine capture: the previous owner (when any)
/// loses one from its count, the mover gains one and pays twenty life.
pub open spec fn capture_heroes(hs: Seq<Hero>, hi: int, o: int) -> Seq<Hero> {
    let hs1 = if o >= 1 {
        hs.update(o - 1, Hero { mine_count: (hs[o - 1].mine_count - 1) as u16, ..hs[o - 1] })
    } else {
        hs
    };
    let h1 = hs1[hi];
    hs1.update(
        hi,
        Hero { mine_count: (h1.mine_count + 1) as u16, life: (h1.life - 20) as u8, ..h1 },
    )
}

/// A mine capture preserves game well-formedness: one mine tile changes
/// owner and the two affected counts move with it.
#[verifier::spinoff_prover]
#[verifier::rlimit(100)]
pub proof fn lemma_capture_wf(entry: Game, g: Game, hi: int, o: int, npx: int, npy: int)
    requires
        entry.wf(),
        0 <= hi < 4,
        cell_at(entry.board.board@, entry.board.size as int, npx, npy) == Tile::Mine(o as usize),
        0 <= o <= 4,
        o != hi + 1,
        entry.heroes@[hi].life > 20,
        g.board.wf(),
        g.board.size == entry.board.size,
        g.board.mine_pos == entry.board.mine_pos,
        g.board.tavern_pos == entry.board.tavern_pos,
        g.board.zobrist == entry.board.zobrist,
        g.turn == entry.turn,
        g.max_turns == entry.max_turns,
        g.finished == entry.finished,
        g.heroes@ == capture_heroes(entry.heroes@, hi, o),
        g.board.board@ == entry.board.board@.update(
            idx_of(entry.board.size as int, npx, npy),
            Tile::Mine((hi + 1) as usize),
        ),
    ensures
        g.wf(),
{
    let sz = entry.board.size as int;
    let c_entry = entry.board.board@;
    let c = g.board.board@;
    lemma_idx_bounds(sz, npx, npy);
    let i = idx_of(sz, npx, npy);
    lemma_count_update(c_entry, i, Tile::Mine((hi + 1) as usize), 1);
    lemma_count_update(c_entry, i, Tile::Mine((hi + 1) as usize), 2);
    lemma_count_update(c_entry, i, Tile::Mine((hi + 1) as usize), 3);
    lemma_count_update(c_entry, i, Tile::Mine((hi + 1) as usize), 4);
    lemma_count_le_len(c_entry, hi + 1);
    lemma_idx_bounds(sz, 0, 0);
    if o >= 1 {
        lemma_count_pos(c_entry, i, o);
    }
    assert forall|k: int| 0 <= k < 4 implies {
        let h = #[trigger] g.heroes@[k];
        &&& h.id == k + 1
        &&& pos_in_bounds(sz, h.pos)
        &&& pos_in_bounds(sz, h.spawn_pos)
        &&& cell_at(c, sz, h.pos.x as int, h.pos.y as int) == Tile::Hero((k + 1) as usize)
        &&& tile_kind(cell_at(c, sz, h.spawn_pos.x as int, h.spawn_pos.y as int)) == 1
        &&& 1 <= h.life <= 100
        &&& h.mine_count == count_mines_of(c, k + 1)
        &&& h.gold <= crate::game::GOLD_BASE_CAP + 1225 * g.turn
    } by {
        let hp = entry.heroes@[k];
        lemma_idx_bounds(sz, hp.pos.x as int, hp.pos.y as int);
        lemma_idx_bounds(sz, hp.spawn_pos.x as int, hp.spawn_pos.y as int);
    }
    assert(g.heroes_ok());
    assert forall|x: int, y: int|
        in_bounds(sz, x, y) implies match #[trigger] cell_at(c, sz, x, y) {
        Tile::Hero(k) => 1 <= k <= 4 && g.heroes@[k - 1].pos == (Position {
            x: x as i8,
            y: y as i8,
        }),
        _ => true,
    } by {
        lemma_idx_bounds(sz, x, y);
        match cell_at(c, sz, x, y) {
            Tile::Hero(k) => {
                assert(cell_at(c_entry, sz, x, y) == Tile::Hero(k));
                assert(entry.heroes@[k - 1].pos == (Position { x: x as i8, y: y as i8 }));
                assert(g.heroes@[k - 1].pos == entry.heroes@[k - 1].pos);
            },
            _ => {},
        }
    }
    assert(g.tiles_ok());
}

/// A restamp preserves game well-formedness: mine tiles keep being mines,
/// hero and tavern tiles are untouched, and the transferred counts match
/// the restamped grid.
#[verifier::spinoff_prover]
#[verifier::rlimit(100)]
pub proof fn lemma_transfer_wf(entry: Game, g: Game, hero_id: int, killer_id: int)
    requires
        entry.wf(),
        1 <= hero_id <= 4,
        0 <= killer_id <= 4,
        killer_id != hero_id,
        g.board.wf(),
        g.board.size == entry.board.size,
        g.board.mine_pos == entry.board.mine_pos,
        g.board.tavern_pos == entry.board.tavern_pos,
        g.board.zobrist == entry.board.zobrist,
        g.turn == entry.turn,
        g.max_turns == entry.max_turns,
        g.finished == entry.finished,
        g.heroes@ == transfer_heroes(entry.heroes@, hero_id, killer_id),
        g.board.board@ == restamped(entry.board.board@, hero_id, killer_id),
    ensures
        g.wf(),
{
    let sz = entry.board.size as int;
    let c_entry = entry.board.board@;
    let c = g.board.board@;
    lemma_idx_bounds(sz, 0, 0);
    lemma_count_le_len(c_entry, hero_id);
    lemma_count_le_len(c_entry, killer_id);
    lemma_count_restamped(c_entry, hero_id, killer_id, 1);
    lemma_count_restamped(c_entry, hero_id, killer_id, 2);
    lemma_count_restamped(c_entry, hero_id, killer_id, 3);
    lemma_count_restamped(c_entry, hero_id, killer_id, 4);
    assert forall|i: int| 0 <= i < 4 implies {
        let h = #[trigger] g.heroes@[i];
        &&& h.id == i + 1
        &&& pos_in_bounds(sz, h.pos)
        &&& pos_in_bounds(sz, h.spawn_pos)
        &&& cell_at(c, sz, h.pos.x as int, h.pos.y as int) == Tile::Hero((i + 1) as usize)
        &&& tile_kind(cell_at(c, sz, h.spawn_pos.x as int, h.spawn_pos.y as int)) == 1
        &&& 1 <= h.life <= 100
        &&& h.gold <= crate::game::GOLD_BASE_CAP + 1225 * g.turn
    } by {
        let hp = entry.heroes@[i];
        lemma_idx_bounds(sz, hp.pos.x as int, hp.pos.y as int);
        lemma_idx_bounds(sz, hp.spawn_pos.x as int, hp.spawn_pos.y as int);
    }
    assert(g.heroes_ok());
    assert forall|x: int, y: int|
        in_bounds(sz, x, y) implies match #[trigger] cell_at(c, sz, x, y) {
        Tile::Hero(k) => 1 <= k <= 4 && g.heroes@[k - 1].pos == (Position {
            x: x as i8,
            y: y as i8,
        }),
        _ => true,
    } by {
        lemma_idx_bounds(sz, x, y);
        match cell_at(c, sz, x, y) {
            Tile::Hero(k) => {
                assert(cell_at(c_entry, sz, x, y) == Tile::Hero(k));
                assert(entry.heroes@[k - 1].pos == (Position { x: x as i8, y: y as i8 }));
                assert(g.heroes@[k - 1].pos == entry.heroes@[k - 1].pos);
            },
            _ => {},
        }
    }
    assert(g.tiles_ok());
}

impl State {
    /// A consistent state: a well-formed game whose cached hero is the
    /// entry of the hero array its id names.
    pub open spec fn wf(self) -> bool {
        &&& self.game.wf()
        &&& 1 <= self.hero.id <= 4
        &&& self.hero == self.game.heroes@[self.hero.id - 1]
    }

    /// Everything a kill leaves alone: the board topology and caches, the
    /// clock, the cached hero, and every hero's identity, rating, spawn,
    /// crash flag, gold and last direction; positions only ever move to
    /// the owner's spawn, lives only ever reset to full.
    pub open spec fn kill_frame(pre: State, post: State) -> bool {
        &&& post.game.board.size == pre.game.board.size
        &&& post.game.board.mine_pos == pre.game.board.mine_pos
        &&& post.game.board.tavern_pos == pre.game.board.tavern_pos
        &&& post.game.board.zobrist == pre.game.board.zobrist
        &&& post.game.board.pathcache == pre.game.board.pathcache
        &&& post.game.turn == pre.game.turn
        &&& post.game.max_turns == pre.game.max_turns
        &&& post.game.finished == pre.game.finished
        &&& post.hero == pre.hero
        &&& post.game.heroes@.len() == 4
        &&& pre.game.heroes@.len() == 4
        &&& forall|i: int|
            0 <= i < 4 ==> {
                let a = #[trigger] pre.game.heroes@[i];
                let b = post.game.heroes@[i];
                b.id == a.id && b.elo == a.elo && b.spawn_pos == a.spawn_pos && b.crashed
                    == a.crashed && b.gold == a.gold && b.last_dir == a.last_dir
            }
        &&& forall|i: int|
            0 <= i < 4 ==> ((#[trigger] post.game.heroes@[i]).pos == pre.game.heroes@[i].pos
                || post.game.heroes@[i].pos == pre.game.heroes@[i].spawn_pos)
        &&& forall|i: int|
            0 <= i < 4 ==> ((#[trigger] post.game.heroes@[i]).life == pre.game.heroes@[i].life
                || post.game.heroes@[i].life == 100)
    }

    /// The legal moves of the hero whose turn it is.
    pub fn get_moves(&self) -> (r: Vec<Direction>)
        requires
            self.game.board.wf(),
            self.game.heroes@.len() == 4,
            pos_in_bounds(
                self.game.board.size as int,
                self.game.heroes@[(self.game.turn % 4) as int].pos,
            ),
        ensures
            r@ == legal_dirs(self.game),
    {
        let mut result: Vec<Direction> = Vec::new();
        let h_idx = self.game.turn % 4;
        if self.game.turn > self.game.max_turns {
            return result;
        }
        if self.game.heroes[h_idx].crashed {
            result.push(Direction::Stay);
            proof {
                assert(result@ =~= legal_dirs(self.game));
            }
            return result;
        }
        let hero_id = self.game.heroes[h_idx].id;
        let gold = self.game.heroes[h_idx].gold;
        let pos = self.game.heroes[h_idx].pos;
        let dirs = [Direction::North, Direction::East, Direction::South, Direction::West];
        let mut di: usize = 0;
        while di < 4
            invariant
                di <= 4,
                self.game.board.wf(),
                self.game.heroes@.len() == 4,
                h_idx == (self.game.turn % 4) as int,
                pos_in_bounds(self.game.board.size as int, pos),
                self.game.turn <= self.game.max_turns,
                !self.game.heroes@[h_idx as int].crashed,
                hero_id == self.game.heroes@[h_idx as int].id,
                gold == self.game.heroes@[h_idx as int].gold,
                pos == self.game.heroes@[h_idx as int].pos,
                dirs@ =~= seq![
                    Direction::North,
                    Direction::East,
                    Direction::South,
                    Direction::West,
                ],
                result@ == legal_prefix(self.game, di as int),
            decreases 4 - di,
        {
            let d = dirs[di];
            let np = pos.neighbor(d);
            let t = self.game.board.tile_at(&np);
            let ok = match t {
                Tile::Air => true,
                Tile::Mine(x) => x != hero_id,
                Tile::Tavern => gold >= 2,
                _ => false,
            };
            proof {
                assert(ok == can_step(self.game, dirs@[di as int]));
            }
            if ok {
                result.push(d);
            }
            proof {
                assert(result@ =~= legal_prefix(self.game, di + 1));
            }
            di = di + 1;
        }
        result.push(Direction::Stay);
        proof {
            assert(result@ =~= legal_dirs(self.game));
        }
        result
    }

    /// Moves a hero's tile to `dest` (air, or its own cell), logging both
    /// overwritten tiles for undo and updating its position.
    #[verifier::spinoff_prover]
    #[verifier::rlimit(100)]
    fn relocate(&mut self, hero_id: usize, dest: Position, umi: &mut UnmakeInfo, orig: Ghost<
        Seq<Tile>,
    >)
        requires
            old(self).game.wf(),
            1 <= hero_id <= 4,
            pos_in_bounds(old(self).game.board.size as int, dest),
            cell_at(
                old(self).game.board.board@,
                old(self).game.board.size as int,
                dest.x as int,
                dest.y as int,
            ) == Tile::Air || cell_at(
                old(self).game.board.board@,
                old(self).game.board.size as int,
                dest.x as int,
                dest.y as int,
            ) == Tile::Hero(hero_id),
            undoes(
                old(self).game.board.board@,
                old(umi).tiles@,
                old(self).game.board.size as int,
                orig@,
            ),
        ensures
            final(self).game.wf(),
            undoes(
                final(self).game.board.board@,
                final(umi).tiles@,
                final(self).game.board.size as int,
                orig@,
            ),
            final(umi).heroes == old(umi).heroes,
            final(self).game.board.size == old(self).game.board.size,
            final(self).game.board.mine_pos == old(self).game.board.mine_pos,
            final(self).game.board.tavern_pos == old(self).game.board.tavern_pos,
            final(self).game.board.zobrist == old(self).game.board.zobrist,
            final(self).game.board.pathcache == old(self).game.board.pathcache,
            final(self).game.turn == old(self).game.turn,
            final(self).game.max_turns == old(self).game.max_turns,
            final(self).game.finished == old(self).game.finished,
            final(self).hero == old(self).hero,
            final(self).game.heroes@ == old(self).game.heroes@.update(
                hero_id - 1,
                Hero { pos: dest, ..old(self).game.heroes@[hero_id - 1] },
            ),
            final(self).game.board.board@ == old(self).game.board.board@.update(
                idx_of(
                    old(self).game.board.size as int,
                    old(self).game.heroes@[hero_id - 1].pos.x as int,
                    old(self).game.heroes@[hero_id - 1].pos.y as int,
                ),
                Tile::Air,
            ).update(
                idx_of(old(self).game.board.size as int, dest.x as int, dest.y as int),
                Tile::Hero(hero_id),
            ),
    {
        let ghost entry = *old(self);
        let ghost sz = self.game.board.size as int;
        let cur = self.game.heroes[hero_id - 1].pos;
        let ghost pre = self.game.board.board@;
        let ghost pre_log = umi.tiles@;
        let ct = self.game.board.tile_at(&cur);
        umi.tiles.push((cur, ct));
        self.game.board.put_tile(&cur, Tile::Air);
        proof {
            lemma_idx_bounds(sz, cur.x as int, cur.y as int);
            lemma_idx_bounds(sz, dest.x as int, dest.y as int);
            lemma_undo_step(pre, pre_log, sz, orig@, cur, Tile::Air);
        }
        let ghost pre2 = self.game.board.board@;
        let ghost pre_log2 = umi.tiles@;
        let st2 = self.game.board.tile_at(&dest);
        umi.tiles.push((dest, st2));
        self.game.board.put_tile(&dest, Tile::Hero(hero_id));
        proof {
            lemma_undo_step(pre2, pre_log2, sz, orig@, dest, Tile::Hero(hero_id));
        }
        self.game.heroes[hero_id - 1].pos = dest;
        proof {
            let c = self.game.board.board@;
            let ci = idx_of(sz, cur.x as int, cur.y as int);
            let si = idx_of(sz, dest.x as int, dest.y as int);
            lemma_count_update(pre, ci, Tile::Air, 1);
            lemma_count_update(pre, ci, Tile::Air, 2);
            lemma_count_update(pre, ci, Tile::Air, 3);
            lemma_count_update(pre, ci, Tile::Air, 4);
            lemma_count_update(pre2, si, Tile::Hero(hero_id), 1);
            lemma_count_update(pre2, si, Tile::Hero(hero_id), 2);
            lemma_count_update(pre2, si, Tile::Hero(hero_id), 3);
            lemma_count_update(pre2, si, Tile::Hero(hero_id), 4);
            assert forall|x: int, y: int|
                in_bounds(sz, x, y) implies match #[trigger] cell_at(c, sz, x, y) {
                Tile::Hero(k) => 1 <= k <= 4 && self.game.heroes@[k - 1].pos == (Position {
                    x: x as i8,
                    y: y as i8,
                }),
                _ => true,
            } by {
                lemma_idx_bounds(sz, x, y);
                let i = idx_of(sz, x, y);
                if i == si {
                    assert(x == dest.x as int && y == dest.y as int);
                    assert(cell_at(c, sz, x, y) == Tile::Hero(hero_id));
                    assert(self.game.heroes@[hero_id - 1].pos == dest);
                } else if i == ci {
                    assert(cell_at(c, sz, x, y) == Tile::Air);
                } else {
                    assert(cell_at(c, sz, x, y) == cell_at(pre, sz, x, y));
                    match cell_at(pre, sz, x, y) {
                        Tile::Hero(k) => {
                            assert(entry.game.heroes@[k - 1].pos == (Position {
                                x: x as i8,
                                y: y as i8,
                            }));
                            assert(k != hero_id);
                            assert(self.game.heroes@[k - 1] == entry.game.heroes@[k - 1]);
                        },
                        _ => {},
                    }
                }
            }
            assert forall|i: int| 0 <= i < 4 implies {
                let h = #[trigger] self.game.heroes@[i];
                &&& cell_at(c, sz, h.pos.x as int, h.pos.y as int) == Tile::Hero((i + 1) as usize)
                &&& tile_kind(cell_at(c, sz, h.spawn_pos.x as int, h.spawn_pos.y as int)) == 1
            } by {
                let h = self.game.heroes@[i];
                lemma_idx_bounds(sz, h.pos.x as int, h.pos.y as int);
                lemma_idx_bounds(sz, h.spawn_pos.x as int, h.spawn_pos.y as int);
                let hp = entry.game.heroes@[i];
                lemma_idx_bounds(sz, hp.pos.x as int, hp.pos.y as int);
                lemma_idx_bounds(sz, hp.spawn_pos.x as int, hp.spawn_pos.y as int);
            }
            assert(self.game.heroes_ok());
            assert(self.game.wf());
        }
    }

    /// Moves the dying hero's mine count to the killer and restamps every
    /// mine tile it owns with the killer's id (0: back to unowned).
    #[verifier::spinoff_prover]
    #[verifier::rlimit(100)]
    fn transfer_mines(
        &mut self,
        hero_id: usize,
        killer_id: usize,
        umi: &mut UnmakeInfo,
        orig: Ghost<Seq<Tile>>,
    )
        requires
            old(self).game.wf(),
            1 <= hero_id <= 4,
            killer_id <= 4,
            killer_id != hero_id,
            undoes(
                old(self).game.board.board@,
                old(umi).tiles@,
                old(self).game.board.size as int,
                orig@,
            ),
        ensures
            final(self).game.wf(),
            undoes(
                final(self).game.board.board@,
                final(umi).tiles@,
                final(self).game.board.size as int,
                orig@,
            ),
            final(umi).heroes == old(umi).heroes,
            State::kill_frame(*old(self), *final(self)),
            final(self).game.heroes@ == transfer_heroes(
                old(self).game.heroes@,
                hero_id as int,
                killer_id as int,
            ),
            final(self).game.board.board@ == restamped(
                old(self).game.board.board@,
                hero_id as int,
                killer_id as int,
            ),
    {
        let ghost entry = *old(self);
        let ghost c_entry = self.game.board.board@;
        let ghost sz = self.game.board.size as int;
        proof {
            lemma_idx_bounds(sz, 0, 0);
            lemma_count_le_len(c_entry, hero_id as int);
            lemma_count_le_len(c_entry, killer_id as int);
        }
        let victim_mc = self.game.heroes[hero_id - 1].mine_count;
        if killer_id > 0 {
            let kmc = self.game.heroes[killer_id - 1].mine_count;
            self.game.heroes[killer_id - 1].mine_count = kmc + victim_mc;
        }
        self.game.heroes[hero_id - 1].mine_count = 0;
        proof {
            assert(self.game.heroes@ =~= transfer_heroes(
                entry.game.heroes@,
                hero_id as int,
                killer_id as int,
            ));
        }
        let mcount = self.game.board.mine_pos.len();
        let mut j: usize = 0;
        while j < mcount
            invariant
                j <= mcount,
                1 <= hero_id <= 4,
                killer_id <= 4,
                killer_id != hero_id,
                self.game.board.wf(),
                sz == self.game.board.size as int,
                self.game.board.size == entry.game.board.size,
                self.game.board.mine_pos == entry.game.board.mine_pos,
                self.game.board.tavern_pos == entry.game.board.tavern_pos,
                self.game.board.zobrist == entry.game.board.zobrist,
                self.game.board.pathcache == entry.game.board.pathcache,
                mcount == self.game.board.mine_pos@.len(),
                self.game.turn == entry.game.turn,
                self.game.max_turns == entry.game.max_turns,
                self.game.finished == entry.game.finished,
                self.hero == entry.hero,
                self.game.heroes@ == transfer_heroes(
                    entry.game.heroes@,
                    hero_id as int,
                    killer_id as int,
                ),
                entry.game.heroes@.len() == 4,
                umi.heroes == old(umi).heroes,
                undoes(self.game.board.board@, umi.tiles@, sz, orig@),
                self.game.board.board@.len() == sz * sz,
                forall|i: int|
                    0 <= i < sz * sz ==> (#[trigger] self.game.board.board@[i] == c_entry[i] || (
                    c_entry[i] == Tile::Mine(hero_id) && self.game.board.board@[i] == Tile::Mine(
                        killer_id,
                    ))),
                forall|jj: int|
                    0 <= jj < j ==> {
                        let p = #[trigger] self.game.board.mine_pos@[jj];
                        self.game.board.board@[idx_of(sz, p.x as int, p.y as int)]
                            != Tile::Mine(hero_id)
                    },
            decreases mcount - j,
        {
            let mp = self.game.board.mine_pos[j];
            let t = self.game.board.tile_at(&mp);
            let is_victims = match t {
                Tile::Mine(x) => x == hero_id,
                _ => false,
            };
            proof {
                lemma_idx_bounds(sz, mp.x as int, mp.y as int);
            }
            if is_victims {
                let ghost pre = self.game.board.board@;
                let ghost pre_log = umi.tiles@;
                umi.tiles.push((mp, t));
                self.game.board.put_tile(&mp, Tile::Mine(killer_id));
                proof {
                    let i = idx_of(sz, mp.x as int, mp.y as int);
                    lemma_undo_step(pre, pre_log, sz, orig@, mp, Tile::Mine(killer_id));
                    assert(umi.tiles@ == pre_log.push((mp, t)));
                    assert forall|jj: int| 0 <= jj < j + 1 implies {
                        let p = #[trigger] self.game.board.mine_pos@[jj];
                        self.game.board.board@[idx_of(sz, p.x as int, p.y as int)]
                            != Tile::Mine(hero_id)
                    } by {
                        let p = self.game.board.mine_pos@[jj];
                        lemma_idx_bounds(sz, p.x as int, p.y as int);
                    }
                }
            } else {
                proof {
                    assert(self.game.board.board@[idx_of(sz, mp.x as int, mp.y as int)]
                        != Tile::Mine(hero_id));
                }
            }
            j = j + 1;
        }
        proof {
            let c = self.game.board.board@;
            // every cell the victim owned sat in the mine list and has been
            // processed, so the final grid is exactly the restamped one
            assert forall|i: int| 0 <= i < sz * sz implies c[i] == restamped(
                c_entry,
                hero_id as int,
                killer_id as int,
            )[i] by {
                lemma_idx_recover(sz, i);
                let x = i / sz;
                let y = i % sz;
                if c_entry[i] == Tile::Mine(hero_id) {
                    assert(is_mine(cell_at(c, sz, x, y)));
                    assert(self.game.board.mine_pos@.contains(Position {
                        x: x as i8,
                        y: y as i8,
                    }));
                    let jj = choose|jj: int|
                        0 <= jj < self.game.board.mine_pos@.len() && self.game.board.mine_pos@[jj]
                            == Position { x: x as i8, y: y as i8 };
                    assert(c[idx_of(sz, x, y)] != Tile::Mine(hero_id));
                    assert(c[i] == Tile::Mine(killer_id));
                }
            }
            assert(c =~= restamped(c_entry, hero_id as int, killer_id as int));
            lemma_transfer_wf(entry.game, self.game, hero_id as int, killer_id as int);
        }
    }

    /// Returns the dying hero to its spawn cell (when free) with full life.
    #[verifier::spinoff_prover]
    #[verifier::rlimit(100)]
    fn revive(&mut self, hero_id: usize, umi: &mut UnmakeInfo, orig: Ghost<Seq<Tile>>)
        requires
            old(self).game.wf(),
            1 <= hero_id <= 4,
            undoes(
                old(self).game.board.board@,
                old(umi).tiles@,
                old(self).game.board.size as int,
                orig@,
            ),
        ensures
            final(self).game.wf(),
            undoes(
                final(self).game.board.board@,
                final(umi).tiles@,
                final(self).game.board.size as int,
                orig@,
            ),
            final(umi).heroes == old(umi).heroes,
            State::kill_frame(*old(self), *final(self)),
            final(self).game.heroes@ == revive_spec(
                old(self).game.heroes@,
                old(self).game.board.board@,
                old(self).game.board.size as int,
                hero_id as int,
            ).0,
            final(self).game.board.board@ == revive_spec(
                old(self).game.heroes@,
                old(self).game.board.board@,
                old(self).game.board.size as int,
                hero_id as int,
            ).1,
    {
        let ghost entry = *old(self);
        let ghost sz = self.game.board.size as int;
        let spawn = self.game.heroes[hero_id - 1].spawn_pos;
        let st = self.game.board.tile_at(&spawn);
        let free = match st {
            Tile::Air => true,
            Tile::Hero(x) => x == hero_id,
            _ => false,
        };
        if free {
            self.relocate(hero_id, spawn, umi, orig);
            let l = &mut self.game.heroes[hero_id - 1];
            l.life = 100;
            proof {
                assert(self.game.heroes@ =~= revive_spec(
                    entry.game.heroes@,
                    entry.game.board.board@,
                    sz,
                    hero_id as int,
                ).0);
                assert(self.game.heroes_ok());
                assert(self.game.tiles_ok());
                assert(self.game.wf());
            }
        } else {
            let l = &mut self.game.heroes[hero_id - 1];
            l.life = 100;
            proof {
                assert(self.game.heroes@ =~= revive_spec(
                    entry.game.heroes@,
                    entry.game.board.board@,
                    sz,
                    hero_id as int,
                ).0);
                assert(self.game.heroes_ok());
                assert(self.game.tiles_ok());
                assert(self.game.wf());
            }
        }
    }

    /// Kills hero `hero_id`, crediting `killer_id` (0 when the environment
    /// kills): the victim's mine count transfers to the killer and its mine
    /// tiles are restamped with the killer's id; heroes standing on the
    /// victim's spawn die in turn, the chain depth-limited by `fuel` (the
    /// hero count bounds it in any case); finally the victim revives at
    /// its spawn with full life.  A victim whose spawn is still occupied
    /// when the chain bottoms out revives in place; an unbounded recursion
    /// would not terminate on such a collision cycle.
    #[verifier::spinoff_prover]
    #[verifier::rlimit(100)]
    fn kill(
        &mut self,
        hero_id: usize,
        killer_id: usize,
        umi: &mut UnmakeInfo,
        fuel: u8,
        orig: Ghost<Seq<Tile>>,
    )
        requires
            old(self).game.wf(),
            1 <= hero_id <= 4,
            killer_id <= 4,
            killer_id != hero_id,
            undoes(
                old(self).game.board.board@,
                old(umi).tiles@,
                old(self).game.board.size as int,
                orig@,
            ),
        ensures
            final(self).game.wf(),
            undoes(
                final(self).game.board.board@,
                final(umi).tiles@,
                final(self).game.board.size as int,
                orig@,
            ),
            final(umi).heroes == old(umi).heroes,
            State::kill_frame(*old(self), *final(self)),
            final(self).game.heroes@ == kill_spec(
                old(self).game.heroes@,
                old(self).game.board.board@,
                old(self).game.board.size as int,
                hero_id as int,
                killer_id as int,
                fuel as nat,
            ).0,
            final(self).game.board.board@ == kill_spec(
                old(self).game.heroes@,
                old(self).game.board.board@,
                old(self).game.board.size as int,
                hero_id as int,
                killer_id as int,
                fuel as nat,
            ).1,
            final(self).game.heroes@[hero_id - 1].life == 100,
        decreases fuel,
    {
        let ghost entry = *old(self);
        let ghost sz = self.game.board.size as int;
        self.transfer_mines(hero_id, killer_id, umi, orig);
        let ghost hs1 = self.game.heroes@;
        let ghost c1 = self.game.board.board@;
        let spawn = self.game.heroes[hero_id - 1].spawn_pos;
        let mut i: usize = 1;
        while i < 4
            invariant
                1 <= i <= 4,
                1 <= hero_id <= 4,
                spawn == entry.game.heroes@[hero_id - 1].spawn_pos,
                fuel == fuel,
                self.game.wf(),
                sz == self.game.board.size as int,
                undoes(self.game.board.board@, umi.tiles@, sz, orig@),
                umi.heroes == old(umi).heroes,
                State::kill_frame(entry, *self),
                chain_spec(
                    self.game.heroes@,
                    self.game.board.board@,
                    sz,
                    hero_id as int,
                    i as int,
                    fuel as nat,
                ) == chain_spec(hs1, c1, sz, hero_id as int, 1, fuel as nat),
            decreases 4 - i,
        {
            let jdx = ((hero_id - 1) + i) % 4;
            let ghost pre = *self;
            let on_spawn = self.game.heroes[jdx].pos.x == spawn.x && self.game.heroes[jdx].pos.y
                == spawn.y;
            if fuel > 0 && on_spawn {
                proof {
                    assert(jdx != hero_id - 1);
                }
                let killed_id = self.game.heroes[jdx].id;
                self.kill(killed_id, hero_id, umi, fuel - 1, orig);
                proof {
                    assert(self.game.heroes@ == kill_spec(
                        pre.game.heroes@,
                        pre.game.board.board@,
                        sz,
                        jdx + 1,
                        hero_id as int,
                        (fuel - 1) as nat,
                    ).0);
                }
            }
            proof {
                // one unfolding of the chain at index i
                assert(chain_spec(
                    pre.game.heroes@,
                    pre.game.board.board@,
                    sz,
                    hero_id as int,
                    i as int,
                    fuel as nat,
                ) == chain_spec(
                    self.game.heroes@,
                    self.game.board.board@,
                    sz,
                    hero_id as int,
                    i + 1,
                    fuel as nat,
                ));
            }
            i = i + 1;
        }
        proof {
            assert(chain_spec(
                self.game.heroes@,
                self.game.board.board@,
                sz,
                hero_id as int,
                4,
                fuel as nat,
            ) == (self.game.heroes@, self.game.board.board@));
        }
        self.revive(hero_id, umi, orig);
    }

    /// The closing bookkeeping of a move: mining income, thirst, the
    /// recorded direction, the cached hero, and the turn advance.
    #[verifier::spinoff_prover]
    #[verifier::rlimit(100)]
    fn finish_turn(
        &mut self,
        h_idx: usize,
        premove_mc: u16,
        hero_died: bool,
        direction: Direction,
        g0: Ghost<Game>,
    )
        requires
            old(self).game.wf(),
            1 <= old(self).hero.id <= 4,
            g0@.wf(),
            h_idx == (g0@.turn % 4) as int,
            old(self).game.turn == g0@.turn,
            old(self).game.turn < old(self).game.max_turns,
            old(self).game.max_turns == g0@.max_turns,
            old(self).game.finished == g0@.finished,
            old(self).game.board.size == g0@.board.size,
            premove_mc == g0@.heroes@[h_idx as int].mine_count,
            hero_died == move_phase(g0@, direction).2,
            old(self).game.heroes@ == step_mid(g0@, direction).0,
            old(self).game.board.board@ == step_mid(g0@, direction).1,
        ensures
            final(self).wf(),
            final(self).game.turn == old(self).game.turn + 1,
            final(self).game.max_turns == old(self).game.max_turns,
            (final(self).game.finished <==> final(self).game.turn == final(self).game.max_turns),
            final(self).hero.id == old(self).hero.id,
            final(self).game.heroes@ == step_heroes(g0@, direction),
            final(self).game.board.board@ == step_cells(g0@, direction),
            final(self).game.board == old(self).game.board,
    {
        let ghost sz = self.game.board.size as int;
        proof {
            lemma_count_le_len(g0@.board.board@, h_idx + 1);
            lemma_count_le_len(self.game.board.board@, h_idx + 1);
            lemma_idx_bounds(sz, 0, 0);
        }
        let inc: u16 = if hero_died {
            premove_mc
        } else {
            self.game.heroes[h_idx].mine_count
        };
        let gd = self.game.heroes[h_idx].gold;
        self.game.heroes[h_idx].gold = gd + inc as u32;
        let l2 = self.game.heroes[h_idx].life;
        if l2 > 1 {
            self.game.heroes[h_idx].life = l2 - 1;
        }
        self.game.heroes[h_idx].last_dir = direction;
        self.hero = self.game.heroes[self.hero.id - 1];
        self.game.turn = self.game.turn + 1;
        if self.game.turn == self.game.max_turns {
            self.game.finished = true;
        }
        proof {
            reveal(step_heroes);
            reveal(step_cells);
            let st = step_state(g0@, direction);
            assert(self.game.heroes@ =~= st.0);
            assert(self.game.board.board@ == st.1);
            assert(self.game.heroes_ok());
            assert(self.game.wf());
        }
    }

    /// The neighbor-tile action of a move: nothing against walls and
    /// heroes, a paid drink at a tavern, a step onto air, a mine capture,
    /// or death on the mine when life is twenty or below.  Returns whether
    /// the mover died.
    #[verifier::spinoff_prover]
    #[verifier::rlimit(100)]
    fn act_on_neighbor(&mut self, direction: Direction, umi: &mut UnmakeInfo, orig: Ghost<
        Seq<Tile>,
    >) -> (died: bool)
        requires
            old(self).game.wf(),
            undoes(
                old(self).game.board.board@,
                old(umi).tiles@,
                old(self).game.board.size as int,
                orig@,
            ),
        ensures
            final(self).game.wf(),
            undoes(
                final(self).game.board.board@,
                final(umi).tiles@,
                final(self).game.board.size as int,
                orig@,
            ),
            final(umi).heroes == old(umi).heroes,
            final(self).game.board.size == old(self).game.board.size,
            final(self).game.board.mine_pos == old(self).game.board.mine_pos,
            final(self).game.board.tavern_pos == old(self).game.board.tavern_pos,
            final(self).game.board.zobrist == old(self).game.board.zobrist,
            final(self).game.board.pathcache == old(self).game.board.pathcache,
            final(self).game.turn == old(self).game.turn,
            final(self).game.max_turns == old(self).game.max_turns,
            final(self).game.finished == old(self).game.finished,
            final(self).hero == old(self).hero,
            final(self).game.heroes@ == move_phase(old(self).game, direction).0,
            final(self).game.board.board@ == move_phase(old(self).game, direction).1,
            died == move_phase(old(self).game, direction).2,
    {
        let ghost g0 = self.game;
        let ghost sz = self.game.board.size as int;
        let h_idx = self.game.turn % 4;
        let hero_pos = self.game.heroes[h_idx].pos;
        let hero_id = h_idx + 1;
        let npos = hero_pos.neighbor(direction);
        let nt = self.game.board.tile_at(&npos);
        let mut hero_died = false;
        match nt {
            Tile::Wall => {},
            Tile::Hero(_) => {},
            Tile::Tavern => {
                if self.game.heroes[h_idx].gold >= 2 {
                    let hg = self.game.heroes[h_idx].gold;
                    self.game.heroes[h_idx].gold = hg - 2;
                    let hl = self.game.heroes[h_idx].life;
                    let nl: u8 = if hl > 50 {
                        100
                    } else {
                        hl + 50
                    };
                    self.game.heroes[h_idx].life = nl;
                    proof {
                        assert(self.game.heroes_ok());
                        assert(self.game.wf());
                    }
                }
            },
            Tile::Air => {
                proof {
                    assert(pos_in_bounds(sz, npos));
                }
                self.relocate(hero_id, npos, umi, orig);
            },
            Tile::Mine(owner) => {
                if owner != hero_id {
                    if self.game.heroes[h_idx].life <= 20 {
                        hero_died = true;
                        self.kill(hero_id, 0, umi, 4, orig);
                    } else {
                        if owner > 0 {
                            proof {
                                lemma_idx_bounds(sz, npos.x as int, npos.y as int);
                                lemma_count_pos(
                                    self.game.board.board@,
                                    idx_of(sz, npos.x as int, npos.y as int),
                                    owner as int,
                                );
                            }
                            let omc = self.game.heroes[owner - 1].mine_count;
                            self.game.heroes[owner - 1].mine_count = omc - 1;
                        }
                        proof {
                            lemma_count_le_len(g0.board.board@, h_idx + 1);
                            lemma_idx_bounds(sz, 0, 0);
                        }
                        let mc = self.game.heroes[h_idx].mine_count;
                        self.game.heroes[h_idx].mine_count = mc + 1;
                        let hl = self.game.heroes[h_idx].life;
                        self.game.heroes[h_idx].life = hl - 20;
                        let ghost pre = self.game.board.board@;
                        let ghost pre_log = umi.tiles@;
                        umi.tiles.push((npos, nt));
                        self.game.board.put_tile(&npos, Tile::Mine(hero_id));
                        proof {
                            lemma_idx_bounds(sz, npos.x as int, npos.y as int);
                            lemma_undo_step(pre, pre_log, sz, orig@, npos, Tile::Mine(hero_id));
                            assert(self.game.heroes@ =~= capture_heroes(
                                g0.heroes@,
                                h_idx as int,
                                owner as int,
                            ));
                            lemma_capture_wf(
                                g0,
                                self.game,
                                h_idx as int,
                                owner as int,
                                npos.x as int,
                                npos.y as int,
                            );
                        }
                    }
                }
            },
        }
        proof {
            let m0 = move_phase(g0, direction);
            assert(self.game.heroes@ =~= m0.0);
            assert(self.game.board.board@ =~= m0.1);
            assert(hero_died == m0.2);
            assert(self.game.wf());
        }
        hero_died
    }

    /// Plays one move for the hero whose turn it is, following the rules:
    /// the neighbor-tile action (tavern drink, step onto air, mine capture
    /// or death on a mine), adjacency damage unless the mover died, mining
    /// income (the pre-death count when the mover died), thirst, the
    /// recorded direction, and the turn advance.  Returns the undo log
    /// that `unmake_move` consumes.
    #[verifier::spinoff_prover]
    #[verifier::rlimit(100)]
    pub fn make_move(&mut self, direction: Direction) -> (umi: UnmakeInfo)
        requires
            old(self).wf(),
            old(self).game.turn < old(self).game.max_turns,
        ensures
            final(self).wf(),
            final(self).game.turn == old(self).game.turn + 1,
            final(self).game.max_turns == old(self).game.max_turns,
            (final(self).game.finished <==> final(self).game.turn == final(self).game.max_turns),
            final(self).hero.id == old(self).hero.id,
            umi.heroes@ == old(self).game.heroes@,
            undoes(
                final(self).game.board.board@,
                umi.tiles@,
                old(self).game.board.size as int,
                old(self).game.board.board@,
            ),
            final(self).game.heroes@ == step_heroes(old(self).game, direction),
            final(self).game.board.board@ == step_cells(old(self).game, direction),
            final(self).game.board.size == old(self).game.board.size,
            final(self).game.board.mine_pos == old(self).game.board.mine_pos,
            final(self).game.board.tavern_pos == old(self).game.board.tavern_pos,
            final(self).game.board.zobrist == old(self).game.board.zobrist,
            final(self).game.board.pathcache == old(self).game.board.pathcache,
    {
        let ghost g0 = self.game;
        let ghost orig = self.game.board.board@;
        let ghost sz = self.game.board.size as int;
        let mut snap: Vec<Hero> = Vec::new();
        snap.push(self.game.heroes[0]);
        snap.push(self.game.heroes[1]);
        snap.push(self.game.heroes[2]);
        snap.push(self.game.heroes[3]);
        proof {
            assert(snap@ =~= g0.heroes@);
        }
        let mut umi = UnmakeInfo { heroes: snap, tiles: Vec::new() };
        proof {
            assert(undoes(self.game.board.board@, umi.tiles@, sz, orig));
        }
        let h_idx = self.game.turn % 4;
        let premove_mc = self.game.heroes[h_idx].mine_count;
        let hero_died = self.act_on_neighbor(direction, &mut umi, Ghost(orig));
        let ghost gh1 = self.game.heroes@;
        let ghost gc1 = self.game.board.board@;
        if !hero_died {
            let mut ai: usize = 0;
            while ai < 4
                invariant
                    ai <= 4,
                    h_idx == (g0.turn % 4) as int,
                    h_idx < 4,
                    sz == self.game.board.size as int,
                    self.game.wf(),
                    undoes(self.game.board.board@, umi.tiles@, sz, orig),
                    umi.heroes@ == g0.heroes@,
                    self.game.board.size == g0.board.size,
                    self.game.board.mine_pos == g0.board.mine_pos,
                    self.game.board.tavern_pos == g0.board.tavern_pos,
                    self.game.board.zobrist == g0.board.zobrist,
                    self.game.board.pathcache == g0.board.pathcache,
                    self.game.turn == g0.turn,
                    self.game.max_turns == g0.max_turns,
                    self.game.finished == g0.finished,
                    self.hero == old(self).hero,
                    adj_phase(
                        self.game.heroes@,
                        self.game.board.board@,
                        sz,
                        h_idx as int,
                        ai as int,
                    ) == adj_phase(gh1, gc1, sz, h_idx as int, 0),
                decreases 4 - ai,
            {
                let ghost pre = *self;
                if ai != h_idx {
                    let mover_pos = self.game.heroes[h_idx].pos;
                    let dist = self.game.heroes[ai].pos.manhattan_distance(&mover_pos);
                    if dist == 1 {
                        if self.game.heroes[ai].life <= 20 {
                            let vid = self.game.heroes[ai].id;
                            self.kill(vid, h_idx + 1, &mut umi, 4, Ghost(orig));
                        } else {
                            let vl = self.game.heroes[ai].life;
                            self.game.heroes[ai].life = vl - 20;
                            proof {
                                assert(self.game.heroes_ok());
                                assert(self.game.wf());
                            }
                        }
                    }
                }
                proof {
                    assert(adj_phase(
                        pre.game.heroes@,
                        pre.game.board.board@,
                        sz,
                        h_idx as int,
                        ai as int,
                    ) == adj_phase(
                        self.game.heroes@,
                        self.game.board.board@,
                        sz,
                        h_idx as int,
                        ai + 1,
                    ));
                }
                ai = ai + 1;
            }
        }
        proof {
            if !hero_died {
                assert(adj_phase(
                    self.game.heroes@,
                    self.game.board.board@,
                    sz,
                    h_idx as int,
                    4,
                ) == (self.game.heroes@, self.game.board.board@));
            }
        }
        proof {
            assert(self.game.heroes@ == step_mid(g0, direction).0);
            assert(self.game.board.board@ == step_mid(g0, direction).1);
        }
        self.finish_turn(h_idx, premove_mc, hero_died, direction, Ghost(g0));
        umi
    }

    /// Restores the state `make_move` transformed: clears `finished`,
    /// steps the turn back, reinstates the hero snapshot and the cached
    /// hero, and replays the tile deltas in reverse, which also restores
    /// the Zobrist hash.
    pub fn unmake_move(&mut self, umi: UnmakeInfo)
        requires
            old(self).game.board.wf(),
            old(self).game.turn >= 1,
            1 <= old(self).hero.id <= 4,
            umi.heroes@.len() == 4,
            deltas_ok(
                old(self).game.board.board@,
                umi.tiles@,
                old(self).game.board.size as int,
            ),
        ensures
            final(self).game.board.wf(),
            final(self).game.board.board@ == rewind(
                old(self).game.board.board@,
                umi.tiles@,
                old(self).game.board.size as int,
            ),
            final(self).game.board.size == old(self).game.board.size,
            final(self).game.board.mine_pos == old(self).game.board.mine_pos,
            final(self).game.board.tavern_pos == old(self).game.board.tavern_pos,
            final(self).game.board.zobrist == old(self).game.board.zobrist,
            final(self).game.board.pathcache == old(self).game.board.pathcache,
            final(self).game.heroes@ == umi.heroes@,
            final(self).game.turn == old(self).game.turn - 1,
            final(self).game.max_turns == old(self).game.max_turns,
            final(self).game.finished == false,
            final(self).hero == umi.heroes@[old(self).hero.id - 1],
    {
        let ghost orig = self.game.board.board@;
        let ghost sz = self.game.board.size as int;
        let UnmakeInfo { heroes, tiles } = umi;
        self.game.finished = false;
        self.game.turn = self.game.turn - 1;
        self.game.heroes = heroes;
        self.hero = self.game.heroes[self.hero.id - 1];
        let mut k = tiles.len();
        proof {
            assert(tiles@.take(k as int) =~= tiles@);
        }
        while k > 0
            invariant
                k <= tiles@.len(),
                self.game.board.wf(),
                self.game.board.size == old(self).game.board.size,
                sz == self.game.board.size as int,
                self.game.board.mine_pos == old(self).game.board.mine_pos,
                self.game.board.tavern_pos == old(self).game.board.tavern_pos,
                self.game.board.zobrist == old(self).game.board.zobrist,
                self.game.board.pathcache == old(self).game.board.pathcache,
                self.game.heroes@ == umi.heroes@,
                self.game.turn == old(self).game.turn - 1,
                self.game.max_turns == old(self).game.max_turns,
                self.game.finished == false,
                self.hero == umi.heroes@[old(self).hero.id - 1],
                deltas_ok(self.game.board.board@, tiles@.take(k as int), sz),
                rewind(self.game.board.board@, tiles@.take(k as int), sz) == rewind(
                    orig,
                    tiles@,
                    sz,
                ),
            decreases k,
        {
            k = k - 1;
            let pt = tiles[k];
            proof {
                assert(tiles@.take(k + 1).last() == tiles@[k as int]);
                assert(tiles@.take(k + 1).drop_last() =~= tiles@.take(k as int));
            }
            self.game.board.put_tile(&pt.0, pt.1);
        }
        proof {
            assert(tiles@.take(0) =~= Seq::<(Position, Tile)>::empty());
        }
    }
}

/// Everything gameplay-relevant agrees between two states: the clock, the
/// heroes, the grid with its hash and topology lists, and the cached hero.
/// Only the board's path cache, a memo, may differ.
pub open spec fn same_play(a: State, b: State) -> bool {
    &&& b.game.turn == a.game.turn
    &&& b.game.max_turns == a.game.max_turns
    &&& b.game.finished == a.game.finished
    &&& b.game.heroes@ == a.game.heroes@
    &&& b.game.board.board@ == a.game.board.board@
    &&& b.game.board.size == a.game.board.size
    &&& b.game.board.hash == a.game.board.hash
    &&& b.game.board.mine_pos@ == a.game.board.mine_pos@
    &&& b.game.board.tavern_pos@ == a.game.board.tavern_pos@
    &&& b.game.board.zobrist == a.game.board.zobrist
    &&& b.hero == a.hero
}

/// States that agree in every gameplay-relevant part share
/// well-formedness: the predicates read only the parts `same_play`
/// equates, plus the board's own invariants.
pub proof fn lemma_wf_same_play(a: State, b: State)
    requires
        a.wf(),
        same_play(a, b),
        b.game.board.wf(),
    ensures
        b.wf(),
{
    assert(b.game.heroes_ok());
    assert(b.game.tiles_ok());
}

/// Law: a make/unmake pair restores the position.  `make_move` guarantees
/// that its undo log rewinds the new cells back to the old ones and that
/// its snapshot holds the old heroes; `unmake_move` guarantees it applies
/// exactly that rewind and snapshot and steps the turn back.  Chaining the
/// two contracts restores cells, heroes and turn, and with them (the hash
/// being the XOR recomputation over cells on any well-formed board) the
/// Zobrist hash.
pub proof fn lemma_make_unmake_round_trip(pre: State, mid: State, post: State, umi: UnmakeInfo)
    requires
        mid.game.board.size == pre.game.board.size,
        mid.game.turn == pre.game.turn + 1,
        umi.heroes@ == pre.game.heroes@,
        undoes(
            mid.game.board.board@,
            umi.tiles@,
            mid.game.board.size as int,
            pre.game.board.board@,
        ),
        post.game.board.board@ == rewind(
            mid.game.board.board@,
            umi.tiles@,
            mid.game.board.size as int,
        ),
        post.game.heroes@ == umi.heroes@,
        post.game.turn == mid.game.turn - 1,
    ensures
        post.game.board.board@ == pre.game.board.board@,
        post.game.heroes@ == pre.game.heroes@,
        post.game.turn == pre.game.turn,
{
}

} // verus!
