//! The decision engine: evaluation, best-reply alpha/beta with killer and
//! history move ordering and a transposition table, MTD-f, and the
//! iterative-deepening driver under a wall-clock deadline.
use vstd::prelude::*;
use crate::direction::Direction;
use crate::lru::LRU;
use crate::mv::Move;
use crate::board::{closest_loop, closest_mine_loop, pos_in_bounds};
use crate::game::Game;
use crate::hero::Hero;
use crate::position::Position;
use crate::state::{legal_dirs, lemma_wf_same_play, same_play, State};
use crate::transposition_table::{Entry, Table};

verus! {

/// Search budget per move, in nanoseconds.
pub const MOVE_BUDGET_NS: u64 = 800000000;

/// Deepest iteration of the iterative-deepening driver.
pub const MAX_DEPTH: u8 = 32;

/// Relies on time::precise_time_ns: a monotonic high-resolution counter
/// in nanoseconds since an unspecified epoch.
#[verifier::external_body]
fn now_ns() -> u64 {
    time::precise_time_ns()
}

/// The band value of the rating-expectation curve at nonnegative rating
/// difference `d`, in thousandths: a step approximation of the logistic
/// win expectation, quantized to hundred-point bands.
pub open spec fn rating_band(d: int) -> int {
    if d < 50 {
        500
    } else if d < 150 {
        640
    } else if d < 250 {
        760
    } else if d < 350 {
        849
    } else if d < 450 {
        909
    } else if d < 550 {
        947
    } else if d < 650 {
        969
    } else if d < 750 {
        982
    } else {
        990
    }
}

/// The expected match outcome of a rating-`a` player against a rating-`b`
/// player, in thousandths, from the banded logistic curve; differences
/// beyond eight hundred points saturate.
pub open spec fn elo_expectation_spec(a: int, b: int) -> int {
    let d = if a - b > 800 {
        800int
    } else if a - b < -800 {
        -800int
    } else {
        a - b
    };
    if d >= 0 {
        rating_band(d)
    } else {
        1000 - rating_band(-d)
    }
}

/// The expected outcome of `a` against `b` in thousandths, by the banded
/// logistic curve.
pub fn elo_expectation_millis(a: u16, b: u16) -> (r: i32)
    ensures
        r == elo_expectation_spec(a as int, b as int),
        0 <= r <= 1000,
{
    let da: i32 = a as i32 - b as i32;
    let d: i32 = if da > 800 {
        800
    } else if da < -800 {
        -800
    } else {
        da
    };
    let m: i32 = if d >= 0 {
        d
    } else {
        -d
    };
    let band: i32 = if m < 50 {
        500
    } else if m < 150 {
        640
    } else if m < 250 {
        760
    } else if m < 350 {
        849
    } else if m < 450 {
        909
    } else if m < 550 {
        947
    } else if m < 650 {
        969
    } else if m < 750 {
        982
    } else {
        990
    };
    if d >= 0 {
        band
    } else {
        1000 - band
    }
}

/// A reply move of opponent `p`: tagged `p`, a single non-passing
/// direction at ply `p`, passes elsewhere.
pub open spec fn is_reply_of(m: Move, p: int) -> bool {
    &&& m.player == p
    &&& 1 <= p <= 3
    &&& m.directions@.len() == 4
    &&& forall|q: int| 0 <= q < 4 && q != p ==> #[trigger] m.directions@[q] == Direction::Stay
    &&& m.directions@[p] != Direction::Stay
}

/// A passing move tagged for player `p`: four passes.
pub open spec fn is_null_move_of(m: Move, p: int) -> bool {
    m.player == p && m.directions@ =~= seq![
        Direction::Stay,
        Direction::Stay,
        Direction::Stay,
        Direction::Stay,
    ]
}

/// The null move: the bot's player tag with four passes.
pub open spec fn is_null_move(m: Move) -> bool {
    m.player == 0 && m.directions@ =~= seq![
        Direction::Stay,
        Direction::Stay,
        Direction::Stay,
        Direction::Stay,
    ]
}

/// Whole own-turns the game has left.
pub open spec fn turns_left_of(g: Game) -> int {
    (g.max_turns - g.turn) / 4
}

/// A hero's predicted end-of-game score: ten points per gold piece held
/// at the end — each owned mine pays one gold per remaining own turn —
/// plus its life.
pub open spec fn pred_base(h: Hero, tl: int) -> int {
    10 * (h.gold + h.mine_count * tl) + h.life
}

/// The rating adjustment of `me` summed over the heroes from seat `i`
/// on: sixteen thousandths-scaled points per opponent, outcome (from
/// comparing predicted scores) minus the banded expectation.
pub open spec fn rank_term(g: Game, me: Hero, tl: int, i: int) -> int
    decreases 4 - i,
{
    if i < 0 || i >= 4 {
        0
    } else {
        let t = if i == me.id - 1 {
            0int
        } else {
            let mine = pred_base(g.heroes@[me.id - 1], tl);
            let theirs = pred_base(g.heroes@[i], tl);
            let a: int = if mine > theirs {
                1000
            } else if mine == theirs {
                500
            } else {
                0
            };
            16 * (a - elo_expectation_spec(me.elo as int, g.heroes@[i].elo as int))
        };
        t + rank_term(g, me, tl, i + 1)
    }
}

/// How many turns `me` spends before its next mine pays: the walk to the
/// nearest foreign mine; when capturing it would not be survivable, the
/// walk to the nearest tavern plus the walk from that tavern to its
/// nearest foreign mine plus two turns drinking; all remaining turns when
/// no foreign mine is reachable.  (The detour is charged as the two walks
/// plus the flat drink cost, the scheme this evaluator fixes.)
pub open spec fn travel_delay(g: Game, me: Hero, tl: int) -> int {
    let c = g.board.board@;
    let sz = g.board.size as int;
    let m = closest_mine_loop(c, sz, me.pos, g.board.mine_pos@, me.id as int, 0, 255, None);
    if m.0 < 255 && (me.life < m.0 || me.life - m.0 <= 20) {
        let t = closest_loop(c, sz, me.pos, g.board.tavern_pos@, 0, 255, Position { x: 0, y: 0 });
        let m2 = closest_mine_loop(c, sz, t.1, g.board.mine_pos@, me.id as int, 0, 255, None);
        2 + t.0 + m2.0
    } else if m.0 < 255 {
        m.0
    } else {
        tl
    }
}

/// The signed total before clamping: the bot's predicted score (raised by
/// the turns its mining will not be delayed), minus every opponent's,
/// plus the rating adjustment at ten-thousandfold weight.
pub open spec fn eval_total(g: Game, me: Hero) -> int {
    let tl = turns_left_of(g);
    let my = me.id - 1;
    let d = travel_delay(g, me, tl);
    let me_score = if d < tl {
        pred_base(g.heroes@[my], tl) + (tl - d)
    } else {
        pred_base(g.heroes@[my], tl)
    };
    let signed = |i: int| if i == my {
        0int
    } else {
        pred_base(g.heroes@[i], tl)
    };
    me_score - signed(0) - signed(1) - signed(2) - signed(3) + 10000 * rank_term(g, me, tl, 0)
}

/// Clamp into the 32-bit range.
pub open spec fn clamp_i32(v: int) -> int {
    if v > i32::MAX {
        i32::MAX as int
    } else if v < i32::MIN {
        i32::MIN as int
    } else {
        v
    }
}

/// What `eval` returns on a well-formed state.
pub open spec fn eval_spec(s: State) -> int {
    clamp_i32(eval_total(s.game, s.hero))
}

/// The search engine: the transposition table, per-depth killer moves, and
/// the two recency tables that break move-ordering ties.
pub struct Bot {
    pub initialized: bool,
    pub tt: Table,
    pub max_history: LRU,
    pub min_history: LRU,
    pub killer1: Vec<Move>,
    pub killer2: Vec<Move>,
}

/// A fresh killer table: one slot per search depth, all null moves.
fn fresh_killers() -> (r: Vec<Move>)
    ensures
        r@.len() == MAX_DEPTH + 1,
{
    let mut v: Vec<Move> = Vec::new();
    let mut i: usize = 0;
    while i < (MAX_DEPTH as usize) + 1
        invariant
            v@.len() == i,
            i <= MAX_DEPTH + 1,
        decreases MAX_DEPTH + 1 - i,
    {
        v.push(Move::default());
        i = i + 1;
    }
    v
}

/// A 64-bit history key for the bot's own moves: position and direction.
fn pack_max_key(p: Position, d: Direction) -> u64 {
    ((p.x as u8) as u64) << 24 | ((p.y as u8) as u64) << 16 | (d.as_index() as u64) << 8
}

/// A 64-bit history key for an opponent reply: player, position and
/// direction.
fn pack_min_key(player: u8, p: Position, d: Direction) -> u64 {
    ((p.x as u8) as u64) << 24 | ((p.y as u8) as u64) << 16 | (d.as_index() as u64) << 8 | (
    player as u64)
}

/// One step of the position-key mix: rotate and fold a word in.
fn mix_key(h: u64, v: u64) -> u64 {
    ((h << 7) | (h >> 57)) ^ v
}

/// The transposition key of a state: the board's Zobrist hash folded with
/// the turn and every hero's gameplay fields.  Deterministic within a
/// match (the key table is fixed at board setup).
fn state_key(s: &State) -> u64
    requires
        s.game.heroes@.len() == 4,
{
    let mut h: u64 = s.game.board.hash;
    h = mix_key(h, s.game.turn as u64);
    let mut i: usize = 0;
    while i < 4
        invariant
            s.game.heroes@.len() == 4,
            i <= 4,
        decreases 4 - i,
    {
        let hero = s.game.heroes[i];
        let packed: u64 = ((hero.pos.x as u8) as u64) << 56 | ((hero.pos.y as u8) as u64) << 48 | (
        hero.life as u64) << 40 | (hero.gold as u64) << 8 | (hero.mine_count as u64) & 0xFF | (
        if hero.crashed {
            1u64
        } else {
            0u64
        }) << 39;
        h = mix_key(h, packed);
        i = i + 1;
    }
    h
}

/// Appends one reply move per non-passing legal direction of the hero to
/// move, tagged as opponent `p`'s.
fn push_replies(result: &mut Vec<Move>, s: &State, p: u8)
    requires
        s.game.board.wf(),
        s.game.heroes@.len() == 4,
        pos_in_bounds(
            s.game.board.size as int,
            s.game.heroes@[(s.game.turn % 4) as int].pos,
        ),
        1 <= p <= 3,
    ensures
        final(result)@.len() >= old(result)@.len(),
        forall|k: int|
            0 <= k < old(result)@.len() ==> #[trigger] final(result)@[k] == old(result)@[k],
        forall|k: int|
            old(result)@.len() <= k < final(result)@.len() ==> is_reply_of(
                #[trigger] final(result)@[k],
                p as int,
            ),
{
    let dirs = s.get_moves();
    let mut i: usize = 0;
    while i < dirs.len()
        invariant
            i <= dirs@.len(),
            result@.len() >= old(result)@.len(),
            1 <= p <= 3,
            forall|k: int|
                0 <= k < old(result)@.len() ==> #[trigger] result@[k] == old(result)@[k],
            forall|k: int|
                old(result)@.len() <= k < result@.len() ==> is_reply_of(
                    #[trigger] result@[k],
                    p as int,
                ),
        decreases dirs@.len() - i,
    {
        let d = dirs[i];
        let stay = match d {
            Direction::Stay => true,
            _ => false,
        };
        if !stay {
            let directions = if p == 1 {
                [Direction::Stay, d, Direction::Stay, Direction::Stay]
            } else if p == 2 {
                [Direction::Stay, Direction::Stay, d, Direction::Stay]
            } else {
                [Direction::Stay, Direction::Stay, Direction::Stay, d]
            };
            result.push(Move { player: p, directions });
        }
        i = i + 1;
    }
}

/// Appends opponent `p`'s replies as seen after `ahead` passing moves
/// (one or two), restoring the state afterwards.
#[verifier::spinoff_prover]
#[verifier::rlimit(100)]
fn push_replies_ahead(result: &mut Vec<Move>, s: &mut State, p: u8, ahead: u8)
    requires
        old(s).wf(),
        old(s).game.turn + 2 < old(s).game.max_turns,
        1 <= p <= 3,
        1 <= ahead <= 2,
    ensures
        final(s).wf(),
        same_play(*old(s), *final(s)),
        final(result)@.len() >= old(result)@.len(),
        forall|k: int|
            0 <= k < old(result)@.len() ==> #[trigger] final(result)@[k] == old(result)@[k],
        forall|k: int|
            old(result)@.len() <= k < final(result)@.len() ==> is_reply_of(
                #[trigger] final(result)@[k],
                p as int,
            ),
{
    let ghost entry = *s;
    if ahead == 1 {
        let umi1 = s.make_move(Direction::Stay);
        push_replies(result, s, p);
        s.unmake_move(umi1);
        proof {
            assert(s.game.board.board@ == entry.game.board.board@);
            assert(s.game.heroes@ == entry.game.heroes@);
            assert(s.game.board.hash == entry.game.board.hash);
            assert(same_play(entry, *s));
            lemma_wf_same_play(entry, *s);
        }
    } else {
        let umi1 = s.make_move(Direction::Stay);
        let umi2 = s.make_move(Direction::Stay);
        push_replies(result, s, p);
        s.unmake_move(umi2);
        s.unmake_move(umi1);
        proof {
            assert(s.game.board.board@ == entry.game.board.board@);
            assert(s.game.heroes@ == entry.game.heroes@);
            assert(s.game.board.hash == entry.game.board.hash);
            assert(same_play(entry, *s));
            lemma_wf_same_play(entry, *s);
        }
    }
}

impl Bot {
    /// A consistent engine: sized table, twenty-slot histories, one killer
    /// pair per depth.
    pub open spec fn wf_bot(self) -> bool {
        &&& self.tt.wf()
        &&& self.max_history.wf()
        &&& self.min_history.wf()
        &&& self.killer1@.len() == MAX_DEPTH + 1
        &&& self.killer2@.len() == MAX_DEPTH + 1
    }

    /// A fresh engine with a million-entry table per bucket.
    pub fn new() -> (r: Bot)
        ensures
            r.wf_bot(),
            !r.initialized,
    {
        Bot {
            initialized: false,
            tt: Table::new(2000000),
            max_history: LRU::new(0),
            min_history: LRU::new(0),
            killer1: fresh_killers(),
            killer2: fresh_killers(),
        }
    }

    /// One-time per-match setup before the first search.
    fn initialize(&mut self, _s: &State)
        requires
            old(self).wf_bot(),
        ensures
            final(self).wf_bot(),
            final(self).initialized,
    {
        self.initialized = true;
    }

    /// The leaf score of a position from the bot's point of view: each
    /// hero's predicted final score is ten points per gold piece it will
    /// own at the end (mines pay one gold per remaining own turn) plus its
    /// life; the bot's score is raised by the remaining turns it will not
    /// spend walking to its next mine (via a tavern when it could not
    /// survive the capture), and by a rating-expectation adjustment in
    /// banded thousandths; every opponent's score counts against.  The
    /// total is clamped into the 32-bit range.
    #[verifier::spinoff_prover]
    #[verifier::rlimit(100)]
    fn eval(&self, s: &mut State) -> (r: i32)
        requires
            old(s).wf(),
        ensures
            final(s).wf(),
            same_play(*old(s), *final(s)),
            r == eval_spec(*old(s)),
    {
        let ghost g0 = old(s).game;
        let ghost me = old(s).hero;
        let turns_left: usize = (s.game.max_turns - s.game.turn) / 4;
        let ghost tl = turns_left as int;
        let my_id = s.hero.id;
        let my_idx = my_id - 1;
        let hpos = s.hero.pos;
        let my_elo = s.hero.elo;
        let mut pred: Vec<i64> = Vec::new();
        let mut i: usize = 0;
        while i < 4
            invariant
                s.wf(),
                same_play(*old(s), *s),
                g0 == old(s).game,
                me == old(s).hero,
                pred@.len() == i,
                i <= 4,
                turns_left <= 250000,
                tl == turns_left as int,
                forall|q: int| 0 <= q < i ==> 0 <= #[trigger] pred@[q] < 400000000000,
                forall|q: int|
                    0 <= q < i ==> #[trigger] pred@[q] == pred_base(g0.heroes@[q], tl),
            decreases 4 - i,
        {
            let h = s.game.heroes[i];
            proof {
                assert(h.mine_count * turns_left <= 65535 * 250000) by (nonlinear_arith)
                    requires
                        h.mine_count <= 65535,
                        turns_left <= 250000,
                ;
            }
            let v: i64 = 10 * (h.gold as i64 + h.mine_count as i64 * turns_left as i64)
                + h.life as i64;
            pred.push(v);
            i = i + 1;
        }
        // rating adjustment for the bot against each opponent
        let mut rank_adj: i64 = 0;
        let mut j: usize = 0;
        while j < 4
            invariant
                s.wf(),
                same_play(*old(s), *s),
                g0 == old(s).game,
                me == old(s).hero,
                my_elo == me.elo,
                my_idx == me.id - 1,
                pred@.len() == 4,
                j <= 4,
                my_idx < 4,
                -16000 * j <= rank_adj <= 16000 * j,
                forall|q: int| 0 <= q < 4 ==> 0 <= #[trigger] pred@[q] < 400000000000,
                forall|q: int|
                    0 <= q < 4 ==> #[trigger] pred@[q] == pred_base(g0.heroes@[q], tl),
                rank_term(g0, me, tl, 0) == rank_adj + rank_term(g0, me, tl, j as int),
            decreases 4 - j,
        {
            if j != my_idx {
                let e = elo_expectation_millis(my_elo, s.game.heroes[j].elo);
                let a: i32 = if pred[my_idx] > pred[j] {
                    1000
                } else if pred[my_idx] == pred[j] {
                    500
                } else {
                    0
                };
                rank_adj = rank_adj + 16 * ((a - e) as i64);
            }
            j = j + 1;
        }
        proof {
            assert(rank_adj == rank_term(g0, me, tl, 0));
        }
        // travel delay to the next foreign mine, via a tavern when the
        // capture would not be survivable
        let (mdist, _mpos) = s.game.board.get_closest_mine(&hpos, my_id);
        let life = s.hero.life;
        let delay: usize = if mdist < 255 && (life < mdist || life - mdist <= 20) {
            let (tdist, tpos) = s.game.board.get_closest_tavern(&hpos);
            let (mdist2, _m2) = s.game.board.get_closest_mine(&tpos, my_id);
            2 + tdist as usize + mdist2 as usize
        } else if mdist < 255 {
            mdist as usize
        } else {
            turns_left
        };
        proof {
            assert(delay == travel_delay(g0, me, tl));
        }
        if delay < turns_left {
            let cur = pred[my_idx];
            pred[my_idx] = cur + (turns_left - delay) as i64;
        }
        proof {
            assert(forall|q: int| 0 <= q < 4 ==> 0 <= #[trigger] pred@[q] < 500000000000);
        }
        let mut total: i64 = rank_adj * 10000;
        let p0 = pred[0];
        let p1 = pred[1];
        let p2 = pred[2];
        let p3 = pred[3];
        if my_idx == 0 {
            total = total + p0;
        } else {
            total = total - p0;
        }
        if my_idx == 1 {
            total = total + p1;
        } else {
            total = total - p1;
        }
        if my_idx == 2 {
            total = total + p2;
        } else {
            total = total - p2;
        }
        if my_idx == 3 {
            total = total + p3;
        } else {
            total = total - p3;
        }
        proof {
            assert(total == eval_total(g0, me));
        }
        if total > i32::MAX as i64 {
            i32::MAX
        } else if total < i32::MIN as i64 {
            i32::MIN
        } else {
            total as i32
        }
    }
    /// The move list of a node of the best-reply tree.  At the bot's own
    /// turn, one entry per legal direction.  At an opponent node, every
    /// non-passing legal reply of each of the three opponents in seat
    /// order — the turn pointer is advanced past the earlier ones with
    /// passing moves that are made and unmade — closed by one passing
    /// move so the list is never empty.
    #[verifier::spinoff_prover]
    #[verifier::rlimit(30)]
    #[verifier::spinoff_prover]
    #[verifier::rlimit(30)]
    fn generate_moves(&self, s: &mut State) -> (r: Vec<Move>)
        requires
            old(s).wf(),
            old(s).game.turn + 2 < old(s).game.max_turns,
        ensures
            final(s).wf(),
            same_play(*old(s), *final(s)),
            r@.len() >= 1,
            old(s).game.turn % 4 == old(s).hero.id - 1 ==> {
                let dirs = legal_dirs(old(s).game);
                &&& r@.len() == dirs.len()
                &&& forall|k: int|
                    0 <= k < dirs.len() ==> {
                        let m = #[trigger] r@[k];
                        m.player == 0 && m.directions@ =~= seq![
                            dirs[k],
                            Direction::Stay,
                            Direction::Stay,
                            Direction::Stay,
                        ]
                    }
            },
            old(s).game.turn % 4 != old(s).hero.id - 1 ==> forall|k: int|
                0 <= k < r@.len() ==> (is_reply_of(#[trigger] r@[k], r@[k].player as int)
                    || is_null_move_of(r@[k], 1)),
    {
        let mut result: Vec<Move> = Vec::new();
        let h_idx = s.game.turn % 4;
        if s.game.heroes[h_idx].id == s.hero.id {
            let dirs = s.get_moves();
            let mut i: usize = 0;
            while i < dirs.len()
                invariant
                    s.wf(),
                    same_play(*old(s), *s),
                    result@.len() == i,
                    i <= dirs@.len(),
                    dirs@ == legal_dirs(old(s).game),
                    forall|k: int|
                        0 <= k < i ==> {
                            let m = #[trigger] result@[k];
                            m.player == 0 && m.directions@ =~= seq![
                                dirs@[k],
                                Direction::Stay,
                                Direction::Stay,
                                Direction::Stay,
                            ]
                        },
                decreases dirs@.len() - i,
            {
                result.push(
                    Move {
                        player: 0,
                        directions: [
                            dirs[i],
                            Direction::Stay,
                            Direction::Stay,
                            Direction::Stay,
                        ],
                    },
                );
                i = i + 1;
            }
            proof {
                assert(legal_dirs(old(s).game).len() >= 1);
            }
            return result;
        }
        // opponent node: the three heroes after the bot, in seat order;
        // the turn pointer is advanced past the earlier ones with passing
        // moves that are unmade afterwards
        push_replies(&mut result, s, 1);
        push_replies_ahead(&mut result, s, 2, 1);
        push_replies_ahead(&mut result, s, 3, 2);
        result.push(
            Move {
                player: 1,
                directions: [
                    Direction::Stay,
                    Direction::Stay,
                    Direction::Stay,
                    Direction::Stay,
                ],
            },
        );
        result
    }

    /// Pops the most promising move off the list: the hash move first,
    /// else a killer of this depth, else any non-passing move, with the
    /// history tables' recency breaking ties; the earliest entry wins
    /// remaining ties.  The null move on an empty list.
    #[verifier::spinoff_prover]
    #[verifier::rlimit(50)]
    fn pick_next_move(&mut self, depth: u8, hm: &Move, moves: &mut Vec<Move>, s: &State) -> (r:
        Move)
        requires
            old(self).wf_bot(),
            depth <= MAX_DEPTH,
            s.game.heroes@.len() == 4,
            1 <= s.hero.id <= 4,
        ensures
            final(self).wf_bot(),
            old(moves)@.len() == 0 ==> is_null_move(r) && final(moves)@ == old(moves)@,
            old(moves)@.len() > 0 ==> old(moves)@.contains(r) && exists|i: int|
                0 <= i < old(moves)@.len() && r == old(moves)@[i] && final(moves)@ == old(
                    moves,
                )@.update(i, old(moves)@.last()).drop_last(),
    {
        if moves.len() == 0 {
            return Move::default();
        }
        let dflt = Move::default();
        let mut best_score: u64 = 0;
        let mut best_idx: usize = 0;
        let mut i: usize = 0;
        while i < moves.len()
            invariant
                self.wf_bot(),
                moves@ == old(moves)@,
                moves@.len() > 0,
                best_idx < moves@.len(),
                i <= moves@.len(),
                s.game.heroes@.len() == 4,
                1 <= s.hero.id <= 4,
                depth <= MAX_DEPTH,
            decreases moves@.len() - i,
        {
            let mv = moves[i];
            let mut score: u64 = 1;
            if mv == *hm && !(*hm == dflt) {
                score = 1000000;
            } else {
                if mv == self.killer1[depth as usize] || mv == self.killer2[depth as usize] {
                    score = 100000;
                } else if !(mv == dflt) {
                    score = 10000;
                }
                if mv.player == 0 {
                    if self.max_history.cur < 4294967294 {
                        let hs = self.max_history.query(
                            pack_max_key(s.hero.pos, mv.directions[0]),
                        );
                        if hs < 255 {
                            score = score + (255 - hs) as u64;
                        }
                    }
                } else if mv.player <= 3 {
                    let pidx = (s.hero.id + mv.player as usize - 1) % 4;
                    if self.min_history.cur < 4294967294 {
                        let hs = self.min_history.query(
                            pack_min_key(
                                mv.player,
                                s.game.heroes[pidx].pos,
                                mv.directions[mv.player as usize],
                            ),
                        );
                        if hs < 255 {
                            score = score + (255 - hs) as u64;
                        }
                    }
                }
            }
            if score > best_score {
                best_score = score;
                best_idx = i;
            }
            i = i + 1;
        }
        let r = moves.swap_remove(best_idx);
        proof {
            assert(old(moves)@[best_idx as int] == r);
            assert(old(moves)@.contains(r));
        }
        r
    }

    /// Descends one edge of the best-reply tree: applies the move's
    /// directions (one for the bot's own move, the three reply plies for
    /// an opponent round), searches below, and restores the state.
    #[verifier::spinoff_prover]
    #[verifier::rlimit(100)]
    fn search_child(
        &mut self,
        s: &mut State,
        mv: Move,
        alpha: i32,
        beta: i32,
        depth: u8,
        end_ns: u64,
        nodes: &mut u64,
    ) -> (r: Option<i32>)
        requires
            old(self).wf_bot(),
            old(s).wf(),
            old(s).game.turn + 4 <= old(s).game.max_turns,
            1 <= depth <= MAX_DEPTH,
        ensures
            final(self).wf_bot(),
            final(s).wf(),
            same_play(*old(s), *final(s)),
        decreases depth, 0int,
    {
        let ghost entry = *s;
        if mv.player == 0 {
            let umi = s.make_move(mv.directions[0]);
            let v = self.brs(s, alpha, beta, depth - 1, end_ns, nodes);
            s.unmake_move(umi);
            proof {
                assert(s.game.board.board@ == entry.game.board.board@);
                assert(s.game.heroes@ == entry.game.heroes@);
                assert(s.game.board.hash == entry.game.board.hash);
                assert(same_play(entry, *s));
                lemma_wf_same_play(entry, *s);
            }
            v
        } else {
            let umi1 = s.make_move(mv.directions[1]);
            let umi2 = s.make_move(mv.directions[2]);
            let umi3 = s.make_move(mv.directions[3]);
            let v = self.brs(s, alpha, beta, depth - 1, end_ns, nodes);
            s.unmake_move(umi3);
            s.unmake_move(umi2);
            s.unmake_move(umi1);
            proof {
                assert(s.game.board.board@ == entry.game.board.board@);
                assert(s.game.heroes@ == entry.game.heroes@);
                assert(s.game.board.hash == entry.game.board.hash);
                assert(same_play(entry, *s));
                lemma_wf_same_play(entry, *s);
            }
            v
        }
    }

    /// Fail-soft best-reply alpha/beta: probes the transposition table
    /// and narrows the window from the stored bounds, samples the clock
    /// at amortized intervals (every node for the first ten, then every
    /// 1024th) and answers `None` past the deadline, evaluates at depth
    /// zero or near the game's end, else expands the node's moves in the
    /// ordered fashion, then stores the proved bound and refreshes the
    /// killer slots on a cutoff.  The searched state is restored on every
    /// path.
    #[verifier::spinoff_prover]
    #[verifier::rlimit(100)]
    fn brs(
        &mut self,
        s: &mut State,
        alphao: i32,
        betao: i32,
        depth: u8,
        end_ns: u64,
        nodes: &mut u64,
    ) -> (r: Option<i32>)
        requires
            old(self).wf_bot(),
            old(s).wf(),
            depth <= MAX_DEPTH,
        ensures
            final(self).wf_bot(),
            final(s).wf(),
            same_play(*old(s), *final(s)),
        decreases depth, 1int,
    {
        let ghost entry = *s;
        let mut alpha = alphao;
        let mut beta = betao;
        let mut bmove = Move::default();
        let hash = state_key(s);
        let tkey: u16 = ((s.game.turn % 30000) as u16) + (depth as u16);
        match self.tt.probe(hash) {
            Some(e) => {
                if e.depth >= tkey {
                    bmove = e.mv;
                    if e.lower >= beta {
                        return Some(e.lower);
                    }
                    if e.upper <= alpha {
                        return Some(e.upper);
                    }
                    if e.lower > alpha {
                        alpha = e.lower;
                    }
                    if e.upper < beta {
                        beta = e.upper;
                    }
                }
            },
            None => {},
        }
        if *nodes < u64::MAX {
            *nodes = *nodes + 1;
        }
        if (*nodes < 10 || *nodes & 1023 == 1023) && now_ns() > end_ns {
            return None;
        }
        let g: i32;
        if depth == 0 || s.game.turn + 4 > s.game.max_turns {
            g = self.eval(s);
        } else {
            let maxnode = s.game.turn % 4 == s.hero.id - 1;
            let mut moves = self.generate_moves(s);
            if maxnode {
                let mut gg: i32 = i32::MIN;
                let mut a = alpha;
                while moves.len() > 0 && gg < beta
                    invariant
                        entry == *old(s),
                        self.wf_bot(),
                        s.wf(),
                        same_play(entry, *s),
                        s.game.turn + 4 <= s.game.max_turns,
                        1 <= depth <= MAX_DEPTH,
                    decreases moves@.len(),
                {
                    let curmove = self.pick_next_move(depth, &bmove, &mut moves, s);
                    let v = self.search_child(s, curmove, a, beta, depth, end_ns, nodes);
                    match v {
                        None => {
                            return None;
                        },
                        Some(score) => {
                            if score > gg {
                                gg = score;
                                bmove = curmove;
                                if self.max_history.cur < 4294967294 {
                                    self.max_history.insert(
                                        pack_max_key(s.hero.pos, curmove.directions[0]),
                                    );
                                }
                            }
                            if gg > a {
                                a = gg;
                            }
                        },
                    }
                }
                g = gg;
            } else {
                let mut gg: i32 = i32::MAX;
                let mut b = beta;
                while moves.len() > 0 && gg > alpha
                    invariant
                        entry == *old(s),
                        self.wf_bot(),
                        s.wf(),
                        same_play(entry, *s),
                        s.game.turn + 4 <= s.game.max_turns,
                        1 <= depth <= MAX_DEPTH,
                    decreases moves@.len(),
                {
                    let curmove = self.pick_next_move(depth, &bmove, &mut moves, s);
                    let v = self.search_child(s, curmove, alpha, b, depth, end_ns, nodes);
                    match v {
                        None => {
                            return None;
                        },
                        Some(score) => {
                            if score < gg {
                                gg = score;
                                bmove = curmove;
                                if curmove.player >= 1 && curmove.player <= 3 {
                                    let pidx = (s.hero.id + curmove.player as usize - 1) % 4;
                                    if self.min_history.cur < 4294967294 {
                                        self.min_history.insert(
                                            pack_min_key(
                                                curmove.player,
                                                s.game.heroes[pidx].pos,
                                                curmove.directions[curmove.player as usize],
                                            ),
                                        );
                                    }
                                }
                            }
                            if gg < b {
                                b = gg;
                            }
                        },
                    }
                }
                g = gg;
            }
            if g >= beta {
                let d = depth as usize;
                if !(bmove == self.killer1[d]) && !(bmove == self.killer2[d]) {
                    let k1 = self.killer1[d];
                    self.killer2[d] = k1;
                    self.killer1[d] = bmove;
                }
            }
        }
        let mut e = Entry::default();
        if g <= alpha {
            e.upper = g;
            e.lower = i32::MIN;
        } else if g < beta {
            e.lower = g;
            e.upper = g;
        } else {
            e.lower = g;
            e.upper = i32::MAX;
        }
        e.mv = bmove;
        e.depth = tkey;
        e.hash = hash;
        e.age = (s.game.turn % 30000) as u16;
        self.tt.store(e);
        Some(g)
    }

    /// MTD-f: repeated zero-window searches around a first guess,
    /// stepping the pivot by a constant until the bracket closes (with a
    /// cap on the zero-window rounds, after which one full-window search
    /// settles the value).  `None` propagates a missed deadline.
    pub fn mtdf(
        &mut self,
        s: &mut State,
        firstguess: i32,
        depth: u8,
        num_nodes: &mut u64,
        end_ns: u64,
    ) -> (r: Option<i32>)
        requires
            old(self).wf_bot(),
            old(s).wf(),
            depth <= MAX_DEPTH,
        ensures
            final(self).wf_bot(),
            final(s).wf(),
            same_play(*old(s), *final(s)),
    {
        let ghost entry = *s;
        let mut f = firstguess;
        let mut upper = i32::MAX;
        let mut lower = i32::MIN;
        let mut rounds: u8 = 0;
        while (upper == i32::MAX || lower == i32::MIN) && rounds < 64
            invariant
                entry == *old(s),
                self.wf_bot(),
                s.wf(),
                same_play(entry, *s),
                depth <= MAX_DEPTH,
            decreases 64 - rounds,
        {
            let a = if f == i32::MIN {
                i32::MIN
            } else {
                f - 1
            };
            let val = self.brs(s, a, f, depth, end_ns, num_nodes);
            match val {
                None => {
                    return None;
                },
                Some(g) => {
                    if g < f {
                        upper = g;
                        f = if g < i32::MIN + 25 {
                            i32::MIN
                        } else {
                            g - 25
                        };
                    } else {
                        lower = g;
                        f = if g > i32::MAX - 25 {
                            i32::MAX
                        } else {
                            g + 25
                        };
                    }
                },
            }
            rounds = rounds + 1;
        }
        if lower == upper {
            return Some(lower);
        }
        self.brs(s, lower, upper, depth, end_ns, num_nodes)
    }

    /// Iterative deepening under a deadline: clears the ordering tables,
    /// seeds the first guess from the evaluator, deepens one ply per
    /// round while the clock allows, and answers the previous completed
    /// iteration's root move — `Stay` when no iteration completed.  The
    /// searched state is handed back as it came (only the board's path
    /// cache warms up).
    pub fn choose_move_until(&mut self, s: &mut State, end_ns: u64) -> (r: Direction)
        requires
            old(self).wf_bot(),
            old(s).wf(),
        ensures
            final(self).wf_bot(),
            final(s).wf(),
            same_play(*old(s), *final(s)),
    {
        let ghost entry = *s;
        if !self.initialized {
            self.initialize(s);
        }
        self.max_history = LRU::new(0);
        self.min_history = LRU::new(0);
        self.killer1 = fresh_killers();
        self.killer2 = fresh_killers();
        let mut depth: u8 = 0;
        let mut num_nodes: u64 = 0;
        let mut firstguess = self.eval(s);
        let mut best_d = Direction::Stay;
        let mut prev_b = Direction::Stay;
        while depth < MAX_DEPTH
            invariant
                self.wf_bot(),
                s.wf(),
                same_play(entry, *s),
            decreases MAX_DEPTH - depth,
        {
            if now_ns() >= end_ns {
                depth = MAX_DEPTH;
            } else {
                depth = depth + 1;
                let v = self.mtdf(s, firstguess, depth, &mut num_nodes, end_ns);
                match v {
                    Some(g) => {
                        firstguess = g;
                        let hash = state_key(s);
                        match self.tt.probe(hash) {
                            Some(e) => {
                                prev_b = best_d;
                                best_d = e.mv.directions[0];
                            },
                            None => {},
                        }
                    },
                    None => {
                        depth = MAX_DEPTH;
                    },
                }
            }
        }
        prev_b
    }

    /// One whole turn's decision: searches for the move budget from now.
    pub fn choose_move(&mut self, s: &mut State) -> (r: Direction)
        requires
            old(self).wf_bot(),
            old(s).wf(),
        ensures
            final(self).wf_bot(),
            final(s).wf(),
            same_play(*old(s), *final(s)),
    {
        let now = now_ns();
        let end_ns = if now > u64::MAX - MOVE_BUDGET_NS {
            u64::MAX
        } else {
            now + MOVE_BUDGET_NS
        };
        self.choose_move_until(s, end_ns)
    }
}

} // verus!