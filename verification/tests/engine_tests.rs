use vindibot::board::Board;
use vindibot::bot::Bot;
use vindibot::direction::Direction;
use vindibot::game::Game;
use vindibot::hero::Hero;
use vindibot::lru::LRU;
use vindibot::mv::Move;
use vindibot::position::Position;
use vindibot::state::State;
use vindibot::tile::Tile;
use vindibot::transposition_table::{Entry, Table};
use vindibot::zobrist::ZobristTable;

fn board_from(size: i8, rows: &[&str]) -> Board {
    let mut b = Board::new(size, ZobristTable::from_seed(11));
    let tiles: Vec<u8> = rows.concat().into_bytes();
    b.initialize(&tiles).expect("valid payload");
    b
}

fn hero(id: usize, x: i8, y: i8, life: u8, gold: u32, mine_count: u16) -> Hero {
    Hero {
        id,
        elo: 1200,
        pos: Position { x, y },
        last_dir: Direction::Stay,
        life,
        gold,
        mine_count,
        spawn_pos: Position { x, y },
        crashed: false,
    }
}

fn state_of(board: Board, heroes: Vec<Hero>, my: usize, max_turns: usize) -> State {
    let h = heroes[my - 1];
    State {
        game: Game {
            turn: 0,
            max_turns,
            heroes,
            board,
            finished: false,
        },
        hero: h,
    }
}

#[test]
fn tavern_heal_scenario() {
    // hero 1 drinks: pays two gold, heals to full, thirst takes one
    let b = board_from(4, &["@1[]    ", "        ", "    @2  ", "@3    @4"]);
    let heroes = vec![
        hero(1, 0, 0, 60, 5, 0),
        hero(2, 2, 2, 60, 0, 0),
        hero(3, 3, 0, 60, 0, 0),
        hero(4, 3, 3, 60, 0, 0),
    ];
    let mut s = state_of(b, heroes, 1, 100);
    s.make_move(Direction::East);
    assert_eq!(s.game.heroes[0].pos, Position { x: 0, y: 0 });
    assert_eq!(s.game.heroes[0].life, 99);
    assert_eq!(s.game.heroes[0].gold, 3);
    assert_eq!(s.game.turn, 1);
    assert_eq!(s.game.board.tile_at(&Position { x: 0, y: 1 }), Tile::Tavern);
}

#[test]
fn mine_capture_scenario() {
    // hero 1 captures the unowned mine: tile stamped, twenty life paid,
    // one gold mined, one thirst
    let b = board_from(4, &["@1$-    ", "        ", "    @2  ", "@3    @4"]);
    let heroes = vec![
        hero(1, 0, 0, 60, 5, 0),
        hero(2, 2, 2, 60, 0, 0),
        hero(3, 3, 0, 60, 0, 0),
        hero(4, 3, 3, 60, 0, 0),
    ];
    let mut s = state_of(b, heroes, 1, 100);
    s.make_move(Direction::East);
    assert_eq!(s.game.board.tile_at(&Position { x: 0, y: 1 }), Tile::Mine(1));
    assert_eq!(s.game.heroes[0].mine_count, 1);
    assert_eq!(s.game.heroes[0].life, 39);
    assert_eq!(s.game.heroes[0].gold, 6);
}

#[test]
fn suicide_on_mine_scenario() {
    // hero 1 at twenty life walks into an enemy mine: dies, its own mine
    // reverts to unowned, no adjacency damage, income still pays the
    // pre-death count
    let b = board_from(4, &["@1$2    ", "@3      ", "      @2", "  $1  @4"]);
    let mut h1 = hero(1, 0, 0, 20, 5, 1);
    h1.spawn_pos = Position { x: 2, y: 0 };
    let heroes = vec![
        h1,
        hero(2, 2, 3, 60, 0, 1),
        hero(3, 1, 0, 15, 0, 0),
        hero(4, 3, 3, 60, 0, 0),
    ];
    // seat 2 owns the mine east of hero 1; hero 1 itself owns one mine
    let mut s = state_of(b, heroes, 1, 100);
    s.make_move(Direction::East);
    // died and respawned
    assert_eq!(s.game.heroes[0].pos, Position { x: 2, y: 0 });
    assert_eq!(s.game.heroes[0].life, 99);
    assert_eq!(s.game.heroes[0].mine_count, 0);
    // its former mine is unowned again; the killer mine keeps its owner
    assert_eq!(s.game.board.tile_at(&Position { x: 3, y: 1 }), Tile::Mine(0));
    assert_eq!(s.game.board.tile_at(&Position { x: 0, y: 1 }), Tile::Mine(2));
    // the adjacent weak hero was not damaged
    assert_eq!(s.game.heroes[2].life, 15);
    // income paid the pre-death mine count
    assert_eq!(s.game.heroes[0].gold, 6);
    // the vacated cell is air, the spawn cell holds the hero tile
    assert_eq!(s.game.board.tile_at(&Position { x: 0, y: 0 }), Tile::Air);
    assert_eq!(s.game.board.tile_at(&Position { x: 2, y: 0 }), Tile::Hero(1));
}

#[test]
fn kill_by_adjacency_scenario() {
    // hero 1 steps next to a weak enemy: the enemy dies, its mines
    // transfer, it respawns at its spawn cell
    let b2 = board_from(4, &["    @2  ", "  @1    ", "        ", "$2$2@3@4"]);
    let mut h2b = hero(2, 0, 2, 15, 0, 2);
    h2b.spawn_pos = Position { x: 2, y: 3 };
    let heroes2 = vec![
        hero(1, 1, 1, 60, 5, 0),
        h2b,
        hero(3, 3, 2, 60, 0, 0),
        hero(4, 3, 3, 60, 0, 0),
    ];
    let mut s2 = state_of(b2, heroes2, 1, 100);
    s2.make_move(Direction::East);
    // hero 1 now at (1,2), adjacent to hero 2 at (0,2): kill
    assert_eq!(s2.game.heroes[0].pos, Position { x: 1, y: 2 });
    assert_eq!(s2.game.heroes[0].mine_count, 2);
    assert_eq!(s2.game.heroes[1].mine_count, 0);
    assert_eq!(s2.game.heroes[1].pos, Position { x: 2, y: 3 });
    assert_eq!(s2.game.heroes[1].life, 100);
    assert_eq!(s2.game.board.tile_at(&Position { x: 3, y: 0 }), Tile::Mine(1));
    assert_eq!(s2.game.board.tile_at(&Position { x: 3, y: 1 }), Tile::Mine(1));
    assert_eq!(s2.game.board.tile_at(&Position { x: 2, y: 3 }), Tile::Hero(2));
    assert_eq!(s2.game.board.tile_at(&Position { x: 0, y: 2 }), Tile::Air);
}

#[test]
fn respawn_collision_chain_scenario() {
    // hero 2 dies next to hero 1; hero 3 camps hero 2's spawn, so hero 3
    // dies in the chain (credited to hero 2) and respawns at its own
    // spawn before hero 2 takes its cell back
    let b = board_from(5, &["@3        ", "    @1@2  ", "          ", "  $2  $3  ", "@4        "]);
    let mut h2 = hero(2, 1, 3, 20, 0, 1);
    h2.spawn_pos = Position { x: 0, y: 0 };
    let mut h3 = hero(3, 0, 0, 60, 0, 1);
    h3.spawn_pos = Position { x: 2, y: 0 };
    let heroes = vec![
        hero(1, 1, 2, 60, 5, 0),
        h2,
        h3,
        hero(4, 4, 0, 60, 0, 0),
    ];
    let mut s = state_of(b, heroes, 1, 100);
    // hero 1 stays; hero 2 (adjacent, at twenty life) is killed
    s.make_move(Direction::Stay);
    // chain: hero 3 was on hero 2's spawn, died crediting hero 2
    assert_eq!(s.game.heroes[0].mine_count, 1, "hero 2's mine went to hero 1");
    assert_eq!(s.game.heroes[1].mine_count, 1, "hero 3's mine went to hero 2");
    assert_eq!(s.game.heroes[2].mine_count, 0);
    assert_eq!(s.game.heroes[1].pos, Position { x: 0, y: 0 });
    assert_eq!(s.game.heroes[1].life, 100);
    assert_eq!(s.game.heroes[2].pos, Position { x: 2, y: 0 });
    assert_eq!(s.game.heroes[2].life, 100);
    assert_eq!(s.game.board.tile_at(&Position { x: 3, y: 1 }), Tile::Mine(1));
    assert_eq!(s.game.board.tile_at(&Position { x: 3, y: 3 }), Tile::Mine(2));
    assert_eq!(s.game.board.tile_at(&Position { x: 0, y: 0 }), Tile::Hero(2));
    assert_eq!(s.game.board.tile_at(&Position { x: 2, y: 0 }), Tile::Hero(3));
}

#[test]
fn make_unmake_round_trip() {
    let b = board_from(4, &["@1$-    ", "        ", "    @2  ", "@3    @4"]);
    let heroes = vec![
        hero(1, 0, 0, 60, 5, 0),
        hero(2, 2, 2, 60, 0, 0),
        hero(3, 3, 0, 60, 0, 0),
        hero(4, 3, 3, 60, 0, 0),
    ];
    let mut s = state_of(b, heroes, 1, 100);
    let h_before: Vec<Hero> = s.game.heroes.clone();
    let hash_before = s.game.board.hash;
    let umi = s.make_move(Direction::East);
    assert_ne!(s.game.board.hash, hash_before);
    s.unmake_move(umi);
    assert_eq!(s.game.turn, 0);
    assert!(!s.game.finished);
    assert_eq!(s.game.board.hash, hash_before);
    assert_eq!(s.game.board.tile_at(&Position { x: 0, y: 1 }), Tile::Mine(0));
    for (a, b2) in s.game.heroes.iter().zip(h_before.iter()) {
        assert_eq!(a, b2);
    }
}

#[test]
fn deadline_fallback_returns_stay() {
    // a deadline already in the past: no iteration completes, the bot
    // passes and the game state is untouched
    let b = board_from(4, &["@1      ", "        ", "    @2  ", "@3    @4"]);
    let heroes = vec![
        hero(1, 0, 0, 60, 5, 0),
        hero(2, 2, 2, 60, 0, 0),
        hero(3, 3, 0, 60, 0, 0),
        hero(4, 3, 3, 60, 0, 0),
    ];
    let mut s = state_of(b, heroes, 1, 100);
    let turn_before = s.game.turn;
    let hash_before = s.game.board.hash;
    let h_before: Vec<Hero> = s.game.heroes.clone();
    let mut bot = Bot::new();
    let d = bot.choose_move_until(&mut s, 0);
    assert_eq!(d, Direction::Stay);
    assert_eq!(s.game.turn, turn_before);
    assert_eq!(s.game.board.hash, hash_before);
    for (a, b2) in s.game.heroes.iter().zip(h_before.iter()) {
        assert_eq!(a, b2);
    }
}

#[test]
fn choose_move_picks_a_direction() {
    // with a real budget the search finishes iterations and answers one
    // of the five actions, leaving the game state as it was
    let b = board_from(4, &["@1  $-  ", "        ", "[]  @2  ", "@3    @4"]);
    let heroes = vec![
        hero(1, 0, 0, 60, 5, 0),
        hero(2, 2, 2, 60, 0, 0),
        hero(3, 3, 0, 60, 0, 0),
        hero(4, 3, 3, 60, 0, 0),
    ];
    let mut s = state_of(b, heroes, 1, 40);
    let hash_before = s.game.board.hash;
    let mut bot = Bot::new();
    let d = bot.choose_move(&mut s);
    let all = [
        Direction::North,
        Direction::East,
        Direction::South,
        Direction::West,
        Direction::Stay,
    ];
    assert!(all.contains(&d));
    assert_eq!(s.game.board.hash, hash_before);
    assert_eq!(s.game.turn, 0);
}

#[test]
fn transposition_table_probe_and_store() {
    let mut t = Table::new(8);
    assert!(t.probe(12345).is_none());
    let mut e = Entry::default();
    e.hash = 12345;
    e.lower = -7;
    e.upper = 9;
    e.depth = 3;
    t.store(e);
    let got = t.probe(12345).expect("stored entry answers");
    assert_eq!(got.lower, -7);
    assert_eq!(got.upper, 9);
    assert_eq!(got.depth, 3);
    // a shallower entry at the same slot falls to the always-replace
    // bucket; both remain probeable by their hashes
    let mut e2 = Entry::default();
    e2.hash = 12345 + 4;
    e2.depth = 1;
    t.store(e2);
    assert!(t.probe(12345).is_some());
    assert!(t.probe(12345 + 4).is_some());
    assert!(t.probe(999).is_none());
}

#[test]
fn lru_query_and_eviction() {
    let mut l = LRU::new(0);
    assert_eq!(l.query(42), 255);
    l.insert(42);
    assert!(l.query(42) < 255);
    // twenty fresh keys evict the default-filled slots, then key 1000
    for k in 0..20u64 {
        l.insert(1000 + k);
    }
    assert_eq!(l.query(42), 255, "evicted after twenty inserts");
    assert!(l.query(1019) < 255);
}

#[test]
fn direction_from_name_round_trip() {
    for d in [
        Direction::North,
        Direction::East,
        Direction::South,
        Direction::West,
        Direction::Stay,
    ] {
        assert_eq!(Direction::from_name(d.name()), d);
    }
    assert_eq!(Direction::from_name(""), Direction::Stay);
    assert_eq!(Direction::from_name("sideways"), Direction::Stay);
}

#[test]
fn moves_compare_by_player_and_directions() {
    let a = Move {
        player: 1,
        directions: [Direction::Stay, Direction::East, Direction::Stay, Direction::Stay],
    };
    let b = Move {
        player: 1,
        directions: [Direction::Stay, Direction::East, Direction::Stay, Direction::Stay],
    };
    let c = Move { player: 2, ..a };
    assert_eq!(a, b);
    assert_ne!(a, c);
    assert_eq!(Move::default().player, 0);
}

fn owned_mine_tiles(s: &State) -> u32 {
    let mut n = 0;
    for x in 0..4i8 {
        for y in 0..4i8 {
            if let Tile::Mine(k) = s.game.board.tile_at(&Position { x, y }) {
                if k >= 1 {
                    n += 1;
                }
            }
        }
    }
    n
}

#[test]
fn mine_ownership_conserved_over_a_walk() {
    // every hero in turn plays its first legal move for a dozen turns;
    // after each move the mine counts sum to the owned tiles
    let b = board_from(4, &["@1$-  $2", "        ", "$-  @2  ", "@3  $-@4"]);
    let heroes = vec![
        hero(1, 0, 0, 60, 9, 0),
        hero(2, 2, 2, 60, 9, 1),
        hero(3, 3, 0, 60, 9, 0),
        hero(4, 3, 3, 60, 9, 0),
    ];
    let mut s = state_of(b, heroes, 1, 100);
    for _ in 0..12 {
        let moves = s.get_moves();
        s.make_move(moves[0]);
        let total: u32 = s.game.heroes.iter().map(|h| h.mine_count as u32).sum();
        assert_eq!(total, owned_mine_tiles(&s));
    }
}
