use vindibot::board::Board;
use vindibot::direction::Direction;
use vindibot::game::Game;
use vindibot::hero::Hero;
use vindibot::position::Position;
use vindibot::state::{State, UnmakeInfo};
use vindibot::tile::Tile;
use vindibot::zobrist::ZobristTable;

fn board_from(size: i8, rows: &[&str]) -> Board {
    let mut b = Board::new(size, ZobristTable::from_seed(7));
    let tiles: Vec<u8> = rows.concat().into_bytes();
    b.initialize(&tiles).expect("valid payload");
    b
}

#[test]
fn parse_small_board() {
    let b = board_from(4, &["####$-  ", "##[]    ", "  @1  $2", "    @2##"]);
    assert_eq!(b.tile_at(&Position { x: 0, y: 0 }), Tile::Wall);
    assert_eq!(b.tile_at(&Position { x: 0, y: 2 }), Tile::Mine(0));
    assert_eq!(b.tile_at(&Position { x: 1, y: 1 }), Tile::Tavern);
    assert_eq!(b.tile_at(&Position { x: 2, y: 1 }), Tile::Hero(1));
    assert_eq!(b.tile_at(&Position { x: 2, y: 3 }), Tile::Mine(2));
    assert_eq!(b.tile_at(&Position { x: 3, y: 2 }), Tile::Hero(2));
    // out of bounds reads as wall
    assert_eq!(b.tile_at(&Position { x: -1, y: 0 }), Tile::Wall);
    assert_eq!(b.tile_at(&Position { x: 0, y: 4 }), Tile::Wall);
}

#[test]
fn parse_rejects_bad_glyph() {
    let mut b = Board::new(2, ZobristTable::from_seed(7));
    let tiles: Vec<u8> = b"####??##".to_vec();
    assert_eq!(b.initialize(&tiles), Err(vindibot::BotError::MalformedTile));
}

#[test]
fn hash_tracks_put_tile() {
    let mut b = board_from(2, &["$-  ", "  $1"]);
    let h0 = b.hash;
    // flipping mine ownership back and forth restores the hash
    b.put_tile(&Position { x: 0, y: 0 }, Tile::Mine(3));
    assert_ne!(b.hash, h0);
    b.put_tile(&Position { x: 0, y: 0 }, Tile::Mine(0));
    assert_eq!(b.hash, h0);
}

#[test]
fn equivalent_boards_hash_identically() {
    let a = board_from(3, &["  ##  ", "[]$-  ", "  ##@1"]);
    let b = board_from(3, &["  ##  ", "[]$-  ", "  ##@1"]);
    assert_eq!(a.hash, b.hash);
}

#[test]
fn shortest_path_simple_corridor() {
    let mut b = board_from(3, &["      ", "######", "      "]);
    let d = b.shortest_path_length(&Position { x: 0, y: 0 }, &Position { x: 0, y: 2 });
    assert_eq!(d, 2);
    // the wall row is unreachable
    let w = b.shortest_path_length(&Position { x: 0, y: 0 }, &Position { x: 2, y: 0 });
    assert_eq!(w, 255);
}

#[test]
fn shortest_path_symmetric_between_walkable_cells() {
    let mut b = board_from(4, &["        ", "  ####  ", "  ####  ", "        "]);
    let a = Position { x: 0, y: 0 };
    let c = Position { x: 3, y: 3 };
    let d1 = b.shortest_path_length(&a, &c);
    let d2 = b.shortest_path_length(&c, &a);
    assert_eq!(d1, d2);
    assert_eq!(d1, 6);
}

#[test]
fn path_to_tavern_is_terminal() {
    let mut b = board_from(3, &["  []  ", "      ", "      "]);
    // the tavern is entered as a last step
    let d = b.shortest_path_length(&Position { x: 0, y: 0 }, &Position { x: 0, y: 1 });
    assert_eq!(d, 1);
    // but a query from the tavern sees only itself
    let r = b.shortest_path_length(&Position { x: 0, y: 1 }, &Position { x: 0, y: 0 });
    assert_eq!(r, 255);
    let z = b.shortest_path_length(&Position { x: 0, y: 1 }, &Position { x: 0, y: 1 });
    assert_eq!(z, 0);
}

#[test]
fn closest_tavern_and_mine() {
    let mut b = board_from(4, &["[]      ", "        ", "  $1    ", "      []"]);
    let (td, tp) = b.get_closest_tavern(&Position { x: 1, y: 1 });
    assert_eq!(td, 2);
    assert_eq!(tp, Position { x: 0, y: 0 });
    let (md, mp) = b.get_closest_mine(&Position { x: 1, y: 1 }, 2);
    assert_eq!(md, 1);
    assert_eq!(mp, Some(Position { x: 2, y: 1 }));
    // a mine the player already owns is not a candidate
    let (md1, mp1) = b.get_closest_mine(&Position { x: 1, y: 1 }, 1);
    assert_eq!(md1, 255);
    assert_eq!(mp1, None);
}

#[test]
fn direction_to_steps_closer() {
    let mut b = board_from(3, &["      ", "      ", "      "]);
    let d = b.direction_to(&Position { x: 0, y: 0 }, &Position { x: 0, y: 2 });
    assert_eq!(d, Direction::East);
    let d2 = b.direction_to(&Position { x: 2, y: 1 }, &Position { x: 0, y: 1 });
    assert_eq!(d2, Direction::North);
}

#[test]
fn direction_codec_round_trip() {
    for i in 0u8..5 {
        let d = Direction::from_index(i);
        assert_eq!(d.as_index(), i);
    }
    assert_eq!(Direction::North.name(), "North");
    assert_eq!(Direction::Stay.name(), "Stay");
    assert_eq!(Direction::default(), Direction::Stay);
}

#[test]
fn manhattan_distance_examples() {
    let a = Position { x: 2, y: 3 };
    let b = Position { x: -1, y: 5 };
    assert_eq!(a.manhattan_distance(&b), 5);
    assert_eq!(b.manhattan_distance(&a), 5);
    assert_eq!(a.manhattan_distance(&a), 0);
}

#[test]
fn zobrist_from_seed_is_reproducible() {
    let a = ZobristTable::from_seed(42);
    let b = ZobristTable::from_seed(42);
    let c = ZobristTable::from_seed(43);
    assert_eq!(a.keys, b.keys);
    assert_ne!(a.keys, c.keys);
    assert_eq!(a.keys.len(), 12 * 35 * 35);
}

fn two_hero_state() -> State {
    let b = board_from(4, &["@1      ", "  @2    ", "@3    $-", "      @4"]);
    let mk = |id: usize, x: i8, y: i8| Hero {
        id,
        elo: 1200,
        pos: Position { x, y },
        last_dir: Direction::Stay,
        life: 60,
        gold: 5,
        mine_count: 0,
        spawn_pos: Position { x, y },
        crashed: false,
    };
    let heroes = vec![mk(1, 0, 0), mk(2, 1, 1), mk(3, 2, 0), mk(4, 3, 3)];
    let hero = heroes[0];
    State {
        game: Game {
            turn: 0,
            max_turns: 100,
            heroes,
            board: b,
            finished: false,
        },
        hero,
    }
}

#[test]
fn get_moves_lists_legal_directions() {
    let s = two_hero_state();
    let moves = s.get_moves();
    // hero 1 at the corner: south is air, east is air, stay closes the list
    assert_eq!(moves, vec![Direction::East, Direction::South, Direction::Stay]);
}

#[test]
fn unmake_restores_heroes_and_turn() {
    let mut s = two_hero_state();
    let snapshot: Vec<_> = s.game.heroes.clone();
    let h0 = s.game.board.hash;
    // simulate a recorded tile write and undo it
    let p = Position { x: 0, y: 0 };
    let umi = UnmakeInfo {
        heroes: snapshot.clone(),
        tiles: vec![(p, Tile::Hero(1))],
    };
    s.game.board.put_tile(&p, Tile::Air);
    s.game.turn += 1;
    assert_ne!(s.game.board.hash, h0);
    s.unmake_move(umi);
    assert_eq!(s.game.turn, 0);
    assert_eq!(s.game.board.hash, h0);
    assert_eq!(s.game.board.tile_at(&p), Tile::Hero(1));
    for (a, b) in s.game.heroes.iter().zip(snapshot.iter()) {
        assert_eq!(a, b);
    }
}

#[test]
fn crashed_hero_can_only_stay() {
    let mut s = two_hero_state();
    s.game.heroes[0].crashed = true;
    s.hero = s.game.heroes[0];
    assert_eq!(s.get_moves(), vec![Direction::Stay]);
}

#[test]
fn no_moves_after_the_last_turn() {
    let mut s = two_hero_state();
    s.game.turn = 101;
    assert_eq!(s.get_moves(), Vec::<Direction>::new());
}
