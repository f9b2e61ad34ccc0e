use easy_ml::matrices::Matrix;
use hnefatafl::board::{direction, Direction};
use hnefatafl::piece::{Piece, Tile};
use hnefatafl::state::{GameState, GameStateUpdate, IllegalPlay, Play, Player};

fn tile_of(letter: char) -> Tile {
    match letter {
        'A' => Tile::Attacker,
        'D' => Tile::Defender,
        'K' => Tile::King,
        _ => Tile::Empty,
    }
}

/// A board from its rows, top row first: the square `(x, y)` is letter `x`
/// of row `y`.
fn board(rows: [&str; 11]) -> Matrix<Tile> {
    let mut tiles = Vec::new();
    for row in rows {
        assert_eq!(row.len(), 11);
        for letter in row.chars() {
            tiles.push(tile_of(letter));
        }
    }
    Matrix::from_flat_row_major((11, 11), tiles)
}

fn game(rows: [&str; 11], turn: Player) -> GameState {
    GameState::try_from_setup(board(rows), turn).unwrap()
}

fn play(from: (u8, u8), to: (u8, u8)) -> Play {
    Play { from, to }
}

fn tile_on(game: &GameState, x: usize, y: usize) -> Tile {
    game.tiles()[y * 11 + x]
}

fn live(game: &GameState) -> usize {
    game.tiles().iter().filter(|tile| **tile != Tile::Empty).count()
}

const START: [&str; 11] = [
    "___AAAAA___",
    "_____A_____",
    "___________",
    "A____D____A",
    "A___DDD___A",
    "AA_DDKDD_AA",
    "A___DDD___A",
    "A____D____A",
    "___________",
    "_____A_____",
    "___AAAAA___",
];

#[test]
fn the_starting_position_is_the_known_one() {
    let game = GameState::new();
    assert_eq!(game.size(), (11, 11));
    assert_eq!(game.turn(), Player::Defender);
    assert_eq!(game.winner(), None);
    assert_eq!(game.turn_count(), 0);
    assert!(game.dead().is_empty());
    assert_eq!(game.king_position(), (5, 5));
    let tiles = game.tiles();
    assert_eq!(tiles.len(), 121);
    for (y, row) in START.iter().enumerate() {
        for (x, letter) in row.chars().enumerate() {
            assert_eq!(tiles[y * 11 + x], tile_of(letter), "at ({}, {})", x, y);
        }
    }
    assert_eq!(live(&game), 37);
}

#[test]
fn the_default_game_is_the_starting_position() {
    let game = GameState::default();
    assert_eq!(game.tiles(), GameState::new().tiles());
    assert_eq!(game.turn(), Player::Defender);
}

#[test]
fn tiles_come_row_by_row() {
    let game = game(
        [
            "_A_________",
            "___________",
            "K__________",
            "___________",
            "___________",
            "___________",
            "___________",
            "___________",
            "___________",
            "___________",
            "__________D",
        ],
        Player::Attacker,
    );
    let tiles = game.tiles();
    assert_eq!(tiles[1], Tile::Attacker);
    assert_eq!(tiles[22], Tile::King);
    assert_eq!(tiles[120], Tile::Defender);
    assert_eq!(game.king_position(), (0, 2));
}

#[test]
fn a_game_gives_back_the_grid_it_was_made_from() {
    let mut grid = vec![Tile::Empty; 121];
    grid[1] = Tile::King;
    grid[3] = Tile::Attacker;
    grid[2 * 11 + 1] = Tile::Attacker;
    let game = GameState::from_setup(
        Matrix::from_flat_row_major((11, 11), grid.clone()),
        Player::Defender,
    );
    let tiles = game.tiles();
    assert_eq!(tiles.len(), 121);
    assert_eq!(tiles[1], Tile::King);
    assert_eq!(tiles[3], Tile::Attacker);
    assert_eq!(tiles[23], Tile::Attacker);
    assert_eq!(tiles[11], Tile::Empty);
    assert_eq!(tiles, grid);
    assert_eq!(game.king_position(), (1, 0));
    let start = GameState::new();
    let again = GameState::from_setup(
        Matrix::from_flat_row_major((11, 11), start.tiles()),
        Player::Defender,
    );
    assert_eq!(again.tiles(), start.tiles());
}

#[test]
fn a_setup_needs_an_11_by_11_board_with_one_king() {
    assert!(GameState::try_from_setup(board(START), Player::Attacker).is_some());
    let mut none = START;
    none[5] = "AA_DD_DD_AA";
    assert!(GameState::try_from_setup(board(none), Player::Defender).is_none());
    let mut two = START;
    two[2] = "_____K_____";
    assert!(GameState::try_from_setup(board(two), Player::Defender).is_none());
    let small = Matrix::from_flat_row_major((1, 1), vec![Tile::King]);
    assert!(GameState::try_from_setup(small, Player::Defender).is_none());
    let wide = Matrix::from_flat_row_major((11, 12), {
        let mut tiles = vec![Tile::Empty; 132];
        tiles[0] = Tile::King;
        tiles
    });
    assert!(GameState::try_from_setup(wide, Player::Defender).is_none());
    let tall = Matrix::from_flat_row_major((12, 11), {
        let mut tiles = vec![Tile::Empty; 132];
        tiles[0] = Tile::King;
        tiles
    });
    assert!(GameState::try_from_setup(tall, Player::Defender).is_none());
}

#[test]
fn a_setup_keeps_the_board_and_finds_the_king() {
    let game = GameState::from_setup(
        board([
            "___________",
            "___________",
            "___________",
            "________K__",
            "___________",
            "___________",
            "_A_________",
            "___________",
            "___________",
            "___________",
            "___________",
        ]),
        Player::Attacker,
    );
    assert_eq!(game.king_position(), (8, 3));
    assert_eq!(tile_on(&game, 8, 3), Tile::King);
    assert_eq!(tile_on(&game, 1, 6), Tile::Attacker);
    assert_eq!(game.turn(), Player::Attacker);
    assert_eq!(game.turn_count(), 0);
    assert_eq!(game.winner(), None);
    assert_eq!(live(&game), 2);
}

#[test]
fn starting_position_defender_plays() {
    let game = GameState::new();
    let plays = game.available_plays();
    assert!(!plays.is_empty());
    let tiles = game.tiles();
    for play in &plays {
        let mover = tiles[play.from.1 as usize * 11 + play.from.0 as usize];
        assert!(mover == Tile::Defender || mover == Tile::King);
        if mover != Tile::King {
            assert_ne!(play.to, (5, 5));
        }
    }
    // the king is boxed in, and only the eight outer defenders can move
    assert_eq!(plays.len(), 60);
    assert_eq!(plays[0], play((3, 5), (2, 5)));
    assert_eq!(plays[1], play((3, 5), (3, 4)));
    assert_eq!(plays[2], play((3, 5), (3, 3)));
}

#[test]
fn plays_are_listed_by_square_then_direction_then_length() {
    let game = game(
        [
            "___________",
            "___________",
            "__A________",
            "___________",
            "___________",
            "_____K_____",
            "___________",
            "___________",
            "___________",
            "___________",
            "___________",
        ],
        Player::Attacker,
    );
    let plays = game.available_plays();
    let expected = vec![
        // left
        play((2, 2), (1, 2)),
        play((2, 2), (0, 2)),
        // up
        play((2, 2), (2, 1)),
        play((2, 2), (2, 0)),
        // right
        play((2, 2), (3, 2)),
        play((2, 2), (4, 2)),
        play((2, 2), (5, 2)),
        play((2, 2), (6, 2)),
        play((2, 2), (7, 2)),
        play((2, 2), (8, 2)),
        play((2, 2), (9, 2)),
        play((2, 2), (10, 2)),
        // down
        play((2, 2), (2, 3)),
        play((2, 2), (2, 4)),
        play((2, 2), (2, 5)),
        play((2, 2), (2, 6)),
        play((2, 2), (2, 7)),
        play((2, 2), (2, 8)),
        play((2, 2), (2, 9)),
        play((2, 2), (2, 10)),
    ];
    assert_eq!(plays, expected);
}

#[test]
fn only_the_king_may_stop_on_the_castle_or_a_corner() {
    let game = game(
        [
            "___D______A",
            "___________",
            "___________",
            "___________",
            "___________",
            "__D________",
            "___________",
            "___________",
            "___________",
            "K__________",
            "___________",
        ],
        Player::Defender,
    );
    let plays = game.available_plays();
    // the defender on the top row may not end on the corner
    assert!(!plays.contains(&play((3, 0), (0, 0))));
    assert!(plays.contains(&play((3, 0), (1, 0))));
    // the defender in the castle's row passes over the castle without stopping
    assert!(plays.contains(&play((2, 5), (4, 5))));
    assert!(!plays.contains(&play((2, 5), (5, 5))));
    assert!(plays.contains(&play((2, 5), (6, 5))));
    // the king may end on a corner
    assert!(plays.contains(&play((0, 9), (0, 6))));
    assert!(plays.contains(&play((0, 9), (0, 10))));
    assert!(plays.contains(&play((0, 9), (0, 0))));
    let mut after = game.clone();
    assert_eq!(after.make_play(&play((3, 0), (0, 0))), Err(IllegalPlay));
    assert_eq!(after.make_play(&play((2, 5), (5, 5))), Err(IllegalPlay));
    assert_eq!(after.make_play(&play((2, 5), (6, 5))), Ok(GameStateUpdate::Nothing));
}

#[test]
fn the_king_may_stop_on_the_castle() {
    let mut game = game(
        [
            "__________A",
            "___________",
            "___________",
            "___________",
            "___________",
            "__K________",
            "___________",
            "___________",
            "___________",
            "___________",
            "___________",
        ],
        Player::Defender,
    );
    assert!(game.available_plays().contains(&play((2, 5), (5, 5))));
    assert_eq!(game.make_play(&play((2, 5), (5, 5))), Ok(GameStateUpdate::Nothing));
    assert_eq!(game.king_position(), (5, 5));
    assert_eq!(tile_on(&game, 5, 5), Tile::King);
    assert_eq!(tile_on(&game, 2, 5), Tile::Empty);
}

#[test]
fn every_listed_play_is_made_and_no_other() {
    for turn in [Player::Defender, Player::Attacker] {
        let game = game(START, turn);
        let plays = game.available_plays();
        for from_x in 0..12u8 {
            for from_y in 0..12u8 {
                for to_x in 0..12u8 {
                    for to_y in 0..12u8 {
                        let tried = play((from_x, from_y), (to_x, to_y));
                        let mut copy = game.clone();
                        let made = copy.make_play(&tried);
                        assert_eq!(made.is_ok(), plays.contains(&tried), "{:?}", tried);
                        if made.is_err() {
                            assert_eq!(copy.tiles(), game.tiles());
                            assert_eq!(copy.turn(), game.turn());
                            assert_eq!(copy.turn_count(), game.turn_count());
                            assert_eq!(copy.dead(), game.dead());
                            assert_eq!(copy.winner(), game.winner());
                            assert_eq!(copy.king_position(), game.king_position());
                        }
                    }
                }
            }
        }
    }
}

#[test]
fn illegal_plays_are_refused() {
    let mut game = GameState::new();
    // off the board
    assert_eq!(game.make_play(&play((3, 5), (3, 11))), Err(IllegalPlay));
    assert_eq!(game.make_play(&play((11, 5), (3, 5))), Err(IllegalPlay));
    // nothing to move
    assert_eq!(game.make_play(&play((2, 2), (2, 3))), Err(IllegalPlay));
    // not the mover's piece
    assert_eq!(game.make_play(&play((0, 3), (0, 2))), Err(IllegalPlay));
    // going nowhere
    assert_eq!(game.make_play(&play((3, 5), (3, 5))), Err(IllegalPlay));
    // not straight
    assert_eq!(game.make_play(&play((3, 5), (2, 4))), Err(IllegalPlay));
    // onto a piece
    assert_eq!(game.make_play(&play((3, 5), (4, 5))), Err(IllegalPlay));
    // over a piece
    assert_eq!(game.make_play(&play((3, 5), (0, 5))), Err(IllegalPlay));
    assert_eq!(game.turn_count(), 0);
    assert_eq!(game.turn(), Player::Defender);
    assert_eq!(game.make_play(&play((3, 5), (2, 5))), Ok(GameStateUpdate::Nothing));
    assert_eq!(game.turn_count(), 1);
    assert_eq!(game.turn(), Player::Attacker);
    // the defenders have moved already
    assert_eq!(game.make_play(&play((4, 5), (3, 5))), Err(IllegalPlay));
}

#[test]
fn an_attacker_captures_a_flanked_defender() {
    let mut game = game(
        [
            "___________",
            "___________",
            "___A_______",
            "___________",
            "_ADA_______",
            "___________",
            "___________",
            "________K__",
            "___________",
            "___________",
            "___________",
        ],
        Player::Attacker,
    );
    let before = live(&game);
    // moving away from the flank and back captures nothing on the way out
    assert_eq!(game.make_play(&play((3, 2), (3, 3))), Ok(GameStateUpdate::Nothing));
    assert_eq!(game.make_play(&play((8, 7), (8, 8))), Ok(GameStateUpdate::Nothing));
    assert_eq!(game.make_play(&play((3, 4), (4, 4))), Ok(GameStateUpdate::Nothing));
    assert_eq!(game.make_play(&play((8, 8), (8, 7))), Ok(GameStateUpdate::Nothing));
    assert_eq!(game.make_play(&play((4, 4), (3, 4))), Ok(GameStateUpdate::AttackerCapture));
    assert_eq!(game.dead(), &vec![Piece::Defender]);
    assert_eq!(tile_on(&game, 2, 4), Tile::Empty);
    assert_eq!(live(&game), before - 1);
    assert_eq!(game.winner(), None);
    assert_eq!(game.turn(), Player::Defender);
    assert_eq!(game.turn_count(), 5);
}

#[test]
fn a_piece_that_moves_between_two_enemies_is_safe() {
    let mut game = game(
        [
            "___________",
            "___________",
            "___________",
            "__D________",
            "_A_A_______",
            "___________",
            "___________",
            "________K__",
            "___________",
            "___________",
            "___________",
        ],
        Player::Defender,
    );
    assert_eq!(game.make_play(&play((2, 3), (2, 4))), Ok(GameStateUpdate::Nothing));
    assert!(game.dead().is_empty());
    assert_eq!(tile_on(&game, 2, 4), Tile::Defender);
}

#[test]
fn one_arrival_can_capture_on_several_sides() {
    let mut game = game(
        [
            "___________",
            "___A_______",
            "___D_______",
            "A___DA_____",
            "___D_______",
            "___A_______",
            "___________",
            "________K__",
            "___________",
            "___________",
            "___________",
        ],
        Player::Attacker,
    );
    assert_eq!(live(&game), 8);
    assert_eq!(game.make_play(&play((0, 3), (3, 3))), Ok(GameStateUpdate::AttackerCapture));
    // the ones to the right, below and above fall
    assert_eq!(game.dead(), &vec![Piece::Defender, Piece::Defender, Piece::Defender]);
    assert_eq!(tile_on(&game, 4, 3), Tile::Empty);
    assert_eq!(tile_on(&game, 3, 2), Tile::Empty);
    assert_eq!(tile_on(&game, 3, 4), Tile::Empty);
    assert_eq!(tile_on(&game, 3, 3), Tile::Attacker);
    assert_eq!(live(&game), 5);
}

#[test]
fn a_corner_counts_as_hostile() {
    let mut game = game(
        [
            "_D_________",
            "___________",
            "__A________",
            "___________",
            "___________",
            "___________",
            "___________",
            "________K__",
            "___________",
            "___________",
            "___________",
        ],
        Player::Attacker,
    );
    assert_eq!(game.make_play(&play((2, 2), (2, 0))), Ok(GameStateUpdate::AttackerCapture));
    assert_eq!(game.dead(), &vec![Piece::Defender]);
    assert_eq!(tile_on(&game, 1, 0), Tile::Empty);
}

#[test]
fn the_edge_does_not_flank_a_defender() {
    let mut game = game(
        [
            "___________",
            "D__________",
            "___________",
            "_A_________",
            "___________",
            "___________",
            "___________",
            "________K__",
            "___________",
            "___________",
            "___________",
        ],
        Player::Attacker,
    );
    assert_eq!(game.make_play(&play((1, 3), (1, 1))), Ok(GameStateUpdate::Nothing));
    assert!(game.dead().is_empty());
}

#[test]
fn defenders_capture_a_flanked_attacker() {
    let mut game = game(
        [
            "___________",
            "___________",
            "___________",
            "___________",
            "__KA_______",
            "___________",
            "____D______",
            "___________",
            "___________",
            "A__________",
            "___________",
        ],
        Player::Defender,
    );
    assert_eq!(game.make_play(&play((4, 6), (4, 4))), Ok(GameStateUpdate::DefenderCapture));
    assert_eq!(game.dead(), &vec![Piece::Attacker]);
    assert_eq!(tile_on(&game, 3, 4), Tile::Empty);
    assert_eq!(game.winner(), None);
    assert_eq!(game.turn(), Player::Attacker);
}

#[test]
fn the_king_falls_when_all_four_sides_are_closed() {
    let mut game = game(
        [
            "___________",
            "___________",
            "___________",
            "____A______",
            "___AKA_____",
            "___________",
            "___________",
            "___________",
            "____A______",
            "___________",
            "___________",
        ],
        Player::Attacker,
    );
    assert_eq!(game.make_play(&play((4, 8), (4, 5))), Ok(GameStateUpdate::AttackerWin));
    assert_eq!(game.winner(), Some(Player::Attacker));
    assert_eq!(game.dead(), &vec![Piece::King]);
    assert_eq!(tile_on(&game, 4, 4), Tile::Empty);
    assert_eq!(game.turn_count(), 1);
    assert!(game.available_plays().is_empty());
    assert_eq!(game.make_play(&play((4, 5), (4, 6))), Err(IllegalPlay));
}

#[test]
fn three_sides_do_not_take_the_king() {
    let mut game = game(
        [
            "___________",
            "___________",
            "___________",
            "___________",
            "___AKA_____",
            "___________",
            "___________",
            "___________",
            "____A______",
            "___________",
            "___________",
        ],
        Player::Attacker,
    );
    assert_eq!(game.make_play(&play((4, 8), (4, 5))), Ok(GameStateUpdate::Nothing));
    assert_eq!(game.winner(), None);
    assert_eq!(tile_on(&game, 4, 4), Tile::King);
}

#[test]
fn the_edge_closes_a_side_of_the_king() {
    let mut game = game(
        [
            "___AKA_____",
            "___________",
            "___________",
            "____A______",
            "___________",
            "___________",
            "___________",
            "___________",
            "___________",
            "___________",
            "___________",
        ],
        Player::Attacker,
    );
    assert_eq!(game.make_play(&play((4, 3), (4, 1))), Ok(GameStateUpdate::AttackerWin));
    assert_eq!(game.winner(), Some(Player::Attacker));
    assert_eq!(game.dead(), &vec![Piece::King]);
}

#[test]
fn the_king_wins_on_a_corner() {
    let mut game = game(
        [
            "___________",
            "___________",
            "___________",
            "___________",
            "___________",
            "___________",
            "___________",
            "___________",
            "___________",
            "_A_________",
            "____K______",
        ],
        Player::Defender,
    );
    assert_eq!(game.make_play(&play((4, 10), (10, 10))), Ok(GameStateUpdate::DefenderWin));
    assert_eq!(game.winner(), Some(Player::Defender));
    assert_eq!(game.king_position(), (10, 10));
    // the turn does not pass on once the king has escaped
    assert_eq!(game.turn(), Player::Defender);
    assert_eq!(game.turn_count(), 1);
    assert!(game.available_plays().is_empty());
}

#[test]
fn a_side_without_a_play_has_lost() {
    let mut game = game(
        [
            "___________",
            "___________",
            "___________",
            "___________",
            "__KA_______",
            "___________",
            "____D______",
            "___________",
            "___________",
            "___________",
            "___________",
        ],
        Player::Defender,
    );
    // the last attacker is captured, so the attackers cannot move
    assert_eq!(game.make_play(&play((4, 6), (4, 4))), Ok(GameStateUpdate::DefenderWin));
    assert_eq!(game.winner(), Some(Player::Defender));
    assert_eq!(game.dead(), &vec![Piece::Attacker]);
    assert_eq!(game.turn(), Player::Attacker);
}

#[test]
fn the_king_is_followed_from_play_to_play() {
    let mut game = game(
        [
            "___________",
            "___________",
            "___________",
            "___________",
            "____K______",
            "___________",
            "___________",
            "___________",
            "_A_________",
            "___________",
            "___________",
        ],
        Player::Defender,
    );
    let moves = [
        (play((4, 4), (4, 2)), (4, 2)),
        (play((1, 8), (1, 7)), (4, 2)),
        (play((4, 2), (9, 2)), (9, 2)),
        (play((1, 7), (1, 6)), (9, 2)),
        (play((9, 2), (9, 9)), (9, 9)),
    ];
    for (made, king) in moves {
        assert!(game.make_play(&made).is_ok());
        assert_eq!(game.king_position(), king);
        let tiles = game.tiles();
        let kings: Vec<usize> = (0..121).filter(|index| tiles[*index] == Tile::King).collect();
        assert_eq!(kings, vec![king.1 as usize * 11 + king.0 as usize]);
    }
}

fn pieces_of(game: &GameState) -> Vec<Tile> {
    let mut pieces: Vec<Tile> =
        game.tiles().into_iter().filter(|tile| *tile != Tile::Empty).collect();
    pieces.extend(game.dead().iter().map(|piece| Tile::from(*piece)));
    pieces.sort_by_key(|tile| tile.symbol());
    pieces
}

#[test]
fn every_piece_is_on_the_board_or_among_the_dead() {
    let mut game = GameState::new();
    let pieces = pieces_of(&game);
    assert_eq!(pieces.len(), 37);
    let mut made = 0;
    let mut captured = 0;
    while game.winner().is_none() && made < 80 {
        let plays = game.available_plays();
        let chosen = plays[(made * 13 + 5) % plays.len()];
        let before = game.tiles();
        let dead_before = game.dead().len();
        assert!(game.make_play(&chosen).is_ok());
        made += 1;
        assert_eq!(pieces_of(&game), pieces);
        let after = game.tiles();
        let target = chosen.to.1 as usize * 11 + chosen.to.0 as usize;
        for index in 0..121 {
            if before[index] == Tile::Empty && index != target {
                assert_eq!(after[index], Tile::Empty);
            }
        }
        captured += game.dead().len() - dead_before;
    }
    assert_eq!(game.dead().len(), captured);
    assert!(captured > 0);
}

#[test]
fn pieces_are_neither_made_nor_lost() {
    let mut game = GameState::new();
    let total = live(&game);
    let mut made = 0;
    while game.winner().is_none() && made < 60 {
        let plays = game.available_plays();
        let chosen = plays[(made * 7) % plays.len()];
        let dead_before = game.dead().clone();
        assert!(game.make_play(&chosen).is_ok());
        made += 1;
        assert_eq!(live(&game) + game.dead().len(), total);
        assert_eq!(&game.dead()[..dead_before.len()], &dead_before[..]);
        assert_eq!(game.turn_count(), made as u32);
    }
}

#[test]
fn helpers_of_the_rules_agree_with_the_board() {
    let game = GameState::new();
    assert!(game.is_occupied((5, 5)));
    assert!(!game.is_occupied((2, 2)));
    assert!(game.can_stop_at(Piece::King, (2, 2)));
    assert!(!game.can_stop_at(Piece::Attacker, (0, 0)));
    assert!(game.can_stop_at(Piece::King, (0, 0)));
    assert!(!game.can_pass_through(Piece::Defender, (10, 10)));
    assert!(game.can_pass_through(Piece::King, (10, 10)));
    assert!(!game.can_pass_through(Piece::King, (5, 5)));
    assert!(game.is_valid_path((3, 5), (2, 5)));
    assert!(!game.is_valid_path((3, 5), (0, 5)));
    assert!(!game.is_valid_path((3, 5), (3, 5)));
    assert!(!game.is_valid_path((3, 5), (2, 4)));
    assert!(game.is_valid_defender_play(&play((3, 5), (3, 1))));
    assert!(!game.is_valid_defender_play(&play((0, 3), (0, 2))));
    assert!(game.is_valid_attacker_play(&play((0, 3), (0, 2))));
    assert!(!game.is_valid_attacker_play(&play((3, 5), (3, 1))));
    assert!(!game.is_defender_victory());
}

#[test]
fn sides_and_pieces_know_each_other() {
    assert!(Player::Defender.owns(Piece::King));
    assert!(Player::Defender.owns(Piece::Defender));
    assert!(!Player::Defender.owns(Piece::Attacker));
    assert!(Player::Attacker.owns(Piece::Attacker));
    assert!(!Player::Attacker.owns(Piece::King));
    assert_eq!(Player::Defender.next(), Player::Attacker);
    assert_eq!(Player::Attacker.next(), Player::Defender);
    assert_eq!(Player::Defender.colour(), "White");
    assert_eq!(Player::Attacker.colour(), "Red");
    assert_eq!(Piece::King.owner(), Player::Defender);
    assert_eq!(Piece::Attacker.owner(), Player::Attacker);
    assert_eq!(Tile::Empty.owner(), None);
    assert_eq!(Tile::Defender.owner(), Some(Player::Defender));
    assert_eq!(Tile::Empty.piece(), None);
    assert_eq!(Tile::King.piece(), Some(Piece::King));
    assert_eq!(Tile::from(Piece::Attacker), Tile::Attacker);
    assert_eq!(Piece::try_from(Tile::Defender), Ok(Piece::Defender));
    assert_eq!(Piece::try_from(Tile::Empty), Err(()));
    assert!(Tile::King.is_piece(Piece::King));
    assert!(!Tile::Empty.is_piece(Piece::King));
    assert!(Piece::Attacker.is_tile(Tile::Attacker));
    assert_eq!(Tile::Empty.symbol(), '_');
    assert_eq!(Tile::Attacker.symbol(), 'A');
    assert_eq!(Piece::Defender.symbol(), 'D');
    assert_eq!(Piece::King.symbol(), 'K');
}

#[test]
fn a_win_outlasts_what_comes_after_it() {
    let win = GameStateUpdate::DefenderWin;
    assert_eq!(win.update(GameStateUpdate::AttackerCapture), GameStateUpdate::DefenderWin);
    assert_eq!(
        GameStateUpdate::AttackerWin.update(GameStateUpdate::DefenderWin),
        GameStateUpdate::AttackerWin
    );
    assert_eq!(
        GameStateUpdate::AttackerCapture.update(GameStateUpdate::AttackerWin),
        GameStateUpdate::AttackerWin
    );
    assert_eq!(
        GameStateUpdate::Nothing.update(GameStateUpdate::DefenderCapture),
        GameStateUpdate::DefenderCapture
    );
    assert_eq!(
        GameStateUpdate::DefenderCapture.update(GameStateUpdate::Nothing),
        GameStateUpdate::Nothing
    );
}

#[test]
fn directions_lead_from_square_to_square() {
    assert_eq!(direction((3, 3), (5, 3)), Direction::Right);
    assert_eq!(direction((3, 3), (0, 3)), Direction::Left);
    assert_eq!(direction((3, 3), (3, 9)), Direction::Down);
    assert_eq!(direction((3, 3), (3, 2)), Direction::Up);
    assert_eq!(
        Direction::directions(),
        [Direction::Left, Direction::Up, Direction::Right, Direction::Down]
    );
}
