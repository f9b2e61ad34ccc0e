use easy_ml::matrices::Matrix;
use hnefatafl::bot::minmax::{
    beside, best_place, material_score, min_max, min_max_play, played, score_play, wins_now,
    MinMaxPlayer, SEARCH_DEPTH,
};
use hnefatafl::piece::{Piece, Tile};
use hnefatafl::state::{GameState, GameStateUpdate, Play, Player};
use hnefatafl::uffi::{make_bot_play, NoPlayError, PlayError};

fn position(rows: [&str; 11], turn: Player) -> GameState {
    let mut tiles = Vec::new();
    for row in rows {
        assert_eq!(row.len(), 11);
        for letter in row.chars() {
            tiles.push(match letter {
                'A' => Tile::Attacker,
                'D' => Tile::Defender,
                'K' => Tile::King,
                _ => Tile::Empty,
            });
        }
    }
    GameState::try_from_setup(Matrix::from_flat_row_major((11, 11), tiles), turn).unwrap()
}

fn role(turn: Player) -> MinMaxPlayer {
    match turn {
        Player::Attacker => MinMaxPlayer::Maximising,
        Player::Defender => MinMaxPlayer::Minimising,
    }
}

/// The score by a search that looks at every play.
fn exhaustive(state: &GameState, depth: u8, player: MinMaxPlayer) -> i8 {
    match state.winner() {
        Some(Player::Defender) => return i8::MIN,
        Some(Player::Attacker) => return i8::MAX,
        None => (),
    }
    if depth == 0 {
        if wins_now(state, player) {
            return match player {
                MinMaxPlayer::Maximising => i8::MAX,
                MinMaxPlayer::Minimising => i8::MIN,
            };
        }
        return material_score(state.dead());
    }
    let plays = state.available_plays();
    let scores = plays.iter().map(|play| exhaustive(&played(state, play), depth - 1, player.next()));
    match player {
        MinMaxPlayer::Maximising => scores.max().unwrap(),
        MinMaxPlayer::Minimising => scores.min().unwrap(),
    }
}

fn escape() -> GameState {
    position(
        [
            "_KA________",
            "___________",
            "___________",
            "___________",
            "___________",
            "_A_________",
            "___________",
            "___________",
            "___________",
            "___________",
            "___________",
        ],
        Player::Defender,
    )
}

fn surround() -> GameState {
    position(
        [
            "___________",
            "___________",
            "___________",
            "____A______",
            "___AKA_____",
            "___________",
            "___________",
            "___________",
            "____A______",
            "___________",
            "___________",
        ],
        Player::Attacker,
    )
}

fn skirmish() -> GameState {
    position(
        [
            "___________",
            "___________",
            "___A_______",
            "___________",
            "__AD_A_____",
            "___________",
            "______K____",
            "___________",
            "___________",
            "___________",
            "___________",
        ],
        Player::Attacker,
    )
}

#[test]
fn the_bot_escapes_with_the_king() {
    for _ in 0..5 {
        let mut game = escape();
        let chosen = min_max_play(&game);
        assert_eq!(chosen, Some(Play { from: (1, 0), to: (0, 0) }));
        assert_eq!(game.make_play(&chosen.unwrap()), Ok(GameStateUpdate::DefenderWin));
        assert_eq!(game.winner(), Some(Player::Defender));
    }
}

#[test]
fn the_bot_closes_the_ring_round_the_king() {
    for _ in 0..5 {
        let mut game = surround();
        let chosen = min_max_play(&game);
        assert_eq!(chosen, Some(Play { from: (4, 8), to: (4, 5) }));
        assert_eq!(game.make_play(&chosen.unwrap()), Ok(GameStateUpdate::AttackerWin));
        assert_eq!(game.winner(), Some(Player::Attacker));
    }
}

#[test]
fn the_bot_leaves_the_game_it_is_given_alone() {
    let game = surround();
    let tiles = game.tiles();
    let _ = min_max_play(&game);
    assert_eq!(game.tiles(), tiles);
    assert_eq!(game.turn(), Player::Attacker);
    assert_eq!(game.turn_count(), 0);
    assert_eq!(game.winner(), None);
}

#[test]
fn the_bot_has_no_play_in_a_finished_game() {
    let mut game = surround();
    assert!(game.make_play(&Play { from: (4, 8), to: (4, 5) }).is_ok());
    assert_eq!(min_max_play(&game), None);
    assert_eq!(make_bot_play(&mut game), Err(PlayError::Missing(NoPlayError::Missing)));
    assert_eq!(game.turn_count(), 1);
}

#[test]
fn the_bot_has_no_play_for_a_side_without_pieces() {
    let game = position(
        [
            "___________",
            "___________",
            "___________",
            "___________",
            "____K______",
            "___________",
            "___________",
            "___________",
            "___________",
            "___________",
            "___________",
        ],
        Player::Attacker,
    );
    assert_eq!(min_max_play(&game), None);
}

#[test]
fn the_bot_makes_its_play_in_the_game() {
    let mut game = surround();
    assert_eq!(make_bot_play(&mut game), Ok(GameStateUpdate::AttackerWin));
    assert_eq!(game.winner(), Some(Player::Attacker));
    assert_eq!(game.dead(), &vec![Piece::King]);
    assert_eq!(game.turn_count(), 1);
}

#[test]
fn the_bot_plays_a_legal_play_with_the_best_score() {
    let game = skirmish();
    let plays = game.available_plays();
    let best = plays
        .iter()
        .map(|play| exhaustive(&played(&game, play), SEARCH_DEPTH - 1, MinMaxPlayer::Minimising))
        .max()
        .unwrap();
    for _ in 0..3 {
        let chosen = min_max_play(&game).unwrap();
        assert!(plays.contains(&chosen));
        assert_eq!(
            exhaustive(&played(&game, &chosen), SEARCH_DEPTH - 1, MinMaxPlayer::Minimising),
            best
        );
        assert_eq!(score_play(&game, &chosen, SEARCH_DEPTH, MinMaxPlayer::Maximising), best);
    }
}

#[test]
fn a_won_game_scores_for_its_winner() {
    let mut won = escape();
    assert!(won.make_play(&Play { from: (1, 0), to: (0, 0) }).is_ok());
    assert_eq!(min_max(won.clone(), 2, i8::MIN, i8::MAX, MinMaxPlayer::Maximising), i8::MIN);
    assert_eq!(min_max(won, 0, -5, 5, MinMaxPlayer::Minimising), i8::MIN);
    let mut lost = surround();
    assert!(lost.make_play(&Play { from: (4, 8), to: (4, 5) }).is_ok());
    assert_eq!(min_max(lost.clone(), 3, i8::MIN, i8::MAX, MinMaxPlayer::Minimising), i8::MAX);
    assert_eq!(min_max(lost, 0, -5, 5, MinMaxPlayer::Maximising), i8::MAX);
}

#[test]
fn a_decided_game_scores_the_same_through_every_window() {
    let mut won = escape();
    assert!(won.make_play(&Play { from: (1, 0), to: (0, 0) }).is_ok());
    let mut lost = surround();
    assert!(lost.make_play(&Play { from: (4, 8), to: (4, 5) }).is_ok());
    for (alpha, beta) in [(-128i8, 127i8), (-128, -127), (126, 127), (-1, 1), (5, 9), (-9, -5)] {
        for depth in 0..4u8 {
            for player in [MinMaxPlayer::Maximising, MinMaxPlayer::Minimising] {
                assert_eq!(min_max(won.clone(), depth, alpha, beta, player), i8::MIN);
                assert_eq!(min_max(lost.clone(), depth, alpha, beta, player), i8::MAX);
            }
        }
    }
}

#[test]
fn a_leaf_scores_the_same_through_every_window() {
    let mut game = skirmish();
    assert_eq!(
        game.make_play(&Play { from: (5, 4), to: (4, 4) }),
        Ok(GameStateUpdate::AttackerCapture)
    );
    for (alpha, beta) in [(-128i8, 127i8), (-128, -127), (126, 127), (1, 2), (5, 9), (-9, -5)] {
        assert_eq!(min_max(game.clone(), 0, alpha, beta, MinMaxPlayer::Minimising), 1);
        assert_eq!(min_max(escape(), 0, alpha, beta, MinMaxPlayer::Minimising), i8::MIN);
        assert_eq!(min_max(surround(), 0, alpha, beta, MinMaxPlayer::Maximising), i8::MAX);
        assert_eq!(min_max(skirmish(), 0, alpha, beta, MinMaxPlayer::Maximising), 0);
    }
}

#[test]
fn the_search_takes_the_side_it_is_told() {
    // the attackers are to move, and the search is told to minimise for them
    let game = skirmish();
    for depth in 0..3u8 {
        assert_eq!(
            min_max(game.clone(), depth, i8::MIN, i8::MAX, MinMaxPlayer::Minimising),
            exhaustive(&game, depth, MinMaxPlayer::Minimising)
        );
    }
}

#[test]
fn a_leaf_scores_a_win_at_hand_or_the_material() {
    // the king can step onto the corner
    assert_eq!(min_max(escape(), 0, i8::MIN, i8::MAX, MinMaxPlayer::Minimising), i8::MIN);
    assert!(wins_now(&escape(), MinMaxPlayer::Minimising));
    // an attacker can close the ring
    assert_eq!(min_max(surround(), 0, i8::MIN, i8::MAX, MinMaxPlayer::Maximising), i8::MAX);
    assert!(wins_now(&surround(), MinMaxPlayer::Maximising));
    // nothing at hand, nothing captured
    assert!(!wins_now(&skirmish(), MinMaxPlayer::Maximising));
    assert_eq!(min_max(skirmish(), 0, i8::MIN, i8::MAX, MinMaxPlayer::Maximising), 0);
    // a defender was captured
    let mut game = skirmish();
    assert_eq!(
        game.make_play(&Play { from: (5, 4), to: (4, 4) }),
        Ok(GameStateUpdate::AttackerCapture)
    );
    assert_eq!(min_max(game, 0, i8::MIN, i8::MAX, MinMaxPlayer::Minimising), 1);
}

#[test]
fn a_leaf_looks_only_at_plays_of_the_king_or_beside_it() {
    // the lone attacker can be captured by the defender, which ends the game,
    // but that is no play of the king
    let game = position(
        [
            "___________",
            "___________",
            "___________",
            "___________",
            "__KA_______",
            "___________",
            "____D______",
            "___________",
            "___________",
            "___________",
            "___________",
        ],
        Player::Defender,
    );
    assert!(!wins_now(&game, MinMaxPlayer::Minimising));
    assert_eq!(min_max(game.clone(), 0, i8::MIN, i8::MAX, MinMaxPlayer::Minimising), 0);
    assert_eq!(min_max(game, 1, i8::MIN, i8::MAX, MinMaxPlayer::Minimising), i8::MIN);
}

#[test]
fn the_material_is_dead_defenders_less_dead_attackers() {
    assert_eq!(material_score(&vec![]), 0);
    assert_eq!(material_score(&vec![Piece::Defender, Piece::Defender, Piece::Attacker]), 1);
    assert_eq!(material_score(&vec![Piece::Attacker, Piece::Attacker, Piece::King]), -2);
    assert_eq!(material_score(&vec![Piece::Defender; 121]), 121);
    assert_eq!(material_score(&vec![Piece::Attacker; 121]), -121);
    assert_eq!(material_score(&vec![Piece::King]), 0);
}

#[test]
fn pruning_does_not_change_the_score() {
    for (game, turn) in [
        (skirmish(), Player::Attacker),
        (escape(), Player::Defender),
        (surround(), Player::Attacker),
    ] {
        for depth in 0..3u8 {
            let exact = exhaustive(&game, depth, role(turn));
            assert_eq!(min_max(game.clone(), depth, i8::MIN, i8::MAX, role(turn)), exact);
            for (alpha, beta) in [(-3i8, 3i8), (-128, 0), (0, 127), (-1, 1), (1, 2), (-2, -1)] {
                let found = min_max(game.clone(), depth, alpha, beta, role(turn));
                if found <= alpha {
                    assert!(exact <= found);
                } else if found >= beta {
                    assert!(exact >= found);
                } else {
                    assert_eq!(found, exact);
                }
            }
        }
    }
}

#[test]
fn the_score_of_a_play_is_that_of_the_game_it_leads_to() {
    let game = skirmish();
    for play in game.available_plays() {
        assert_eq!(
            score_play(&game, &play, 2, MinMaxPlayer::Maximising),
            exhaustive(&played(&game, &play), 1, MinMaxPlayer::Minimising)
        );
    }
    let capture = Play { from: (5, 4), to: (4, 4) };
    assert_eq!(score_play(&game, &capture, 1, MinMaxPlayer::Maximising), 1);
}

#[test]
fn a_played_game_is_a_copy() {
    let game = skirmish();
    let after = played(&game, &Play { from: (5, 4), to: (4, 4) });
    assert_eq!(after.turn(), Player::Defender);
    assert_eq!(after.turn_count(), 1);
    assert_eq!(after.dead(), &vec![Piece::Defender]);
    assert_eq!(game.turn(), Player::Attacker);
    assert_eq!(game.turn_count(), 0);
    assert!(game.dead().is_empty());
    assert_ne!(after.tiles(), game.tiles());
}

#[test]
fn the_first_of_the_best_scores_is_taken() {
    assert_eq!(best_place(MinMaxPlayer::Maximising, &vec![1, 5, 3, 5]), 1);
    assert_eq!(best_place(MinMaxPlayer::Minimising, &vec![1, 5, -3, -3]), 2);
    assert_eq!(best_place(MinMaxPlayer::Maximising, &vec![-128]), 0);
    assert_eq!(best_place(MinMaxPlayer::Minimising, &vec![127, 127]), 0);
}

#[test]
fn squares_side_by_side_are_told() {
    assert!(beside((3, 3), (4, 3)));
    assert!(beside((3, 3), (2, 3)));
    assert!(beside((3, 3), (3, 4)));
    assert!(beside((3, 3), (3, 2)));
    assert!(!beside((3, 3), (3, 3)));
    assert!(!beside((3, 3), (4, 4)));
    assert!(!beside((3, 3), (5, 3)));
    assert!(!beside((0, 0), (255, 0)));
}

#[test]
fn the_sides_of_the_search_take_turns() {
    assert_eq!(MinMaxPlayer::Maximising.next(), MinMaxPlayer::Minimising);
    assert_eq!(MinMaxPlayer::Minimising.next(), MinMaxPlayer::Maximising);
    assert_eq!(SEARCH_DEPTH, 3);
}
