use hnefatafl::config::Config;
use hnefatafl::ffi::array::Array;
use hnefatafl::ffi::config::{ConfigHandle, ConfigStringKey};
use hnefatafl::ffi::play_array::{play_array_get, play_array_length};
use hnefatafl::ffi::player::{TurnPlayer, Winner};
use hnefatafl::ffi::results::{FFIResult, FFIResultType};
use hnefatafl::ffi::tile_array::TileArray;
use hnefatafl::piece::{Piece, Tile};
use hnefatafl::state::{Play, Player};
use hnefatafl::uffi;

#[test]
fn winners_are_flattened() {
    assert_eq!(Winner::from(Some(Player::Attacker)), Winner::Attackers);
    assert_eq!(Winner::from(Some(Player::Defender)), Winner::Defenders);
    assert_eq!(Winner::from(None), Winner::Neither);
    assert_eq!(uffi::Winner::from(Some(Player::Attacker)), uffi::Winner::Attackers);
    assert_eq!(uffi::Winner::from(Some(Player::Defender)), uffi::Winner::Defenders);
    assert_eq!(uffi::Winner::from(None), uffi::Winner::Neither);
}

#[test]
fn turns_are_flattened() {
    assert_eq!(TurnPlayer::from(Player::Attacker), TurnPlayer::AttackersTurn);
    assert_eq!(TurnPlayer::from(Player::Defender), TurnPlayer::DefendersTurn);
    assert_eq!(uffi::TurnPlayer::from(Player::Attacker), uffi::TurnPlayer::Attackers);
    assert_eq!(uffi::TurnPlayer::from(Player::Defender), uffi::TurnPlayer::Defenders);
}

#[test]
fn the_dead_are_flattened() {
    assert_eq!(uffi::Dead::from(&Piece::Attacker), uffi::Dead::Attacker);
    assert_eq!(uffi::Dead::from(&Piece::Defender), uffi::Dead::Defender);
    assert_eq!(uffi::Dead::from(&Piece::King), uffi::Dead::King);
    assert_eq!(
        uffi::flat_dead(&vec![Piece::Defender, Piece::Attacker]),
        vec![uffi::Dead::Defender, uffi::Dead::Attacker]
    );
}

#[test]
fn plays_are_flattened_and_back() {
    let play = Play { from: (1, 2), to: (1, 9) };
    let flat = uffi::FlatPlay::from(play);
    assert_eq!(flat, uffi::FlatPlay { from_x: 1, from_y: 2, to_x: 1, to_y: 9 });
    assert_eq!(Play::from(flat), play);
    assert_eq!(uffi::flat_plays(&vec![play, Play { from: (0, 0), to: (3, 0) }]).len(), 2);
    assert_eq!(
        uffi::flat_plays(&vec![play])[0],
        uffi::FlatPlay { from_x: 1, from_y: 2, to_x: 1, to_y: 9 }
    );
}

#[test]
fn arrays_answer_inside_and_outside() {
    let array = Array::new(vec![10u16, 20, 30]);
    assert_eq!(array.length(), 3);
    assert_eq!(array.get(0), Some(&10));
    assert_eq!(array.get(2), Some(&30));
    assert_eq!(array.get(3), None);
    assert_eq!(array.values(), &vec![10u16, 20, 30]);
    let tiles = TileArray::new(vec![Tile::King, Tile::Attacker]);
    assert_eq!(tiles.length(), 2);
    assert_eq!(tiles.get(0), Tile::King);
    assert_eq!(tiles.get(1), Tile::Attacker);
    assert_eq!(tiles.get(2), Tile::Empty);
}

#[test]
fn play_arrays_give_a_dummy_past_their_end() {
    let plays = Array::new(vec![Play { from: (3, 4), to: (3, 7) }]);
    assert_eq!(play_array_length(&plays), 1);
    let first = play_array_get(&plays, 0);
    assert_eq!((first.from_x, first.from_y, first.to_x, first.to_y), (3, 4, 3, 7));
    let dummy = play_array_get(&plays, 1);
    assert_eq!((dummy.from_x, dummy.from_y, dummy.to_x, dummy.to_y), (0, 0, 0, 0));
}

#[test]
fn results_tell_their_type_and_hand_out_their_value() {
    let good: Box<FFIResult<u32, ()>> = FFIResult::new(Ok(5));
    assert_eq!(good.get_type(), FFIResultType::IsOk);
    assert_eq!(good.get_ok(), 5);
    let bad: Box<FFIResult<u32, u8>> = FFIResult::new(Err(9));
    assert_eq!(bad.get_type(), FFIResultType::IsErr);
    assert_eq!(bad.get_error(), 9);
}

#[test]
fn settings_start_british_and_take_a_new_locale() {
    assert_eq!(Config::default().locale, "en-GB");
    let mut handle = ConfigHandle::default();
    assert_eq!(handle.key(ConfigStringKey::Locale), "en-GB");
    handle.set(ConfigStringKey::Locale, "nb-NO".to_string());
    assert_eq!(handle.key(ConfigStringKey::Locale), "nb-NO");
    assert_eq!(handle.config().locale, "nb-NO");
    let other = ConfigHandle::new(Config { locale: "is-IS".to_string() });
    assert_eq!(other.key(ConfigStringKey::Locale), "is-IS");
}

#[test]
fn errors_say_what_went_wrong() {
    assert_eq!(uffi::InvalidPlayError::Illegal.message(), "Play is illegal");
    assert_eq!(uffi::NoPlayError::Missing.message(), "No play is available to make");
    assert_eq!(
        uffi::PlayError::Illegal(uffi::InvalidPlayError::Illegal).message(),
        "Play is illegal"
    );
    assert_eq!(
        uffi::PlayError::Missing(uffi::NoPlayError::Missing).message(),
        "No play is available to make"
    );
}
