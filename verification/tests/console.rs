use hnefatafl::console::{
    is_whitespace, parse_move, parse_number, parse_position, respond, trim, Move, ParseMoveError,
    Position, Reply, Strip,
};
use hnefatafl::state::{GameState, GameStateUpdate, Play, Player};
use hnefatafl::text::{announcement, farewell, list_plays};

fn chars(text: &str) -> Vec<char> {
    text.chars().collect()
}

fn typed(from: (u8, u8), to: (u8, u8)) -> Move {
    Move { from: Position { x: from.0, y: from.1 }, to: Position { x: to.0, y: to.1 } }
}

/// A position read with the string functions of the standard library.
fn reference_position(s: &str) -> Result<Position, ParseMoveError> {
    let coords: Vec<&str> = s.trim_matches(|p| p == '(' || p == ')').split(',').collect();
    if coords.len() != 2 {
        return Err(ParseMoveError::ParsePositionError);
    }
    Ok(Position {
        x: coords[0].trim().parse().map_err(|_| ParseMoveError::ParseIntError)?,
        y: coords[1].trim().parse().map_err(|_| ParseMoveError::ParseIntError)?,
    })
}

/// A move read with the string functions of the standard library.
fn reference_move(s: &str) -> Result<Move, ParseMoveError> {
    let (from, to) = s
        .split_once("->")
        .or_else(|| s.split_once("to"))
        .ok_or(ParseMoveError::ParseMoveError)?;
    Ok(Move { from: reference_position(from.trim())?, to: reference_position(to.trim())? })
}

#[test]
fn moves_are_read() {
    assert_eq!(parse_move(&chars("(0, 0) -> (5, 0)")), Ok(typed((0, 0), (5, 0))));
    assert_eq!(parse_move(&chars("3,5 to 3,1")), Ok(typed((3, 5), (3, 1))));
    assert_eq!(parse_move(&chars("((1,2)) -> (3,4")), Ok(typed((1, 2), (3, 4))));
    assert_eq!(parse_move(&chars("(  7 , 8 )->(9,10)")), Ok(typed((7, 8), (9, 10))));
    assert_eq!(parse_move(&chars("(+5,255) -> (007,0)")), Ok(typed((5, 255), (7, 0))));
    // the arrow goes before the word, wherever the two stand
    assert_eq!(parse_move(&chars("1,2 -> 3,4 to 5,6")), Err(ParseMoveError::ParsePositionError));
    assert_eq!(parse_move(&chars("1,2 to 3,4 -> 5,6")), Err(ParseMoveError::ParsePositionError));
}

#[test]
fn lines_that_are_no_moves_say_why() {
    assert_eq!(parse_move(&chars("")), Err(ParseMoveError::ParseMoveError));
    assert_eq!(parse_move(&chars("hello")), Err(ParseMoveError::ParseMoveError));
    assert_eq!(parse_move(&chars("(1,2) - > (3,4)")), Err(ParseMoveError::ParseMoveError));
    assert_eq!(parse_move(&chars("(1;2) -> (3,4)")), Err(ParseMoveError::ParsePositionError));
    assert_eq!(parse_move(&chars("(1,2,3) -> (3,4)")), Err(ParseMoveError::ParsePositionError));
    assert_eq!(parse_move(&chars("(1,2) -> ")), Err(ParseMoveError::ParsePositionError));
    assert_eq!(parse_move(&chars("(a,2) -> (3,4)")), Err(ParseMoveError::ParseIntError));
    assert_eq!(parse_move(&chars("(1,) -> (3,4)")), Err(ParseMoveError::ParseIntError));
    assert_eq!(parse_move(&chars("(256,2) -> (3,4)")), Err(ParseMoveError::ParseIntError));
    assert_eq!(parse_move(&chars("(-1,2) -> (3,4)")), Err(ParseMoveError::ParseIntError));
    assert_eq!(parse_move(&chars("(1,2) -> (3,+)")), Err(ParseMoveError::ParseIntError));
    assert_eq!(parse_move(&chars("(1,2) -> (3,1 0)")), Err(ParseMoveError::ParseIntError));
    // the first position decides before the second is looked at
    assert_eq!(parse_move(&chars("(x,2) -> (3;4)")), Err(ParseMoveError::ParseIntError));
    assert_eq!(parse_move(&chars("(1;2) -> (x,4)")), Err(ParseMoveError::ParsePositionError));
}

#[test]
fn reading_agrees_with_the_standard_string_functions() {
    let pieces = [
        "", " ", "(", ")", ",", "->", "to", "0", "7", "10", "255", "256", "999", "+", "+3", "-",
        "x", "\t", "\u{a0}", "\u{2003}", "(1,2)", "3,4", " 5 , 6 ",
    ];
    let mut tried = 0;
    for a in pieces {
        for b in pieces {
            for c in pieces {
                let line = format!("{}{}{}", a, b, c);
                assert_eq!(parse_move(&chars(&line)), reference_move(&line), "{:?}", line);
                assert_eq!(parse_position(&chars(&line)), reference_position(&line), "{:?}", line);
                assert_eq!(
                    parse_number(&chars(&line)).ok(),
                    line.parse::<u8>().ok(),
                    "{:?}",
                    line
                );
                assert_eq!(
                    trim(&chars(&line), Strip::Space),
                    &chars(line.trim())[..],
                    "{:?}",
                    line
                );
                tried += 1;
            }
        }
    }
    assert_eq!(tried, 23 * 23 * 23);
    for line in ["(0, 0) -> (5, 0)", "3,5 to 3,1", "( 10 ,10)to(0,+0)", "1,2->3,4->5,6", "toto"] {
        assert_eq!(parse_move(&chars(line)), reference_move(line), "{:?}", line);
    }
}

#[test]
fn numbers_are_read() {
    assert_eq!(parse_number(&chars("0")), Ok(0));
    assert_eq!(parse_number(&chars("255")), Ok(255));
    assert_eq!(parse_number(&chars("+12")), Ok(12));
    assert_eq!(parse_number(&chars("0000000000000000000011")), Ok(11));
    assert_eq!(parse_number(&chars("256")), Err(ParseMoveError::ParseIntError));
    assert_eq!(parse_number(&chars("260")), Err(ParseMoveError::ParseIntError));
    assert_eq!(parse_number(&chars("2550")), Err(ParseMoveError::ParseIntError));
    assert_eq!(parse_number(&chars("")), Err(ParseMoveError::ParseIntError));
    assert_eq!(parse_number(&chars("+")), Err(ParseMoveError::ParseIntError));
    assert_eq!(parse_number(&chars("++1")), Err(ParseMoveError::ParseIntError));
    assert_eq!(parse_number(&chars("1+")), Err(ParseMoveError::ParseIntError));
    assert_eq!(parse_number(&chars(" 1")), Err(ParseMoveError::ParseIntError));
    assert_eq!(parse_number(&chars("٣")), Err(ParseMoveError::ParseIntError));
}

#[test]
fn positions_are_read() {
    assert_eq!(parse_position(&chars("(3,4)")), Ok(Position { x: 3, y: 4 }));
    assert_eq!(parse_position(&chars(")(3 ,\t4((")), Ok(Position { x: 3, y: 4 }));
    assert_eq!(parse_position(&chars("3,4")), Ok(Position { x: 3, y: 4 }));
    assert_eq!(parse_position(&chars("(3(,4)")), Err(ParseMoveError::ParseIntError));
    assert_eq!(parse_position(&chars("()")), Err(ParseMoveError::ParsePositionError));
    assert_eq!(parse_position(&chars("3")), Err(ParseMoveError::ParsePositionError));
    assert_eq!(parse_position(&chars("3,4,")), Err(ParseMoveError::ParsePositionError));
}

#[test]
fn ends_are_trimmed() {
    assert_eq!(trim(&chars("  a b \n"), Strip::Space), &chars("a b")[..]);
    assert_eq!(trim(&chars(" \t\r\n"), Strip::Space), &chars("")[..]);
    assert_eq!(trim(&chars(""), Strip::Space), &chars("")[..]);
    assert_eq!(trim(&chars("(("), Strip::Bracket), &chars("")[..]);
    assert_eq!(trim(&chars("((a)b))"), Strip::Bracket), &chars("a)b")[..]);
    assert_eq!(trim(&chars(" (a) "), Strip::Bracket), &chars(" (a) ")[..]);
}

#[test]
fn white_space_is_what_the_standard_library_takes_for_it() {
    for code in 0..0x3100u32 {
        if let Some(c) = char::from_u32(code) {
            assert_eq!(is_whitespace(c), c.is_whitespace(), "{:x}", code);
        }
    }
    assert!(!is_whitespace('\u{feff}'));
    assert!(!is_whitespace('\u{10ffff}'));
}

#[test]
fn a_typed_move_becomes_a_play() {
    assert_eq!(Play::new(typed((1, 2), (3, 4))), Play { from: (1, 2), to: (3, 4) });
}

#[test]
fn a_line_is_answered() {
    let mut game = GameState::new();
    match respond(&mut game, &chars("  enumerate \n")) {
        Reply::Listing(plays) => assert_eq!(plays, game.available_plays()),
        other => panic!("{:?}", other),
    }
    assert_eq!(game.turn_count(), 0);
    match respond(&mut game, &chars("what?")) {
        Reply::NotUnderstood(error) => assert_eq!(error, ParseMoveError::ParseMoveError),
        other => panic!("{:?}", other),
    }
    match respond(&mut game, &chars("(3,5) -> (x,5)")) {
        Reply::NotUnderstood(error) => assert_eq!(error, ParseMoveError::ParseIntError),
        other => panic!("{:?}", other),
    }
    assert!(matches!(respond(&mut game, &chars("(3,5) -> (4,5)")), Reply::Refused));
    assert!(matches!(respond(&mut game, &chars("(0,3) -> (0,2)")), Reply::Refused));
    assert!(matches!(respond(&mut game, &chars("(30,5) -> (3,5)")), Reply::Refused));
    assert_eq!(game.turn_count(), 0);
    match respond(&mut game, &chars(" (3,5) -> (2,5) ")) {
        Reply::Played(info) => assert_eq!(info, GameStateUpdate::Nothing),
        other => panic!("{:?}", other),
    }
    assert_eq!(game.turn_count(), 1);
    assert_eq!(game.turn(), Player::Attacker);
    match respond(&mut game, &chars("0,3 to 0,2")) {
        Reply::Played(info) => assert_eq!(info, GameStateUpdate::Nothing),
        other => panic!("{:?}", other),
    }
    assert_eq!(game.turn_count(), 2);
}

#[test]
fn plays_are_written() {
    assert_eq!(Play { from: (3, 5), to: (3, 1) }.to_text(), "(3,5) -> (3,1)");
    assert_eq!(Play { from: (10, 10), to: (10, 0) }.to_text(), "(10,10) -> (10,0)");
    assert_eq!(Play { from: (255, 100), to: (99, 9) }.to_text(), "(255,100) -> (99,9)");
}

#[test]
fn a_list_of_plays_is_set_in_columns() {
    let plays = GameState::new().available_plays();
    let mut expected = String::new();
    for (i, play) in plays.iter().enumerate() {
        let formatted = format!("({},{}) -> ({},{})", play.from.0, play.from.1, play.to.0, play.to.1);
        expected.push_str(&formatted);
        expected.push(' ');
        for _ in 0.."(10,10) -> (10,11)".len() - formatted.len() {
            expected.push(' ');
        }
        if i % 4 == 3 {
            expected.push('\n');
        }
    }
    assert_eq!(list_plays(&plays), expected);
    assert_eq!(list_plays(&vec![]), "");
    assert_eq!(list_plays(&vec![Play { from: (1, 2), to: (1, 10) }]), "(1,2) -> (1,10)    ");
}

#[test]
fn the_board_is_written() {
    let game = GameState::new();
    let tiles = game.tiles();
    let mut expected = String::from("Turn: White\n  ");
    for x in 0..11 {
        expected.push_str(&format!(" {}", x));
    }
    expected.push('\n');
    for x in 0..11 {
        if x < 10 {
            expected.push(' ');
        }
        expected.push_str(&format!("{}", x));
        for y in 0..11 {
            expected.push(' ');
            expected.push(tiles[y * 11 + x].symbol());
        }
        expected.push('\n');
    }
    assert_eq!(game.to_text(), expected);
    let first_lines: Vec<&str> = expected.lines().take(3).collect();
    assert_eq!(
        first_lines,
        vec!["Turn: White", "   0 1 2 3 4 5 6 7 8 9 10", " 0 _ _ _ A A A A A _ _ _"]
    );
    assert!(expected.ends_with("10 _ _ _ A A A A A _ _ _\n"));
}

#[test]
fn events_and_winners_are_announced() {
    assert_eq!(announcement(GameStateUpdate::DefenderWin), "White wins!");
    assert_eq!(announcement(GameStateUpdate::AttackerWin), "Red wins!");
    assert_eq!(announcement(GameStateUpdate::DefenderCapture), "Capture!");
    assert_eq!(announcement(GameStateUpdate::AttackerCapture), "Capture!");
    assert_eq!(announcement(GameStateUpdate::Nothing), "");
    assert_eq!(farewell(Player::Attacker), "The King was captured!");
    assert_eq!(farewell(Player::Defender), "The King escapes!");
}
