//! The game in words: plays, the board and what a play brought about, as
//! they are shown to a player.

use vstd::prelude::*;

use crate::board::{on_board, Position, SIDE};
use crate::piece::Tile;
use crate::rules::GameView;
use crate::state::{GameState, GameStateUpdate, Play, Player};

verus! {

/// `String::push`: appends a character to the end of a string.
#[verifier::external_body]
fn push(text: &mut String, c: char)
    ensures
        final(text)@ == old(text)@.push(c),
{
    text.push(c)
}

/// `String::push_str`: appends a string slice to the end of a string.
#[verifier::external_body]
fn push_str(text: &mut String, more: &str)
    ensures
        final(text)@ == old(text)@ + more@,
{
    text.push_str(more)
}

/// The character that writes a number below ten.
pub open spec fn digit_char(digit: int) -> char {
    if digit == 0 {
        '0'
    } else if digit == 1 {
        '1'
    } else if digit == 2 {
        '2'
    } else if digit == 3 {
        '3'
    } else if digit == 4 {
        '4'
    } else if digit == 5 {
        '5'
    } else if digit == 6 {
        '6'
    } else if digit == 7 {
        '7'
    } else if digit == 8 {
        '8'
    } else {
        '9'
    }
}

/// A number in decimal digits, without leading zeros.
pub open spec fn decimal(number: int) -> Seq<char>
    decreases number,
{
    if number < 10 {
        seq![digit_char(number)]
    } else {
        decimal(number / 10).push(digit_char(number % 10))
    }
}

/// The one-letter name of a tile, `_` for an empty square.
pub open spec fn tile_char(tile: Tile) -> char {
    match tile {
        Tile::Empty => '_',
        Tile::Attacker => 'A',
        Tile::Defender => 'D',
        Tile::King => 'K',
    }
}

/// A position in words: its two coordinates in brackets.
pub open spec fn position_text(position: Position) -> Seq<char> {
    seq!['('] + decimal(position.0 as int) + seq![','] + decimal(position.1 as int) + seq![')']
}

/// A play in words: where it starts, an arrow, where it ends.
pub open spec fn play_text(play: Play) -> Seq<char> {
    position_text(play.from) + seq![' ', '-', '>', ' '] + position_text(play.to)
}

/// The character that writes a number below ten.
fn digit_of(digit: u8) -> (r: char)
    requires
        digit < 10,
    ensures
        r == digit_char(digit as int),
{
    match digit {
        0 => '0',
        1 => '1',
        2 => '2',
        3 => '3',
        4 => '4',
        5 => '5',
        6 => '6',
        7 => '7',
        8 => '8',
        _ => '9',
    }
}

/// Appends a number in decimal digits.
fn push_number(text: &mut String, number: u8)
    ensures
        final(text)@ == old(text)@ + decimal(number as int),
{
    if number >= 100 {
        push(text, digit_of(number / 100));
    }
    if number >= 10 {
        push(text, digit_of(number / 10 % 10));
    }
    push(text, digit_of(number % 10));
    proof {
        let n = number as int;
        reveal_with_fuel(decimal, 3);
        if n >= 100 {
            assert(decimal(n) =~= seq![
                digit_char(n / 100),
                digit_char(n / 10 % 10),
                digit_char(n % 10),
            ]);
        } else if n >= 10 {
            assert(decimal(n) =~= seq![digit_char(n / 10), digit_char(n % 10)]);
        }
        assert(text@ =~= old(text)@ + decimal(n));
    }
}

/// Appends a position in words.
fn push_position(text: &mut String, position: Position)
    ensures
        final(text)@ == old(text)@ + position_text(position),
{
    push(text, '(');
    push_number(text, position.0);
    push(text, ',');
    push_number(text, position.1);
    push(text, ')');
    assert(text@ =~= old(text)@ + position_text(position));
}

impl Play {
    /// The play in words, such as `(3,5) -> (3,1)`.
    pub fn to_text(&self) -> (r: String)
        ensures
            r@ == play_text(*self),
    {
        let mut text = String::new();
        push_position(&mut text, self.from);
        push(&mut text, ' ');
        push(&mut text, '-');
        push(&mut text, '>');
        push(&mut text, ' ');
        push_position(&mut text, self.to);
        assert(text@ =~= play_text(*self));
        text
    }
}

/// What is shown to the players after a play.
pub fn announcement(info: GameStateUpdate) -> (r: &'static str)
    ensures
        r@ == match info {
            GameStateUpdate::DefenderWin => "White wins!"@,
            GameStateUpdate::AttackerWin => "Red wins!"@,
            GameStateUpdate::DefenderCapture => "Capture!"@,
            GameStateUpdate::AttackerCapture => "Capture!"@,
            GameStateUpdate::Nothing => ""@,
        },
{
    match info {
        GameStateUpdate::DefenderWin => "White wins!",
        GameStateUpdate::AttackerWin => "Red wins!",
        GameStateUpdate::DefenderCapture => "Capture!",
        GameStateUpdate::AttackerCapture => "Capture!",
        GameStateUpdate::Nothing => "",
    }
}

/// What is shown to the players when a side has won.
pub fn farewell(winner: Player) -> (r: &'static str)
    ensures
        r@ == match winner {
            Player::Attacker => "The King was captured!"@,
            Player::Defender => "The King escapes!"@,
        },
{
    match winner {
        Player::Attacker => "The King was captured!",
        Player::Defender => "The King escapes!",
    }
}

/// The numbers below `count`, each after a blank: the line above the board.
pub open spec fn header(count: int) -> Seq<char>
    decreases count,
{
    if count <= 0 {
        Seq::empty()
    } else {
        header(count - 1) + seq![' '] + decimal(count - 1)
    }
}

/// The letters of the first `count` tiles with a given `x`, each after a
/// blank.
pub open spec fn line_tiles(grid: Seq<Seq<Tile>>, x: int, count: int) -> Seq<char>
    decreases count,
{
    if count <= 0 {
        Seq::empty()
    } else {
        line_tiles(grid, x, count - 1) + seq![' ', tile_char(grid[count - 1][x])]
    }
}

/// One line of the board: its number, two characters wide, then its tiles.
pub open spec fn line_text(grid: Seq<Seq<Tile>>, x: int) -> Seq<char> {
    (if x < 10 {
        seq![' ']
    } else {
        Seq::empty()
    }) + decimal(x) + line_tiles(grid, x, SIDE as int) + seq!['\n']
}

/// The first `count` lines of the board.
pub open spec fn lines_text(grid: Seq<Seq<Tile>>, count: int) -> Seq<char>
    decreases count,
{
    if count <= 0 {
        Seq::empty()
    } else {
        lines_text(grid, count - 1) + line_text(grid, count - 1)
    }
}

/// The colour that a side plays.
pub open spec fn colour_of(player: Player) -> Seq<char> {
    match player {
        Player::Defender => "White"@,
        Player::Attacker => "Red"@,
    }
}

/// A game in words: whose turn it is, then the board with a numbered line
/// for each `x`, which holds the tiles of that `x` by `y`.
pub open spec fn game_text(game: GameView) -> Seq<char> {
    "Turn: "@ + colour_of(game.turn) + seq!['\n', ' ', ' '] + header(SIDE as int) + seq!['\n']
        + lines_text(game.grid, SIDE as int)
}

impl GameState {
    /// The game in words: whose turn it is, and the board.
    pub fn to_text(&self) -> (r: String)
        requires
            self.well_formed(),
        ensures
            r@ == game_text(self@),
    {
        let tiles = self.tiles();
        let (w, h) = self.size();
        let ghost grid = self@.grid;
        let mut text = String::new();
        push_str(&mut text, "Turn: ");
        push_str(&mut text, self.turn().colour());
        push(&mut text, '\n');
        push_str(&mut text, "  ");
        proof {
            reveal_strlit("  ");
            assert(text@ =~= "Turn: "@ + colour_of(self@.turn) + seq!['\n', ' ', ' '] + header(0));
        }
        let ghost start = "Turn: "@ + colour_of(self@.turn) + seq!['\n', ' ', ' '];
        let mut x: u8 = 0;
        while x < w
            invariant
                w == SIDE,
                x <= SIDE,
                text@ == start + header(x as int),
            decreases SIDE - x,
        {
            let ghost before = text@;
            push(&mut text, ' ');
            push_number(&mut text, x);
            assert(text@ =~= start + header(x + 1)) by {
                assert(header(x + 1) == header(x as int) + seq![' '] + decimal(x as int));
                assert(text@ =~= before + seq![' '] + decimal(x as int));
            }
            x = x + 1;
        }
        push(&mut text, '\n');
        let ghost top = start + header(SIDE as int) + seq!['\n'];
        assert(text@ =~= top + lines_text(grid, 0));
        let mut x: u8 = 0;
        while x < w
            invariant
                w == SIDE,
                h == SIDE,
                x <= SIDE,
                tiles@.len() == SIDE * SIDE,
                forall|x1: int, y1: int|
                    0 <= x1 < SIDE && 0 <= y1 < SIDE ==> tiles@[y1 * SIDE + x1]
                        == #[trigger] grid[y1][x1],
                text@ == top + lines_text(grid, x as int),
            decreases SIDE - x,
        {
            let ghost before = text@;
            if x < 10 {
                push(&mut text, ' ');
            }
            push_number(&mut text, x);
            let ghost lead = (if x < 10 {
                seq![' ']
            } else {
                Seq::empty()
            }) + decimal(x as int);
            assert(text@ =~= before + lead + line_tiles(grid, x as int, 0));
            let mut y: u8 = 0;
            while y < h
                invariant
                    h == SIDE,
                    x < SIDE,
                    y <= SIDE,
                    tiles@.len() == SIDE * SIDE,
                    forall|x1: int, y1: int|
                        0 <= x1 < SIDE && 0 <= y1 < SIDE ==> tiles@[y1 * SIDE + x1]
                            == #[trigger] grid[y1][x1],
                    text@ == before + lead + line_tiles(grid, x as int, y as int),
                decreases SIDE - y,
            {
                let ghost so_far = text@;
                push(&mut text, ' ');
                let index: usize = y as usize * 11 + x as usize;
                assert(tiles@[index as int] == grid[y as int][x as int]) by {
                    assert(tiles@[y * SIDE + x] == grid[y as int][x as int]);
                }
                push(&mut text, tiles[index].symbol());
                assert(text@ =~= before + lead + line_tiles(grid, x as int, y + 1)) by {
                    assert(line_tiles(grid, x as int, y + 1) == line_tiles(
                        grid,
                        x as int,
                        y as int,
                    ) + seq![' ', tile_char(grid[y as int][x as int])]);
                    assert(text@ =~= so_far + seq![' ', tile_char(grid[y as int][x as int])]);
                }
                y = y + 1;
            }
            push(&mut text, '\n');
            assert(text@ =~= top + lines_text(grid, x + 1)) by {
                assert(lines_text(grid, x + 1) == lines_text(grid, x as int) + line_text(
                    grid,
                    x as int,
                ));
                assert(text@ =~= before + lead + line_tiles(grid, x as int, SIDE as int)
                    + seq!['\n']);
                assert(line_text(grid, x as int) =~= lead + line_tiles(grid, x as int, SIDE as int)
                    + seq!['\n']);
            }
            x = x + 1;
        }
        assert(text@ =~= game_text(self@));
        text
    }
}

/// The width that every play takes in a list of plays.
pub const PLAY_WIDTH: usize = 18;

/// The number of characters of a number in decimal digits.
pub open spec fn decimal_width(number: int) -> int {
    if number >= 100 {
        3
    } else if number >= 10 {
        2
    } else {
        1
    }
}

/// The number of characters of a play in words.
pub open spec fn play_width(play: Play) -> int {
    10 + decimal_width(play.from.0 as int) + decimal_width(play.from.1 as int) + decimal_width(
        play.to.0 as int,
    ) + decimal_width(play.to.1 as int)
}

/// A number below 256 has as many digits as its size asks for.
pub proof fn lemma_decimal_width(number: int)
    requires
        0 <= number < 256,
    ensures
        decimal(number).len() == decimal_width(number),
{
    reveal_with_fuel(decimal, 3);
}

/// A play in words is as long as its coordinates ask for.
pub proof fn lemma_play_width(play: Play)
    ensures
        play_text(play).len() == play_width(play),
        on_board(play.from) && on_board(play.to) ==> play_width(play) <= PLAY_WIDTH,
{
    lemma_decimal_width(play.from.0 as int);
    lemma_decimal_width(play.from.1 as int);
    lemma_decimal_width(play.to.0 as int);
    lemma_decimal_width(play.to.1 as int);
}

/// That many blanks.
pub open spec fn blanks(count: int) -> Seq<char> {
    Seq::new(count as nat, |i: int| ' ')
}

/// One entry of a list of plays: the play in words and blanks up to one more
/// than the width that every play takes; after every fourth entry the line
/// ends.
pub open spec fn entry_text(play: Play, place: int) -> Seq<char> {
    play_text(play) + blanks(1 + PLAY_WIDTH - play_width(play)) + if place % 4 == 3 {
        seq!['\n']
    } else {
        Seq::empty()
    }
}

/// The first `count` entries of a list of plays.
pub open spec fn list_text(plays: Seq<Play>, count: int) -> Seq<char>
    decreases count,
{
    if count <= 0 {
        Seq::empty()
    } else {
        list_text(plays, count - 1) + entry_text(plays[count - 1], count - 1)
    }
}

/// The number of characters of a number in decimal digits.
fn width_of(number: u8) -> (r: usize)
    ensures
        r == decimal_width(number as int),
{
    if number >= 100 {
        3
    } else if number >= 10 {
        2
    } else {
        1
    }
}

/// A list of plays in words, four to a line, each in a column of its own.
/// The plays must lie on the board, so that each fits its column.
pub fn list_plays(plays: &Vec<Play>) -> (r: String)
    requires
        forall|i: int|
            0 <= i < plays@.len() ==> on_board((#[trigger] plays@[i]).from) && on_board(
                plays@[i].to,
            ),
    ensures
        r@ == list_text(plays@, plays@.len() as int),
{
    let mut text = String::new();
    assert(text@ =~= list_text(plays@, 0));
    let mut index: usize = 0;
    while index < plays.len()
        invariant
            index <= plays@.len(),
            forall|i: int|
                0 <= i < plays@.len() ==> on_board((#[trigger] plays@[i]).from) && on_board(
                    plays@[i].to,
                ),
            text@ == list_text(plays@, index as int),
        decreases plays@.len() - index,
    {
        let play = plays[index];
        let ghost before = text@;
        proof {
            lemma_play_width(play);
        }
        let formatted = play.to_text();
        push_str(&mut text, formatted.as_str());
        push(&mut text, ' ');
        let width: usize = 10 + width_of(play.from.0) + width_of(play.from.1) + width_of(play.to.0)
            + width_of(play.to.1);
        let mut padded: usize = width;
        assert(text@ =~= before + play_text(play) + blanks(1));
        while padded < PLAY_WIDTH
            invariant
                width <= padded <= PLAY_WIDTH,
                text@ == before + play_text(play) + blanks(1 + padded - width),
            decreases PLAY_WIDTH - padded,
        {
            let ghost so_far = text@;
            push(&mut text, ' ');
            assert(text@ =~= before + play_text(play) + blanks(1 + padded + 1 - width)) by {
                assert(blanks(1 + padded - width).push(' ') =~= blanks(1 + padded + 1 - width));
            }
            padded = padded + 1;
        }
        if index % 4 == 3 {
            push(&mut text, '\n');
        }
        assert(text@ =~= list_text(plays@, index + 1)) by {
            assert(list_text(plays@, index + 1) == list_text(plays@, index as int) + entry_text(
                plays@[index as int],
                index as int,
            ));
        }
        index = index + 1;
    }
    text
}

} // verus!
