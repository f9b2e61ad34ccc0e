//! What a player types and what the engine makes of it: a move is written
//! as two positions with `->` or `to` between them, a position as two
//! numbers with a comma between them, in brackets or not.

use vstd::prelude::*;
use vstd::slice::slice_subrange;

use crate::rules::{after_play, event_of, legal_play, lists_plays};
use crate::state::{GameState, GameStateUpdate, Play};

verus! {

/// Why a line is no move.
#[derive(Clone, Copy, Debug, PartialEq, Eq, Structural)]
pub enum ParseMoveError {
    /// A coordinate is no number from 0 to 255.
    ParseIntError,
    /// A position is not two coordinates with one comma between them.
    ParsePositionError,
    /// The line holds neither `->` nor `to`.
    ParseMoveError,
}

/// A position as it is typed.
#[derive(Clone, Copy, Debug, PartialEq, Eq, Structural)]
pub struct Position {
    pub x: u8,
    pub y: u8,
}

/// A move as it is typed.
#[derive(Clone, Copy, Debug, PartialEq, Eq, Structural)]
pub struct Move {
    pub from: Position,
    pub to: Position,
}

/// What is taken off the ends of a text.
#[derive(Clone, Copy, Debug, PartialEq, Eq, Structural)]
pub enum Strip {
    /// White space.
    Space,
    /// Round brackets.
    Bracket,
}

/// Whether a character is white space.
pub open spec fn is_space(c: char) -> bool {
    ||| '\u{9}' <= c <= '\u{d}'
    ||| c == ' '
    ||| c == '\u{85}'
    ||| c == '\u{a0}'
    ||| c == '\u{1680}'
    ||| '\u{2000}' <= c <= '\u{200a}'
    ||| c == '\u{2028}'
    ||| c == '\u{2029}'
    ||| c == '\u{202f}'
    ||| c == '\u{205f}'
    ||| c == '\u{3000}'
}

/// Whether a character is one of those taken off the ends of a text.
pub open spec fn strips(kind: Strip, c: char) -> bool {
    match kind {
        Strip::Space => is_space(c),
        Strip::Bracket => c == '(' || c == ')',
    }
}

/// Whether what is left of a text, once its ends are stripped, runs from
/// `low` up to `high`: everything outside is stripped, and neither end of
/// what is left could be. Of a text that is stripped away whole, nothing is
/// left at its end.
pub open spec fn is_trim(text: Seq<char>, kind: Strip, low: int, high: int) -> bool {
    &&& 0 <= low <= high <= text.len()
    &&& forall|k: int| 0 <= k < low ==> strips(kind, #[trigger] text[k])
    &&& forall|k: int| high <= k < text.len() ==> strips(kind, #[trigger] text[k])
    &&& low < high ==> !strips(kind, text[low]) && !strips(kind, text[high - 1])
    &&& low == high ==> low == text.len()
}

/// A text without the characters of a kind at its ends.
pub open spec fn trimmed(text: Seq<char>, kind: Strip) -> Seq<char> {
    let ends = choose|ends: (int, int)| is_trim(text, kind, ends.0, ends.1);
    text.subrange(ends.0, ends.1)
}

/// The value of a decimal digit.
pub open spec fn digit_value(c: char) -> Option<int> {
    if '0' <= c <= '9' {
        Some(c as int - '0' as int)
    } else {
        None
    }
}

/// Whether a text is made of decimal digits.
pub open spec fn all_digits(text: Seq<char>) -> bool {
    forall|k: int| 0 <= k < text.len() ==> digit_value(#[trigger] text[k]).is_some()
}

/// The number that decimal digits write.
pub open spec fn digits_value(text: Seq<char>) -> int
    decreases text.len(),
{
    if text.len() == 0 {
        0
    } else {
        digits_value(text.drop_last()) * 10 + digit_value(text.last()).unwrap()
    }
}

/// The digits of a number as it is typed: the text itself, without a plus
/// sign at its front.
pub open spec fn unsigned(text: Seq<char>) -> Seq<char> {
    if text.len() > 0 && text[0] == '+' {
        text.drop_first()
    } else {
        text
    }
}

/// The coordinate that a text writes: decimal digits, at least one, after
/// at most one plus sign, that write a number up to 255.
pub open spec fn number_in(text: Seq<char>) -> Option<u8> {
    let digits = unsigned(text);
    if digits.len() > 0 && all_digits(digits) && digits_value(digits) <= u8::MAX {
        Some(digits_value(digits) as u8)
    } else {
        None
    }
}

/// Whether a text holds a comma at a place and nowhere else.
pub open spec fn one_comma(text: Seq<char>, place: int) -> bool {
    &&& 0 <= place < text.len()
    &&& forall|k: int| 0 <= k < text.len() ==> ((#[trigger] text[k]) == ',' <==> k == place)
}

/// The position that a text writes: inside any brackets at its ends, two
/// coordinates with one comma between them, each with any white space round
/// it.
pub open spec fn position_in(text: Seq<char>) -> Result<Position, ParseMoveError> {
    let inner = trimmed(text, Strip::Bracket);
    if exists|place: int| one_comma(inner, place) {
        let place = choose|place: int| one_comma(inner, place);
        match number_in(trimmed(inner.subrange(0, place), Strip::Space)) {
            None => Err(ParseMoveError::ParseIntError),
            Some(x) => match number_in(
                trimmed(inner.subrange(place + 1, inner.len() as int), Strip::Space),
            ) {
                None => Err(ParseMoveError::ParseIntError),
                Some(y) => Ok(Position { x, y }),
            },
        }
    } else {
        Err(ParseMoveError::ParsePositionError)
    }
}

/// Whether two characters stand side by side at a place of a text, and at
/// no place before it.
pub open spec fn first_pair(text: Seq<char>, first: char, second: char, place: int) -> bool {
    &&& pair_at(text, first, second, place)
    &&& forall|k: int| 0 <= k < place ==> !pair_at(text, first, second, k)
}

/// Whether two characters stand side by side at a place of a text.
pub open spec fn pair_at(text: Seq<char>, first: char, second: char, place: int) -> bool {
    0 <= place && place + 1 < text.len() && text[place] == first && text[place + 1] == second
}

/// Where a text is cut in two: at the first `->`, or at the first `to` if it
/// holds no `->`.
pub open spec fn cut_of(text: Seq<char>) -> Option<int> {
    if exists|place: int| first_pair(text, '-', '>', place) {
        Some(choose|place: int| first_pair(text, '-', '>', place))
    } else if exists|place: int| first_pair(text, 't', 'o', place) {
        Some(choose|place: int| first_pair(text, 't', 'o', place))
    } else {
        None
    }
}

/// The move that a text writes: a position before the cut and one after
/// it, each with any white space round it.
pub open spec fn move_in(text: Seq<char>) -> Result<Move, ParseMoveError> {
    match cut_of(text) {
        None => Err(ParseMoveError::ParseMoveError),
        Some(place) => match position_in(trimmed(text.subrange(0, place), Strip::Space)) {
            Err(error) => Err(error),
            Ok(from) => match position_in(
                trimmed(text.subrange(place + 2, text.len() as int), Strip::Space),
            ) {
                Err(error) => Err(error),
                Ok(to) => Ok(Move { from, to }),
            },
        },
    }
}

/// A text has one way only to be stripped at its ends.
pub proof fn lemma_trim_is_unique(
    text: Seq<char>,
    kind: Strip,
    low: int,
    high: int,
    other_low: int,
    other_high: int,
)
    requires
        is_trim(text, kind, low, high),
        is_trim(text, kind, other_low, other_high),
    ensures
        low == other_low,
        high == other_high,
{
    if low < other_low {
        assert(strips(kind, text[low]));
    }
    if other_low < low {
        assert(strips(kind, text[other_low]));
    }
    if high < other_high {
        assert(strips(kind, text[other_high - 1]));
    }
    if other_high < high {
        assert(strips(kind, text[high - 1]));
    }
}

/// Whether a character is white space.
pub fn is_whitespace(c: char) -> (r: bool)
    ensures
        r == is_space(c),
{
    ('\u{9}' <= c && c <= '\u{d}') || c == ' ' || c == '\u{85}' || c == '\u{a0}' || c
        == '\u{1680}' || ('\u{2000}' <= c && c <= '\u{200a}') || c == '\u{2028}' || c
        == '\u{2029}' || c == '\u{202f}' || c == '\u{205f}' || c == '\u{3000}'
}

/// Whether a character is one of those taken off the ends of a text.
fn is_stripped(kind: Strip, c: char) -> (r: bool)
    ensures
        r == strips(kind, c),
{
    match kind {
        Strip::Space => is_whitespace(c),
        Strip::Bracket => c == '(' || c == ')',
    }
}

/// A text without the characters of a kind at its ends.
pub fn trim<'a>(text: &'a [char], kind: Strip) -> (r: &'a [char])
    ensures
        r@ == trimmed(text@, kind),
{
    let mut low: usize = 0;
    while low < text.len() && is_stripped(kind, text[low])
        invariant
            low <= text@.len(),
            forall|k: int| 0 <= k < low ==> strips(kind, #[trigger] text@[k]),
        decreases text@.len() - low,
    {
        low = low + 1;
    }
    let mut high: usize = text.len();
    while low < high && is_stripped(kind, text[high - 1])
        invariant
            low <= high <= text@.len(),
            forall|k: int| high <= k < text@.len() ==> strips(kind, #[trigger] text@[k]),
        decreases high - low,
    {
        high = high - 1;
    }
    proof {
        assert(is_trim(text@, kind, low as int, high as int));
        let ends = choose|ends: (int, int)| is_trim(text@, kind, ends.0, ends.1);
        assert(is_trim(text@, kind, (low as int, high as int).0, (low as int, high as int).1));
        lemma_trim_is_unique(text@, kind, low as int, high as int, ends.0, ends.1);
    }
    slice_subrange(text, low, high)
}

/// The value of a decimal digit.
fn digit(c: char) -> (r: Option<u8>)
    ensures
        r matches Some(value) ==> digit_value(c) == Some(value as int),
        r.is_none() ==> digit_value(c).is_none(),
{
    match c {
        '0' => Some(0),
        '1' => Some(1),
        '2' => Some(2),
        '3' => Some(3),
        '4' => Some(4),
        '5' => Some(5),
        '6' => Some(6),
        '7' => Some(7),
        '8' => Some(8),
        '9' => Some(9),
        _ => None,
    }
}

/// Digits write no smaller a number than the first of them do.
pub proof fn lemma_digits_grow(text: Seq<char>, count: int)
    requires
        all_digits(text),
        0 <= count <= text.len(),
    ensures
        0 <= digits_value(text.take(count)) <= digits_value(text),
    decreases text.len() - count,
{
    if count < text.len() {
        let shorter = text.drop_last();
        assert(digit_value(text.last()).is_some());
        assert forall|k: int| 0 <= k < shorter.len() implies digit_value(
            #[trigger] shorter[k],
        ).is_some() by {
            assert(shorter[k] == text[k]);
        }
        lemma_digits_grow(shorter, count);
        assert(shorter.take(count) =~= text.take(count));
        lemma_digits_positive(shorter);
    } else {
        assert(text.take(count) =~= text);
        lemma_digits_positive(text);
    }
}

/// Digits write no negative number.
pub proof fn lemma_digits_positive(text: Seq<char>)
    requires
        all_digits(text),
    ensures
        0 <= digits_value(text),
    decreases text.len(),
{
    if text.len() > 0 {
        let shorter = text.drop_last();
        assert(digit_value(text.last()).is_some());
        assert forall|k: int| 0 <= k < shorter.len() implies digit_value(
            #[trigger] shorter[k],
        ).is_some() by {
            assert(shorter[k] == text[k]);
        }
        lemma_digits_positive(shorter);
    }
}

/// The coordinate that a text writes.
pub fn parse_number(text: &[char]) -> (r: Result<u8, ParseMoveError>)
    ensures
        r == match number_in(text@) {
            Some(number) => Ok::<u8, ParseMoveError>(number),
            None => Err(ParseMoveError::ParseIntError),
        },
{
    let start: usize = if text.len() > 0 && text[0] == '+' {
        1
    } else {
        0
    };
    let ghost digits = unsigned(text@);
    assert(digits =~= text@.subrange(start as int, text@.len() as int));
    if start == text.len() {
        return Err(ParseMoveError::ParseIntError);
    }
    let mut number: u8 = 0;
    let mut index: usize = start;
    while index < text.len()
        invariant
            start <= index <= text@.len(),
            digits == unsigned(text@),
            digits.len() > 0,
            digits == text@.subrange(start as int, text@.len() as int),
            forall|k: int| 0 <= k < index - start ==> digit_value(#[trigger] digits[k]).is_some(),
            number == digits_value(digits.take(index - start)),
        decreases text@.len() - index,
    {
        let ghost done = digits.take(index - start);
        let ghost more = digits.take(index - start + 1);
        proof {
            assert(more.drop_last() =~= done);
            assert(more.last() == text@[index as int]);
            assert(digits[index - start] == text@[index as int]);
        }
        let value = match digit(text[index]) {
            Some(value) => value,
            None => {
                assert(!all_digits(digits)) by {
                    assert(digit_value(digits[index - start]).is_none());
                }
                return Err(ParseMoveError::ParseIntError);
            },
        };
        assert(digits_value(more) == digits_value(done) * 10 + value);
        if number > 25 || (number == 25 && value > 5) {
            proof {
                if all_digits(digits) {
                    lemma_digits_grow(digits, index - start + 1);
                    assert(digits_value(digits) > u8::MAX);
                }
            }
            return Err(ParseMoveError::ParseIntError);
        }
        number = number * 10 + value;
        index = index + 1;
    }
    proof {
        assert(digits.take(index - start) =~= digits);
    }
    Ok(number)
}

/// The position that a text writes.
pub fn parse_position(text: &[char]) -> (r: Result<Position, ParseMoveError>)
    ensures
        r == position_in(text@),
{
    let inner = trim(text, Strip::Bracket);
    let mut comma: Option<usize> = None;
    let mut index: usize = 0;
    while index < inner.len()
        invariant
            index <= inner@.len(),
            inner@ == trimmed(text@, Strip::Bracket),
            comma.is_none() ==> forall|k: int| 0 <= k < index ==> #[trigger] inner@[k] != ',',
            comma matches Some(place) ==> place < index && forall|k: int|
                0 <= k < index ==> ((#[trigger] inner@[k]) == ',' <==> k == place),
        decreases inner@.len() - index,
    {
        if inner[index] == ',' {
            if comma.is_some() {
                assert(!exists|place: int| one_comma(inner@, place)) by {
                    let earlier = comma.unwrap() as int;
                    assert forall|place: int| !one_comma(inner@, place) by {
                        if one_comma(inner@, place) {
                            assert(inner@[index as int] == ',');
                            assert(index == place);
                            assert(inner@[earlier] == ',');
                            assert(earlier == place);
                        }
                    }
                }
                assert(inner@ == trimmed(text@, Strip::Bracket));
                return Err(ParseMoveError::ParsePositionError);
            }
            comma = Some(index);
        }
        index = index + 1;
    }
    let place = match comma {
        Some(place) => place,
        None => {
            assert(!exists|place: int| one_comma(inner@, place)) by {
                assert forall|place: int| !one_comma(inner@, place) by {
                    if one_comma(inner@, place) {
                        assert(inner@[place] == ',');
                    }
                }
            }
            return Err(ParseMoveError::ParsePositionError);
        },
    };
    proof {
        assert(one_comma(inner@, place as int));
        let chosen = choose|chosen: int| one_comma(inner@, chosen);
        assert(inner@[chosen] == ',');
        assert(chosen == place);
    }
    let first = trim(slice_subrange(inner, 0, place), Strip::Space);
    let x = match parse_number(first) {
        Ok(x) => x,
        Err(error) => return Err(error),
    };
    let second = trim(slice_subrange(inner, place + 1, inner.len()), Strip::Space);
    let y = match parse_number(second) {
        Ok(y) => y,
        Err(error) => return Err(error),
    };
    Ok(Position { x, y })
}

/// The first place at which two characters stand side by side in a text.
fn find_pair(text: &[char], first: char, second: char) -> (r: Option<usize>)
    ensures
        r matches Some(place) ==> first_pair(text@, first, second, place as int),
        r.is_none() ==> !exists|place: int| first_pair(text@, first, second, place),
{
    if text.len() < 2 {
        assert forall|place: int| !first_pair(text@, first, second, place) by {
            if first_pair(text@, first, second, place) {
                assert(pair_at(text@, first, second, place));
            }
        }
        return None;
    }
    let last: usize = text.len() - 1;
    let mut index: usize = 0;
    while index < last
        invariant
            last == text@.len() - 1,
            index <= last,
            forall|k: int| 0 <= k < index ==> !pair_at(text@, first, second, k),
        decreases last - index,
    {
        if text[index] == first && text[index + 1] == second {
            return Some(index);
        }
        index = index + 1;
    }
    assert forall|place: int| !first_pair(text@, first, second, place) by {
        if first_pair(text@, first, second, place) {
            assert(pair_at(text@, first, second, place));
        }
    }
    None
}

/// The first place at which two characters stand side by side is one place.
pub proof fn lemma_first_pair_is_unique(
    text: Seq<char>,
    first: char,
    second: char,
    place: int,
    other: int,
)
    requires
        first_pair(text, first, second, place),
        first_pair(text, first, second, other),
    ensures
        place == other,
{
}

/// The move that a text writes.
pub fn parse_move(text: &[char]) -> (r: Result<Move, ParseMoveError>)
    ensures
        r == move_in(text@),
{
    let cut = match find_pair(text, '-', '>') {
        Some(place) => Some(place),
        None => find_pair(text, 't', 'o'),
    };
    let place = match cut {
        Some(place) => place,
        None => return Err(ParseMoveError::ParseMoveError),
    };
    proof {
        assert(first_pair(text@, '-', '>', place as int) || first_pair(
            text@,
            't',
            'o',
            place as int,
        ));
        assert(place + 1 < text@.len());
        assert(text@.len() == text.len());
        let chosen = cut_of(text@).unwrap();
        if exists|at: int| first_pair(text@, '-', '>', at) {
            lemma_first_pair_is_unique(text@, '-', '>', place as int, chosen);
        } else {
            lemma_first_pair_is_unique(text@, 't', 'o', place as int, chosen);
        }
    }
    let before = trim(slice_subrange(text, 0, place), Strip::Space);
    let from = match parse_position(before) {
        Ok(from) => from,
        Err(error) => return Err(error),
    };
    let after = trim(slice_subrange(text, place + 2, text.len()), Strip::Space);
    let to = match parse_position(after) {
        Ok(to) => to,
        Err(error) => return Err(error),
    };
    Ok(Move { from, to })
}

impl Play {
    /// The play that a typed move asks for.
    pub fn new(play: Move) -> (r: Play)
        ensures
            r == (Play { from: (play.from.x, play.from.y), to: (play.to.x, play.to.y) }),
    {
        Play { from: (play.from.x, play.from.y), to: (play.to.x, play.to.y) }
    }
}

/// What the engine makes of a line that a player has typed.
#[derive(Debug)]
pub enum Reply {
    /// The player asked for the plays that can be made: here they are.
    Listing(Vec<Play>),
    /// The play was made, and brought this about.
    Played(GameStateUpdate),
    /// The line writes a move that cannot be made.
    Refused,
    /// The line writes no move.
    NotUnderstood(ParseMoveError),
}

/// The play that a typed move asks for.
pub open spec fn play_of(typed: Move) -> Play {
    Play { from: (typed.from.x, typed.from.y), to: (typed.to.x, typed.to.y) }
}

/// Whether a text is the word that asks for the list of plays.
fn asks_for_plays(text: &[char]) -> (r: bool)
    ensures
        r == (text@ == "enumerate"@),
{
    proof {
        reveal_strlit("enumerate");
    }
    let word = ['e', 'n', 'u', 'm', 'e', 'r', 'a', 't', 'e'];
    if text.len() != 9 {
        return false;
    }
    let mut index: usize = 0;
    while index < 9
        invariant
            index <= 9,
            text@.len() == 9,
            word@ == "enumerate"@,
            forall|k: int| 0 <= k < index ==> text@[k] == #[trigger] word@[k],
        decreases 9 - index,
    {
        if text[index] != word[index] {
            return false;
        }
        index = index + 1;
    }
    assert(text@ =~= "enumerate"@);
    true
}

/// Answers a line that a player has typed, white space at its ends aside.
/// The word `enumerate` is answered with the plays that can be made. Any
/// other line is read as a move: if it writes one, the play is made where
/// the rules allow it and the game's counter has room for it; otherwise the
/// game stays as it is.
pub fn respond(game: &mut GameState, line: &[char]) -> (r: Reply)
    requires
        old(game).well_formed(),
    ensures
        final(game).well_formed(),
        match r {
            Reply::Listing(plays) => {
                &&& trimmed(line@, Strip::Space) == "enumerate"@
                &&& lists_plays(old(game)@, plays@)
                &&& final(game)@ == old(game)@
            },
            Reply::Played(event) => {
                &&& trimmed(line@, Strip::Space) != "enumerate"@
                &&& move_in(trimmed(line@, Strip::Space)) matches Ok(typed)
                &&& legal_play(old(game)@, play_of(typed))
                &&& old(game)@.turn_count < u32::MAX
                &&& final(game)@ == after_play(old(game)@, play_of(typed))
                &&& event == event_of(old(game)@, play_of(typed))
            },
            Reply::Refused => {
                &&& trimmed(line@, Strip::Space) != "enumerate"@
                &&& move_in(trimmed(line@, Strip::Space)) matches Ok(typed)
                &&& (!legal_play(old(game)@, play_of(typed)) || old(game)@.turn_count >= u32::MAX)
                &&& final(game)@ == old(game)@
            },
            Reply::NotUnderstood(error) => {
                &&& trimmed(line@, Strip::Space) != "enumerate"@
                &&& move_in(trimmed(line@, Strip::Space)) == Err::<Move, ParseMoveError>(error)
                &&& final(game)@ == old(game)@
            },
        },
{
    let input = trim(line, Strip::Space);
    if asks_for_plays(input) {
        return Reply::Listing(game.available_plays());
    }
    let typed = match parse_move(input) {
        Ok(typed) => typed,
        Err(error) => return Reply::NotUnderstood(error),
    };
    if game.turn_count() == u32::MAX {
        return Reply::Refused;
    }
    match game.make_play(&Play::new(typed)) {
        Ok(info) => Reply::Played(info),
        Err(_) => Reply::Refused,
    }
}

} // verus!
