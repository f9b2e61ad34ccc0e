//! The engine as a foreign caller uses it: flat records in and out, and one
//! call that lets the bot move.

use vstd::prelude::*;
use vstd::std_specs::convert::FromSpecImpl;

use crate::bot::minmax::{chosen_well, min_max_play, SEARCH_DEPTH};
use crate::piece::Piece;
use crate::rules::{after_play, event_of, stuck};
use crate::state::{GameState, GameStateUpdate, Play, Player};

verus! {

/// A flattened representation of a Play, consisting of 4 u8s for a total size
/// of 4 bytes
#[derive(Clone, Copy, Debug, PartialEq, Eq, Structural)]
pub struct FlatPlay {
    pub from_x: u8,
    pub from_y: u8,
    pub to_x: u8,
    pub to_y: u8,
}

/// The flat form of a play.
pub open spec fn flat(play: Play) -> FlatPlay {
    FlatPlay { from_x: play.from.0, from_y: play.from.1, to_x: play.to.0, to_y: play.to.1 }
}

/// The flat form of a captured piece.
pub open spec fn dead_of(piece: Piece) -> Dead {
    match piece {
        Piece::Attacker => Dead::Attacker,
        Piece::Defender => Dead::Defender,
        Piece::King => Dead::King,
    }
}

impl From<Play> for FlatPlay {
    fn from(value: Play) -> (r: FlatPlay) {
        FlatPlay {
            from_x: value.from.0,
            from_y: value.from.1,
            to_x: value.to.0,
            to_y: value.to.1,
        }
    }
}

impl FromSpecImpl<Play> for FlatPlay {
    open spec fn obeys_from_spec() -> bool {
        true
    }

    open spec fn from_spec(value: Play) -> FlatPlay {
        flat(value)
    }
}

impl From<FlatPlay> for Play {
    fn from(value: FlatPlay) -> (r: Play) {
        Play { from: (value.from_x, value.from_y), to: (value.to_x, value.to_y) }
    }
}

impl FromSpecImpl<FlatPlay> for Play {
    open spec fn obeys_from_spec() -> bool {
        true
    }

    open spec fn from_spec(value: FlatPlay) -> Play {
        Play { from: (value.from_x, value.from_y), to: (value.to_x, value.to_y) }
    }
}

/// A play that the rules do not allow.
#[derive(Clone, Copy, Debug, PartialEq, Eq, Structural)]
pub enum InvalidPlayError {
    Illegal,
}

/// No play to make.
#[derive(Clone, Copy, Debug, PartialEq, Eq, Structural)]
pub enum NoPlayError {
    Missing,
}

/// Why the bot made no play.
#[derive(Clone, Copy, Debug, PartialEq, Eq, Structural)]
pub enum PlayError {
    Illegal(InvalidPlayError),
    Missing(NoPlayError),
}

impl InvalidPlayError {
    /// What went wrong, in words.
    pub fn message(&self) -> (r: &'static str)
        ensures
            r@ == "Play is illegal"@,
    {
        "Play is illegal"
    }
}

impl NoPlayError {
    /// What went wrong, in words.
    pub fn message(&self) -> (r: &'static str)
        ensures
            r@ == "No play is available to make"@,
    {
        "No play is available to make"
    }
}

impl PlayError {
    /// What went wrong, in words.
    pub fn message(&self) -> (r: &'static str)
        ensures
            r@ == match *self {
                PlayError::Illegal(_) => "Play is illegal"@,
                PlayError::Missing(_) => "No play is available to make"@,
            },
    {
        match self {
            PlayError::Illegal(error) => error.message(),
            PlayError::Missing(error) => error.message(),
        }
    }
}

/// The side that has won a game, if any has.
#[derive(Clone, Copy, Debug, PartialEq, Eq, Structural)]
pub enum Winner {
    Defenders,
    Attackers,
    Neither,
}

impl From<Option<Player>> for Winner {
    fn from(value: Option<Player>) -> (r: Winner) {
        match value {
            Some(Player::Attacker) => Winner::Attackers,
            Some(Player::Defender) => Winner::Defenders,
            None => Winner::Neither,
        }
    }
}

impl FromSpecImpl<Option<Player>> for Winner {
    open spec fn obeys_from_spec() -> bool {
        true
    }

    open spec fn from_spec(value: Option<Player>) -> Winner {
        match value {
            Some(Player::Attacker) => Winner::Attackers,
            Some(Player::Defender) => Winner::Defenders,
            None => Winner::Neither,
        }
    }
}

/// The side that is to move.
#[derive(Clone, Copy, Debug, PartialEq, Eq, Structural)]
pub enum TurnPlayer {
    Defenders,
    Attackers,
}

impl From<Player> for TurnPlayer {
    fn from(value: Player) -> (r: TurnPlayer) {
        match value {
            Player::Attacker => TurnPlayer::Attackers,
            Player::Defender => TurnPlayer::Defenders,
        }
    }
}

impl FromSpecImpl<Player> for TurnPlayer {
    open spec fn obeys_from_spec() -> bool {
        true
    }

    open spec fn from_spec(value: Player) -> TurnPlayer {
        match value {
            Player::Attacker => TurnPlayer::Attackers,
            Player::Defender => TurnPlayer::Defenders,
        }
    }
}

/// A captured piece.
#[derive(Clone, Copy, Debug, PartialEq, Eq, Structural)]
pub enum Dead {
    Attacker,
    Defender,
    King,
}

impl<'a> From<&'a Piece> for Dead {
    fn from(value: &'a Piece) -> (r: Dead) {
        match value {
            Piece::Attacker => Dead::Attacker,
            Piece::Defender => Dead::Defender,
            Piece::King => Dead::King,
        }
    }
}

impl<'a> FromSpecImpl<&'a Piece> for Dead {
    open spec fn obeys_from_spec() -> bool {
        true
    }

    open spec fn from_spec(value: &'a Piece) -> Dead {
        dead_of(*value)
    }
}

/// The plays of a list as flat records, in the same order.
pub fn flat_plays(plays: &Vec<Play>) -> (r: Vec<FlatPlay>)
    ensures
        r@.len() == plays@.len(),
        forall|i: int| 0 <= i < plays@.len() ==> #[trigger] r@[i] == flat(plays@[i]),
{
    let mut records: Vec<FlatPlay> = Vec::new();
    let mut index: usize = 0;
    while index < plays.len()
        invariant
            index <= plays@.len(),
            records@.len() == index,
            forall|i: int| 0 <= i < index ==> #[trigger] records@[i] == flat(plays@[i]),
        decreases plays@.len() - index,
    {
        records.push(FlatPlay::from(plays[index]));
        index = index + 1;
    }
    records
}

/// The captured pieces of a list in their flat form, in the same order.
pub fn flat_dead(dead: &Vec<Piece>) -> (r: Vec<Dead>)
    ensures
        r@.len() == dead@.len(),
        forall|i: int| 0 <= i < dead@.len() ==> #[trigger] r@[i] == dead_of(dead@[i]),
{
    let mut records: Vec<Dead> = Vec::new();
    let mut index: usize = 0;
    while index < dead.len()
        invariant
            index <= dead@.len(),
            records@.len() == index,
            forall|i: int| 0 <= i < index ==> #[trigger] records@[i] == dead_of(dead@[i]),
        decreases dead@.len() - index,
    {
        records.push(Dead::from(&dead[index]));
        index = index + 1;
    }
    records
}

/// Makes a play with the bot, if legal: the play that the bot chooses is
/// made in the game, and what it brought about is returned. Where the side
/// to move has no play, the game stays as it is.
pub fn make_bot_play(state: &mut GameState) -> (r: Result<GameStateUpdate, PlayError>)
    requires
        old(state).well_formed(),
        old(state)@.winner.is_none() ==> old(state)@.turn_count + SEARCH_DEPTH < u32::MAX,
    ensures
        final(state).well_formed(),
        r.is_err() == stuck(old(state)@),
        r matches Err(error) ==> error == PlayError::Missing(NoPlayError::Missing) && final(state)@
            == old(state)@,
        r matches Ok(event) ==> exists|play: Play|
            #[trigger] chosen_well(old(state)@, play) && final(state)@ == after_play(
                old(state)@,
                play,
            ) && event == event_of(old(state)@, play),
{
    if let Some(play) = min_max_play(state) {
        match state.make_play(&play) {
            Ok(event) => {
                assert(chosen_well(old(state)@, play) && state@ == after_play(old(state)@, play)
                    && event == event_of(old(state)@, play));
                Ok(event)
            },
            Err(_) => Err(PlayError::Illegal(InvalidPlayError::Illegal)),
        }
    } else {
        Err(PlayError::Missing(NoPlayError::Missing))
    }
}

} // verus!
