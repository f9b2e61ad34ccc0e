//! The two sides as flat enums.

use vstd::prelude::*;

use crate::state::Player;

verus! {

/// The side that has won a game, if any has.
#[derive(Clone, Copy, Debug, PartialEq, Eq, Structural)]
pub enum Winner {
    Defenders,
    Attackers,
    Neither,
}

impl Winner {
    /// The flat form of a game's winner.
    pub fn from(winner: Option<Player>) -> (r: Winner)
        ensures
            r == match winner {
                Some(Player::Attacker) => Winner::Attackers,
                Some(Player::Defender) => Winner::Defenders,
                None => Winner::Neither,
            },
    {
        match winner {
            Some(Player::Attacker) => Winner::Attackers,
            Some(Player::Defender) => Winner::Defenders,
            None => Winner::Neither,
        }
    }
}

/// The side that is to move.
#[derive(Clone, Copy, Debug, PartialEq, Eq, Structural)]
pub enum TurnPlayer {
    DefendersTurn,
    AttackersTurn,
}

impl TurnPlayer {
    /// The flat form of the side to move.
    pub fn from(turn: Player) -> (r: TurnPlayer)
        ensures
            r == match turn {
                Player::Attacker => TurnPlayer::AttackersTurn,
                Player::Defender => TurnPlayer::DefendersTurn,
            },
    {
        match turn {
            Player::Attacker => TurnPlayer::AttackersTurn,
            Player::Defender => TurnPlayer::DefendersTurn,
        }
    }
}

} // verus!
