//! What can stand on a square of the board.

use vstd::prelude::*;
use vstd::std_specs::convert::FromSpecImpl;
use vstd::std_specs::convert::TryFromSpecImpl;

verus! {

/// The content of one square, emptiness included.
#[derive(Clone, Copy, Debug, PartialEq, Eq, Structural)]
pub enum Tile {
    Empty,
    Attacker,
    Defender,
    King,
}

/// A tile that is not empty.
#[derive(Clone, Copy, Debug, PartialEq, Eq, Structural)]
pub enum Piece {
    Attacker,
    Defender,
    King,
}

/// The tile that shows a piece.
pub open spec fn tile_of(piece: Piece) -> Tile {
    match piece {
        Piece::Attacker => Tile::Attacker,
        Piece::Defender => Tile::Defender,
        Piece::King => Tile::King,
    }
}

/// The piece on a tile, if the tile is not empty.
pub open spec fn piece_of(tile: Tile) -> Option<Piece> {
    match tile {
        Tile::Attacker => Some(Piece::Attacker),
        Tile::Defender => Some(Piece::Defender),
        Tile::King => Some(Piece::King),
        Tile::Empty => None,
    }
}

impl Tile {
    /// The one-letter name of the tile, `_` for an empty square.
    pub fn symbol(&self) -> (r: char)
        ensures
            r == match *self {
                Tile::Empty => '_',
                Tile::Attacker => 'A',
                Tile::Defender => 'D',
                Tile::King => 'K',
            },
    {
        match self {
            Tile::Empty => '_',
            Tile::Attacker => 'A',
            Tile::Defender => 'D',
            Tile::King => 'K',
        }
    }

    /// Whether this tile shows exactly that piece.
    pub fn is_piece(&self, piece: Piece) -> (r: bool)
        ensures
            r == (*self == tile_of(piece)),
    {
        match (self, piece) {
            (Tile::Attacker, Piece::Attacker) => true,
            (Tile::Defender, Piece::Defender) => true,
            (Tile::King, Piece::King) => true,
            _ => false,
        }
    }
}

impl Piece {
    /// The one-letter name of the piece.
    pub fn symbol(&self) -> (r: char)
        ensures
            r == match *self {
                Piece::Attacker => 'A',
                Piece::Defender => 'D',
                Piece::King => 'K',
            },
    {
        match self {
            Piece::Attacker => 'A',
            Piece::Defender => 'D',
            Piece::King => 'K',
        }
    }

    /// Whether that tile shows exactly this piece.
    pub fn is_tile(&self, tile: Tile) -> (r: bool)
        ensures
            r == (tile == tile_of(*self)),
    {
        tile.is_piece(*self)
    }
}

impl From<Piece> for Tile {
    fn from(piece: Piece) -> (r: Tile) {
        match piece {
            Piece::Attacker => Tile::Attacker,
            Piece::Defender => Tile::Defender,
            Piece::King => Tile::King,
        }
    }
}

impl FromSpecImpl<Piece> for Tile {
    open spec fn obeys_from_spec() -> bool {
        true
    }

    open spec fn from_spec(piece: Piece) -> Tile {
        tile_of(piece)
    }
}

impl TryFrom<Tile> for Piece {
    type Error = ();

    fn try_from(tile: Tile) -> (r: Result<Piece, ()>) {
        match tile {
            Tile::Attacker => Ok(Piece::Attacker),
            Tile::Defender => Ok(Piece::Defender),
            Tile::King => Ok(Piece::King),
            Tile::Empty => Err(()),
        }
    }
}

impl TryFromSpecImpl<Tile> for Piece {
    open spec fn obeys_try_from_spec() -> bool {
        true
    }

    open spec fn try_from_spec(tile: Tile) -> Result<Piece, ()> {
        match piece_of(tile) {
            Some(piece) => Ok(piece),
            None => Err(()),
        }
    }
}

/// A tile made from a piece shows that piece again, and is not empty.
pub proof fn law_tile_shows_its_piece(piece: Piece)
    ensures
        piece_of(tile_of(piece)) == Some(piece),
        tile_of(piece) != Tile::Empty,
{
}

} // verus!
