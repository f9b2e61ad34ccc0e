//! The game itself: whose turn it is, what a play does, who has won.

use easy_ml::matrices::Matrix;
use vstd::prelude::*;
use vstd::std_specs::cmp::PartialEqSpecImpl;

use crate::board::{
    direction, in_range, neighbour, on_board, shifted, tile_at, Board, Direction, Position, SIDE,
};
use crate::captures::{lemma_capture_round, one_side};
use crate::grid::{is_square, matrix_get, matrix_rows, matrix_size};
use crate::laws::{lemma_live_below_bound, lemma_play_keeps_sound, lemma_play_passes_on};
use crate::listing::{
    lemma_all_listed, lemma_blocked_beyond, lemma_none_beyond, lemma_none_from,
    lemma_square_listed,
};
use crate::piece::Tile::{Attacker as A, Defender as D, Empty as E, King as K};
use crate::piece::{piece_of, Piece, Tile};
use crate::rules::{
    after_captures, after_play, capture_event, captures, clear_path, closed_in, direction_index,
    event_of, fallen, flanked, hostile, king_escaped, legal_play, lemma_path_is_run,
    lemma_rank_tells, lists_below, lists_plays, may_pass, may_stop, merged, movable,
    on_run, one_king, open_run, other_side, owner_of, passed_on, play_rank, rank_base, reach,
    side_by_side, sole_king, sound, stuck, surrounded, tile_owner, GameView,
};

verus! {

/// One of the two sides.
#[derive(Clone, Copy, Debug, PartialEq, Eq, Structural)]
pub enum Player {
    Defender,
    Attacker,
}

/// An intended move of the piece on `from` to the square `to`.
#[derive(Clone, Copy, Debug)]
pub struct Play {
    pub from: Position,
    pub to: Position,
}

impl PartialEq for Play {
    fn eq(&self, other: &Play) -> (r: bool) {
        self.from.0 == other.from.0 && self.from.1 == other.from.1 && self.to.0 == other.to.0
            && self.to.1 == other.to.1
    }
}

impl Eq for Play {

}

impl PartialEqSpecImpl for Play {
    open spec fn obeys_eq_spec() -> bool {
        true
    }

    open spec fn eq_spec(&self, other: &Play) -> bool {
        *self == *other
    }
}

/// The most significant thing that one play brought about.
#[derive(Clone, Copy, Debug, PartialEq, Eq, Structural)]
pub enum GameStateUpdate {
    DefenderWin,
    AttackerWin,
    /// Defenders captured a piece.
    DefenderCapture,
    /// Attackers captured a piece.
    AttackerCapture,
    Nothing,
}

/// The answer to a play that the rules do not allow.
#[derive(Clone, Copy, Debug, PartialEq, Eq, Structural)]
pub struct IllegalPlay;

impl Player {
    /// Whether a piece belongs to this side.
    pub fn owns(&self, piece: Piece) -> (r: bool)
        ensures
            r == (owner_of(piece) == *self),
    {
        match self {
            Player::Defender => !matches!(piece, Piece::Attacker),
            Player::Attacker => matches!(piece, Piece::Attacker),
        }
    }

    /// The side that moves after this one.
    pub fn next(&self) -> (r: Player)
        ensures
            r == other_side(*self),
    {
        match self {
            Player::Defender => Player::Attacker,
            Player::Attacker => Player::Defender,
        }
    }

    /// The colour that this side plays.
    pub fn colour(&self) -> (r: &'static str)
        ensures
            r@ == match *self {
                Player::Defender => "White"@,
                Player::Attacker => "Red"@,
            },
    {
        match self {
            Player::Defender => "White",
            Player::Attacker => "Red",
        }
    }
}

impl Piece {
    /// The side that this piece belongs to.
    pub fn owner(&self) -> (r: Player)
        ensures
            r == owner_of(*self),
    {
        match self {
            Piece::Defender | Piece::King => Player::Defender,
            Piece::Attacker => Player::Attacker,
        }
    }
}

impl Tile {
    /// The piece on this tile, if it is not empty.
    pub fn piece(self) -> (r: Option<Piece>)
        ensures
            r == piece_of(self),
    {
        match self {
            Tile::Attacker => Some(Piece::Attacker),
            Tile::Defender => Some(Piece::Defender),
            Tile::King => Some(Piece::King),
            Tile::Empty => None,
        }
    }

    /// The side whose piece stands on this tile, if one does.
    pub fn owner(self) -> (r: Option<Player>)
        ensures
            r == tile_owner(self),
    {
        match self.piece() {
            Some(piece) => Some(piece.owner()),
            None => None,
        }
    }
}

impl GameStateUpdate {
    /// This event followed by a later one: a win stays, anything else gives
    /// way to the later event.
    pub fn update(&self, event: GameStateUpdate) -> (r: GameStateUpdate)
        ensures
            r == merged(*self, event),
    {
        match (self, event) {
            (GameStateUpdate::DefenderWin, _) => GameStateUpdate::DefenderWin,
            (GameStateUpdate::AttackerWin, _) => GameStateUpdate::AttackerWin,
            _ => event,
        }
    }
}

/// A game in progress.
#[derive(Debug)]
pub struct GameState {
    board: Board,
    turn: Player,
    winner: Option<Player>,
    dead: Vec<Piece>,
    turn_count: u32,
    king: Position,
}

/// The tile of the starting position on given coordinates: the king in the
/// centre, the defenders in a diamond round it, the attackers in four groups
/// on the rims.
pub open spec fn starting_tile(x: int, y: int) -> Tile {
    let dx = if x < 5 {
        5 - x
    } else {
        x - 5
    };
    let dy = if y < 5 {
        5 - y
    } else {
        y - 5
    };
    let near = if dx < dy {
        dx
    } else {
        dy
    };
    let far = if dx < dy {
        dy
    } else {
        dx
    };
    if far == 0 {
        Tile::King
    } else if dx + dy <= 2 {
        Tile::Defender
    } else if (far == 5 && near <= 2) || (far == 4 && near == 0) {
        Tile::Attacker
    } else {
        Tile::Empty
    }
}

/// The grid of the starting position.
pub open spec fn starting_grid() -> Seq<Seq<Tile>> {
    Seq::new(SIDE as nat, |y: int| Seq::new(SIDE as nat, |x: int| starting_tile(x, y)))
}

/// The game before the first play: the starting position, defenders to move.
pub open spec fn starting_game() -> GameView {
    GameView {
        grid: starting_grid(),
        turn: Player::Defender,
        winner: None,
        dead: Seq::empty(),
        turn_count: 0,
        king: (5, 5),
    }
}

/// The tiles of the starting position, row by row.
fn starting_tiles() -> (r: Vec<Tile>)
    ensures
        r@.len() == SIDE * SIDE,
        forall|x: int, y: int|
            0 <= x < SIDE && 0 <= y < SIDE ==> r@[y * SIDE + x] == #[trigger] starting_tile(x, y),
{
    let tiles = vec![
        E, E, E, A, A, A, A, A, E, E, E,
        E, E, E, E, E, A, E, E, E, E, E,
        E, E, E, E, E, E, E, E, E, E, E,
        A, E, E, E, E, D, E, E, E, E, A,
        A, E, E, E, D, D, D, E, E, E, A,
        A, A, E, D, D, K, D, D, E, A, A,
        A, E, E, E, D, D, D, E, E, E, A,
        A, E, E, E, E, D, E, E, E, E, A,
        E, E, E, E, E, E, E, E, E, E, E,
        E, E, E, E, E, A, E, E, E, E, E,
        E, E, E, A, A, A, A, A, E, E, E,
    ];
    tiles
}

impl GameState {
    /// The game as the rules see it.
    pub closed spec fn view(&self) -> GameView {
        GameView {
            grid: self.board@,
            turn: self.turn,
            winner: self.winner,
            dead: self.dead@,
            turn_count: self.turn_count as nat,
            king: self.king,
        }
    }

    /// A game is well formed when its board is, its count of plays fits the
    /// counter, and what holds of every game holds of it.
    pub closed spec fn well_formed(&self) -> bool {
        self.board.well_formed() && sound(self@)
    }

    /// A well-formed game is sound and has counted its plays in 32 bits.
    pub proof fn lemma_well_formed(&self)
        requires
            self.well_formed(),
        ensures
            sound(self@),
            self@.turn_count <= u32::MAX,
    {
    }

    /// The starting position, defenders to move.
    pub fn new() -> (r: GameState)
        ensures
            r.well_formed(),
            r@ == starting_game(),
    {
        let tiles = starting_tiles();
        let matrix = crate::grid::matrix_from_flat_row_major((11, 11), tiles);
        proof {
            assert forall|row: int| 0 <= row < SIDE implies (#[trigger] matrix_rows(matrix)[row])
                =~= starting_grid()[row] by {
                assert forall|x: int| 0 <= x < SIDE implies matrix_rows(matrix)[row][x]
                    == starting_tile(x, row) by {
                    assert(tiles@.subrange(row * 11, row * 11 + 11)[x] == tiles@[row * SIDE + x]);
                }
            }
            assert(matrix_rows(matrix) =~= starting_grid());
            lemma_live_below_bound(starting_grid(), (SIDE * SIDE) as nat);
        }
        let board = Board::new(matrix);
        GameState {
            board,
            turn: Player::Defender,
            winner: None,
            dead: Vec::new(),
            turn_count: 0,
            king: (5, 5),
        }
    }

    /// The side that has won, if the game is over.
    pub fn winner(&self) -> (r: Option<Player>)
        ensures
            r == self@.winner,
    {
        self.winner
    }

    /// The side that moves next.
    pub fn turn(&self) -> (r: Player)
        ensures
            r == self@.turn,
    {
        self.turn
    }

    /// The captured pieces, earliest first.
    pub fn dead(&self) -> (r: &Vec<Piece>)
        ensures
            r@ == self@.dead,
    {
        &self.dead
    }

    /// The number of plays made so far.
    pub fn turn_count(&self) -> (r: u32)
        ensures
            r == self@.turn_count,
    {
        self.turn_count
    }

    /// The square of the king: where it stands, or stood when it was
    /// captured.
    pub fn king_position(&self) -> (r: Position)
        ensures
            r == self@.king,
    {
        self.king
    }

    /// The width and the height of the board.
    pub fn size(&self) -> (r: (u8, u8))
        requires
            self.well_formed(),
        ensures
            r == (SIDE, SIDE),
    {
        self.board.size()
    }

    /// Whether a piece stands on a square.
    pub fn is_occupied(&self, position: Position) -> (r: bool)
        requires
            self.well_formed(),
            on_board(position),
        ensures
            r == (tile_at(self@.grid, position) != Tile::Empty),
    {
        match self.board.tile(position) {
            Tile::Empty => false,
            _ => true,
        }
    }

    /// Is this piece allowed to be moved to this position assuming it has a
    /// path to it?
    pub fn can_stop_at(&self, piece: Piece, position: Position) -> (r: bool)
        requires
            self.well_formed(),
            on_board(position),
        ensures
            r == may_stop(self@.grid, piece, position),
    {
        let empty = !self.is_occupied(position);
        match piece {
            Piece::Defender | Piece::Attacker => {
                let castle = self.board.castle();
                empty && !(position.0 == castle.0 && position.1 == castle.1)
                    && !self.board.is_corner(position)
            },
            Piece::King => empty,
        }
    }

    /// Is this piece allowed to pass through this position during a
    /// movement?
    pub fn can_pass_through(&self, piece: Piece, position: Position) -> (r: bool)
        requires
            self.well_formed(),
            on_board(position),
        ensures
            r == may_pass(self@.grid, piece, position),
    {
        let empty = !self.is_occupied(position);
        match piece {
            Piece::Defender | Piece::Attacker => empty && !self.board.is_corner(position),
            Piece::King => empty,
        }
    }

    /// Checks if the path between from and to is unoccupied and a single
    /// horizontal or vertical movement.
    pub fn is_valid_path(&self, from: Position, to: Position) -> (r: bool)
        requires
            self.well_formed(),
            on_board(from),
            on_board(to),
        ensures
            r == clear_path(self@.grid, from, to),
    {
        let (x0, y0) = from;
        let (x1, y1) = to;
        if x0 == x1 && y0 == y1 {
            return false;
        }
        if x0 != x1 && y0 != y1 {
            return false;
        }
        let ghost grid = self@.grid;
        if x0 == x1 {
            let low: u8 = if y0 < y1 {
                y0
            } else {
                y1
            };
            let high: u8 = if y0 < y1 {
                y1
            } else {
                y0
            };
            let mut y: u8 = low;
            while y <= high
                invariant
                    self.well_formed(),
                    grid == self@.grid,
                    low <= y <= high + 1,
                    high < SIDE,
                    x0 < SIDE,
                    from == (x0, y0),
                    to == (x1, y1),
                    x0 == x1,
                    (low == y0 && high == y1) || (low == y1 && high == y0),
                    forall|y2: int| low <= y2 < y && y2 != y0 ==> #[trigger] grid[y2][x0 as int]
                        == Tile::Empty,
                decreases high + 1 - y,
            {
                if y != y0 && self.is_occupied((x0, y)) {
                    assert(on_run(from, to, x0 as int, y as int));
                    return false;
                }
                y = y + 1;
            }
        } else {
            let low: u8 = if x0 < x1 {
                x0
            } else {
                x1
            };
            let high: u8 = if x0 < x1 {
                x1
            } else {
                x0
            };
            let mut x: u8 = low;
            while x <= high
                invariant
                    self.well_formed(),
                    grid == self@.grid,
                    low <= x <= high + 1,
                    high < SIDE,
                    y0 < SIDE,
                    from == (x0, y0),
                    to == (x1, y1),
                    y0 == y1,
                    (low == x0 && high == x1) || (low == x1 && high == x0),
                    forall|x2: int| low <= x2 < x && x2 != x0 ==> #[trigger] grid[y0 as int][x2]
                        == Tile::Empty,
                decreases high + 1 - x,
            {
                if x != x0 && self.is_occupied((x, y0)) {
                    assert(on_run(from, to, x as int, y0 as int));
                    return false;
                }
                x = x + 1;
            }
        }
        true
    }

    /// Whether a side may make a play, whose squares lie on the board.
    fn is_valid_play_of(&self, side: Player, play: &Play) -> (r: bool)
        requires
            self.well_formed(),
            on_board(play.from),
            on_board(play.to),
        ensures
            r == movable(self@.grid, side, *play),
    {
        // Does the piece exist at the starting position?
        let piece = match self.board.tile(play.from).piece() {
            Some(piece) => piece,
            None => return false,
        };
        // Is this a piece we can even own?
        if !side.owns(piece) {
            return false;
        }
        if !self.can_stop_at(piece, play.to) {
            return false;
        }
        self.is_valid_path(play.from, play.to)
    }

    /// Whether the defenders may make a play, whose squares lie on the board.
    pub fn is_valid_defender_play(&self, play: &Play) -> (r: bool)
        requires
            self.well_formed(),
            on_board(play.from),
            on_board(play.to),
        ensures
            r == movable(self@.grid, Player::Defender, *play),
    {
        self.is_valid_play_of(Player::Defender, play)
    }

    /// Whether the attackers may make a play, whose squares lie on the board.
    pub fn is_valid_attacker_play(&self, play: &Play) -> (r: bool)
        requires
            self.well_formed(),
            on_board(play.from),
            on_board(play.to),
        ensures
            r == movable(self@.grid, Player::Attacker, *play),
    {
        self.is_valid_play_of(Player::Attacker, play)
    }

    /// Whether the king stands on a corner.
    pub fn is_defender_victory(&self) -> (r: bool)
        requires
            self.well_formed(),
        ensures
            r == king_escaped(self@.grid),
    {
        self.king_on_corner()
    }

    /// Whether the king stands on a corner of the board.
    fn king_on_corner(&self) -> (r: bool)
        requires
            self.board.well_formed(),
        ensures
            r == king_escaped(self@.grid),
    {
        let (w, h) = self.board.size();
        matches!(self.board.tile((0, 0)), Tile::King) || matches!(
            self.board.tile((w - 1, 0)),
            Tile::King
        ) || matches!(self.board.tile((0, h - 1)), Tile::King) || matches!(
            self.board.tile((w - 1, h - 1)),
            Tile::King
        )
    }

    /// Whether a square counts for a side when a piece is flanked.
    fn is_hostile(&self, side: Player, position: Position) -> (r: bool)
        requires
            self.board.well_formed(),
            on_board(position),
        ensures
            r == hostile(self@.grid, side, position),
    {
        match self.board.tile(position).owner() {
            Some(owner) => match (owner, side) {
                (Player::Attacker, Player::Attacker) => true,
                (Player::Defender, Player::Defender) => true,
                // corner squares count towards a capture
                _ => self.board.is_corner(position),
            },
            None => self.board.is_corner(position),
        }
    }

    /// Whether the square behind `next`, seen from `to`, counts for a side.
    fn is_flanked(&self, to: Position, next: Position, by: Player) -> (r: bool)
        requires
            self.board.well_formed(),
            on_board(to),
            on_board(next),
            to != next,
        ensures
            r == flanked(self@.grid, to, next, by),
    {
        match self.board.step(next, direction(to, next)) {
            Some(position) => self.is_hostile(by, position),
            None => false,
        }
    }

    /// Whether one side of the king is closed.
    fn is_closed_in(&self, side: Option<Position>) -> (r: bool)
        requires
            self.board.well_formed(),
            side matches Some(position) ==> on_board(position),
        ensures
            r == closed_in(self@.grid, side),
    {
        match side {
            Some(position) => self.is_hostile(Player::Attacker, position),
            // edge counts towards a capture for the king
            None => true,
        }
    }

    /// Whether all four sides of a square are closed to the king.
    fn is_surrounded(&self, king: Position) -> (r: bool)
        requires
            self.board.well_formed(),
            on_board(king),
        ensures
            r == surrounded(self@.grid, king),
    {
        let sides = self.board.adjacent(king);
        assert(sides@[0] == neighbour(king, Direction::Left));
        assert(sides@[1] == neighbour(king, Direction::Right));
        assert(sides@[2] == neighbour(king, Direction::Down));
        assert(sides@[3] == neighbour(king, Direction::Up));
        self.is_closed_in(sides[0]) && self.is_closed_in(sides[1]) && self.is_closed_in(sides[2])
            && self.is_closed_in(sides[3])
    }

    /// Whether the piece that has arrived on `to` captures what stands on the
    /// neighbouring square `next`.
    fn is_captured(&self, to: Position, next: Position) -> (r: bool)
        requires
            self.board.well_formed(),
            on_board(to),
            on_board(next),
            to != next,
        ensures
            r == captures(self@.grid, to, next),
    {
        match self.board.tile(to) {
            Tile::Attacker => match self.board.tile(next) {
                // check if other side of defender is an attacker
                Tile::Defender => self.is_flanked(to, next, Player::Attacker),
                // check if all sides of king are attackers
                Tile::King => self.is_surrounded(next),
                _ => false,
            },
            Tile::Defender | Tile::King => match self.board.tile(next) {
                // check if other side of attacker is defender or king
                Tile::Attacker => self.is_flanked(to, next, Player::Defender),
                _ => false,
            },
            Tile::Empty => false,
        }
    }

    /// Resolves the capture on one side of `to`: what stands there leaves the
    /// board and joins the dead if the arrival on `to` captures it.
    fn capture_on(&mut self, to: Position, side: Option<Position>, info: GameStateUpdate) -> (r:
        GameStateUpdate)
        requires
            old(self).board.well_formed(),
            on_board(to),
            side matches Some(next) ==> on_board(next) && side_by_side(to, next),
        ensures
            final(self).board.well_formed(),
            final(self)@.turn == old(self)@.turn,
            final(self)@.winner == old(self)@.winner,
            final(self)@.turn_count == old(self)@.turn_count,
            final(self)@.king == old(self)@.king,
            (final(self)@.grid, final(self)@.dead, r) == one_side(
                old(self)@.grid,
                old(self)@.dead,
                info,
                to,
                side,
            ),
    {
        reveal(one_side);
        let next = match side {
            Some(next) => next,
            None => {
                assert(self.dead@ + Seq::<Piece>::empty() =~= self.dead@);
                return info;
            },
        };
        if !self.is_captured(to, next) {
            assert(self.dead@ + Seq::<Piece>::empty() =~= self.dead@);
            return info;
        }
        let taken = self.board.tile(next);
        if let Some(piece) = taken.piece() {
            self.dead.push(piece);
            assert(self.dead@ =~= old(self).dead@ + seq![piece]);
        }
        self.board.put(next, Tile::Empty);
        let event = match taken {
            Tile::King => GameStateUpdate::AttackerWin,
            Tile::Attacker => GameStateUpdate::DefenderCapture,
            _ => GameStateUpdate::AttackerCapture,
        };
        info.update(event)
    }

    /// Resolves the captures round the square on which a piece has just
    /// arrived, and says what they amount to.
    fn check_capture(&mut self, play: &Play) -> (r: GameStateUpdate)
        requires
            old(self).board.well_formed(),
            on_board(play.to),
        ensures
            final(self).board.well_formed(),
            final(self)@.turn == old(self)@.turn,
            final(self)@.winner == old(self)@.winner,
            final(self)@.turn_count == old(self)@.turn_count,
            final(self)@.king == old(self)@.king,
            final(self)@.dead == old(self)@.dead + fallen(old(self)@.grid, play.to),
            final(self)@.grid == after_captures(old(self)@.grid, play.to),
            r == capture_event(old(self)@.grid, play.to),
    {
        let to = play.to;
        let sides = self.board.adjacent(to);
        assert(sides@[0] == neighbour(to, Direction::Left));
        assert(sides@[1] == neighbour(to, Direction::Right));
        assert(sides@[2] == neighbour(to, Direction::Down));
        assert(sides@[3] == neighbour(to, Direction::Up));
        proof {
            lemma_capture_round(self@.grid, self@.dead, to);
        }
        let info = GameStateUpdate::Nothing;
        let info = self.capture_on(to, sides[0], info);
        let info = self.capture_on(to, sides[1], info);
        let info = self.capture_on(to, sides[2], info);
        let info = self.capture_on(to, sides[3], info);
        info
    }

    /// Adds to the list the plays of the piece on `from` in one direction:
    /// it slides outward while the squares let it pass and may end on each
    /// square that lets it stop.
    fn plays_along(&self, from: Position, piece: Piece, direction: Direction, plays: &mut Vec<Play>)
        requires
            self.well_formed(),
            on_board(from),
            self@.winner.is_none(),
            piece_of(tile_at(self@.grid, from)) == Some(piece),
            owner_of(piece) == self@.turn,
            lists_below(self@, old(plays)@, rank_base(from, direction)),
        ensures
            lists_below(self@, final(plays)@, rank_base(from, direction) + SIDE),
    {
        let ghost game = self@;
        let ghost base = rank_base(from, direction);
        let ghost mut steps: int = 0;
        let mut current = from;
        proof {
            assert forall|play: Play| #[trigger]
                legal_play(game, play) && play_rank(play) < base + 1 implies plays@.contains(
                play,
            ) by {
                lemma_path_is_run(game.grid, play.from, play.to);
                if play_rank(play) >= base {
                    lemma_rank_tells(play, from, direction);
                }
            }
        }
        loop
            invariant_except_break
                self.well_formed(),
                game == self@,
                base == rank_base(from, direction),
                on_board(from),
                game.winner.is_none(),
                piece_of(tile_at(game.grid, from)) == Some(piece),
                owner_of(piece) == game.turn,
                0 <= steps < SIDE,
                in_range(shifted(from, direction, steps)),
                current == reach(from, direction, steps),
                open_run(game.grid, from, direction, steps),
                lists_below(game, plays@, base + steps + 1),
            ensures
                lists_below(game, plays@, base + SIDE),
            decreases SIDE - steps,
        {
            let position = match self.board.step(current, direction) {
                Some(position) => position,
                None => {
                    proof {
                        lemma_none_beyond(game, plays@, from, direction, steps);
                    }
                    break ;
                },
            };
            assert(position == reach(from, direction, steps + 1));
            assert(in_range(shifted(from, direction, steps + 1)));
            let stop = self.can_stop_at(piece, position);
            let pass = self.can_pass_through(piece, position);
            let ghost before = plays@;
            if stop {
                plays.push(Play { from, to: position });
            }
            proof {
                lemma_square_listed(game, before, plays@, from, piece, direction, steps);
            }
            if pass {
                current = position;
                proof {
                    steps = steps + 1;
                }
            } else {
                proof {
                    lemma_blocked_beyond(game, plays@, from, piece, direction, steps + 1);
                }
                break ;
            }
        }
    }

    /// Adds to the list the plays of the piece on `from`, direction by
    /// direction.
    fn plays_from(&self, from: Position, piece: Piece, plays: &mut Vec<Play>)
        requires
            self.well_formed(),
            on_board(from),
            self@.winner.is_none(),
            piece_of(tile_at(self@.grid, from)) == Some(piece),
            owner_of(piece) == self@.turn,
            lists_below(self@, old(plays)@, rank_base(from, Direction::Left)),
        ensures
            lists_below(self@, final(plays)@, rank_base(from, Direction::Left) + 4 * SIDE),
    {
        let directions = Direction::directions();
        assert(directions@[0] == Direction::Left);
        assert(directions@[1] == Direction::Up);
        assert(directions@[2] == Direction::Right);
        assert(directions@[3] == Direction::Down);
        let mut index: usize = 0;
        while index < 4
            invariant
                self.well_formed(),
                on_board(from),
                self@.winner.is_none(),
                piece_of(tile_at(self@.grid, from)) == Some(piece),
                owner_of(piece) == self@.turn,
                index <= 4,
                directions@ == seq![
                    Direction::Left,
                    Direction::Up,
                    Direction::Right,
                    Direction::Down,
                ],
                lists_below(self@, plays@, rank_base(from, Direction::Left) + index * SIDE),
            decreases 4 - index,
        {
            let direction = directions[index];
            assert(direction_index(direction) == index);
            assert(rank_base(from, direction) == rank_base(from, Direction::Left) + index * SIDE);
            self.plays_along(from, piece, direction, plays);
            index = index + 1;
        }
    }

    /// The legal plays of the side to move: none once the game is won;
    /// otherwise, for each of its pieces, taken by `x` and then by `y`, and
    /// for each direction, left, up, right and down, every square on which
    /// the piece may end a slide, nearest first.
    pub fn available_plays(&self) -> (plays: Vec<Play>)
        requires
            self.well_formed(),
        ensures
            lists_plays(self@, plays@),
    {
        let mut plays: Vec<Play> = Vec::new();
        if self.winner.is_some() {
            return plays;
        }
        let (w, h) = self.board.size();
        let mut x: u8 = 0;
        while x < w
            invariant
                self.well_formed(),
                self@.winner.is_none(),
                w == SIDE,
                h == SIDE,
                x <= SIDE,
                lists_below(self@, plays@, x * SIDE * 4 * SIDE),
            decreases SIDE - x,
        {
            let mut y: u8 = 0;
            while y < h
                invariant
                    self.well_formed(),
                    self@.winner.is_none(),
                    h == SIDE,
                    x < SIDE,
                    y <= SIDE,
                    lists_below(self@, plays@, (x * SIDE + y) * 4 * SIDE),
                decreases SIDE - y,
            {
                let tile = self.board.tile((x, y));
                assert(rank_base((x, y), Direction::Left) == (x * SIDE + y) * 4 * SIDE);
                match tile.piece() {
                    Some(piece) => {
                        if self.turn.owns(piece) {
                            self.plays_from((x, y), piece, &mut plays);
                        } else {
                            proof {
                                lemma_none_from(self@, plays@, (x, y));
                            }
                        }
                    },
                    None => {
                        proof {
                            lemma_none_from(self@, plays@, (x, y));
                        }
                    },
                }
                y = y + 1;
            }
            x = x + 1;
        }
        proof {
            lemma_all_listed(self@, plays@);
        }
        plays
    }

    /// Makes a play if the rules allow it, and says what it brought about.
    ///
    /// An illegal play is refused and changes nothing, whatever the counter
    /// holds. A legal play moves the piece, takes what it captures off the
    /// board, names the winner if the play ends the game, passes the turn on
    /// unless the king has escaped, and counts the play: for a legal play the
    /// counter must have room.
    pub fn make_play(&mut self, play: &Play) -> (r: Result<GameStateUpdate, IllegalPlay>)
        requires
            old(self).well_formed(),
            legal_play(old(self)@, *play) ==> old(self)@.turn_count < u32::MAX,
        ensures
            final(self).well_formed(),
            r.is_ok() == legal_play(old(self)@, *play),
            r matches Ok(event) ==> final(self)@ == after_play(old(self)@, *play) && event
                == event_of(old(self)@, *play),
            r.is_err() ==> final(self)@ == old(self)@,
    {
        if !self.board.on(play.from) || !self.board.on(play.to) {
            return Err(IllegalPlay);
        }
        if self.winner.is_some() {
            return Err(IllegalPlay);
        }
        let valid = match self.turn {
            Player::Defender => self.is_valid_defender_play(play),
            Player::Attacker => self.is_valid_attacker_play(play),
        };
        if !valid {
            return Err(IllegalPlay);
        }
        let ghost game = self@;
        proof {
            lemma_play_passes_on(game, *play);
            lemma_play_keeps_sound(game, *play);
        }
        if self.king.0 == play.from.0 && self.king.1 == play.from.1 {
            self.king = play.to;
        }
        self.board.swap(play.from, play.to);
        let mut info = self.check_capture(play);
        if self.king_on_corner() {
            info = info.update(GameStateUpdate::DefenderWin);
        } else {
            self.turn = self.turn.next();
            assert(self@ == passed_on(game, *play));
            if !matches!(info, GameStateUpdate::DefenderWin) && !matches!(
                info,
                GameStateUpdate::AttackerWin
            ) {
                let plays = self.available_plays();
                if plays.is_empty() {
                    // give victory to the player that just stopped the other from
                    // being able to make any plays (this could be due to capturing
                    // all the Attacker's pieces or either player having pieces but
                    // being completely boxed in by the other)
                    assert(stuck(self@)) by {
                        assert forall|other: Play| !legal_play(self@, other) by {
                            if legal_play(self@, other) {
                                assert(plays@.contains(other));
                            }
                        }
                    }
                    match self.turn {
                        Player::Defender => info = GameStateUpdate::AttackerWin,
                        Player::Attacker => info = GameStateUpdate::DefenderWin,
                    }
                } else {
                    assert(legal_play(self@, plays@[0]));
                }
            }
        }
        match info {
            GameStateUpdate::DefenderWin => self.winner = Some(Player::Defender),
            GameStateUpdate::AttackerWin => self.winner = Some(Player::Attacker),
            _ => (),
        };
        self.turn_count = self.turn_count + 1;
        assert(info == event_of(game, *play));
        assert(self@ == after_play(game, *play));
        Ok(info)
    }

    /// The tiles of the board in row-major order: row by row, the row of `y`
    /// 0 first, each row by `x`. A game made from a grid gives that grid back.
    pub fn tiles(&self) -> (r: Vec<Tile>)
        requires
            self.well_formed(),
        ensures
            r@.len() == SIDE * SIDE,
            forall|x: int, y: int|
                0 <= x < SIDE && 0 <= y < SIDE ==> r@[y * SIDE + x] == #[trigger] self@.grid[y][x],
    {
        self.board.tiles()
    }

    /// A game that starts from the given tiles with the given side to move.
    /// The tiles must make an 11 by 11 grid that holds exactly one king.
    pub fn from_setup(pieces: Matrix<Tile>, turn: Player) -> (r: GameState)
        requires
            is_square(matrix_rows(pieces), SIDE as int),
            one_king(matrix_rows(pieces)),
        ensures
            r.well_formed(),
            sole_king(matrix_rows(pieces), r@.king),
            r@ == setup_game(matrix_rows(pieces), turn, r@.king),
    {
        let (first, _) = kings_on(&pieces);
        proof {
            let grid = matrix_rows(pieces);
            let king = choose|king: Position| on_board(king) && #[trigger] sole_king(grid, king);
            assert(grid[king.1 as int][king.0 as int] == Tile::King);
            lemma_live_below_bound(grid, (SIDE * SIDE) as nat);
        }
        let king = first.unwrap();
        assert(matrix_rows(pieces)[king.1 as int][king.0 as int] == Tile::King);
        GameState {
            board: Board::new(pieces),
            turn,
            winner: None,
            dead: Vec::new(),
            turn_count: 0,
            king,
        }
    }

    /// A game that starts from the given tiles with the given side to move,
    /// or nothing if the tiles do not make an 11 by 11 grid with exactly one
    /// king.
    pub fn try_from_setup(pieces: Matrix<Tile>, turn: Player) -> (r: Option<GameState>)
        ensures
            r.is_some() == (is_square(matrix_rows(pieces), SIDE as int) && one_king(
                matrix_rows(pieces),
            )),
            r matches Some(game) ==> game.well_formed() && sole_king(
                matrix_rows(pieces),
                game@.king,
            ) && game@ == setup_game(matrix_rows(pieces), turn, game@.king),
    {
        let (rows, columns) = matrix_size(&pieces);
        if rows != 11 || columns != 11 {
            assert(!is_square(matrix_rows(pieces), SIDE as int)) by {
                if matrix_rows(pieces).len() == SIDE {
                    assert(matrix_rows(pieces)[0].len() == columns);
                }
            }
            return None;
        }
        let ghost grid = matrix_rows(pieces);
        let (first, more) = kings_on(&pieces);
        match first {
            Some(king) if !more => {
                assert(sole_king(grid, king));
                Some(GameState::from_setup(pieces, turn))
            },
            Some(king) => {
                assert(!one_king(grid)) by {
                    let other = choose|other: Position|
                        on_board(other) && other != king && tile_at(grid, other) == Tile::King;
                    assert(grid[other.1 as int][other.0 as int] == Tile::King);
                    assert(grid[king.1 as int][king.0 as int] == Tile::King);
                }
                None
            },
            None => {
                assert(!one_king(grid)) by {
                    if one_king(grid) {
                        let king = choose|king: Position|
                            on_board(king) && #[trigger] sole_king(grid, king);
                        assert(grid[king.1 as int][king.0 as int] == Tile::King);
                    }
                }
                None
            },
        }
    }
}

/// A game before its first play, on a given grid.
pub open spec fn setup_game(grid: Seq<Seq<Tile>>, turn: Player, king: Position) -> GameView {
    GameView { grid, turn, winner: None, dead: Seq::empty(), turn_count: 0, king }
}

/// Whether a square comes before given coordinates when the board is read
/// row by row.
pub open spec fn read_before(x1: int, y1: int, x: int, y: int) -> bool {
    y1 < y || (y1 == y && x1 < x)
}

/// The first square that holds a king, reading the board row by row, and
/// whether a later square holds a king too.
fn kings_on(tiles: &Matrix<Tile>) -> (r: (Option<Position>, bool))
    requires
        is_square(matrix_rows(*tiles), SIDE as int),
    ensures
        r.0.is_none() ==> !r.1 && forall|x: int, y: int|
            0 <= x < SIDE && 0 <= y < SIDE ==> #[trigger] matrix_rows(*tiles)[y][x] != Tile::King,
        r.0 matches Some(king) ==> on_board(king) && tile_at(matrix_rows(*tiles), king) == Tile::King,
        r.0 matches Some(king) ==> !r.1 ==> forall|x: int, y: int|
            0 <= x < SIDE && 0 <= y < SIDE && #[trigger] matrix_rows(*tiles)[y][x] == Tile::King ==> x
                == king.0 && y == king.1,
        r.0 matches Some(king) ==> r.1 ==> exists|other: Position|
            on_board(other) && other != king && tile_at(matrix_rows(*tiles), other) == Tile::King,
{
    let mut first: Option<Position> = None;
    let mut more = false;
    let mut y: u8 = 0;
    while y < SIDE
        invariant
            is_square(matrix_rows(*tiles), SIDE as int),
            y <= SIDE,
            first.is_none() ==> !more && forall|x1: int, y1: int|
                0 <= x1 < SIDE && 0 <= y1 < y ==> #[trigger] matrix_rows(*tiles)[y1][x1] != Tile::King,
            first matches Some(king) ==> on_board(king) && tile_at(matrix_rows(*tiles), king) == Tile::King,
            first matches Some(king) ==> king.1 < y,
            first matches Some(king) ==> !more ==> forall|x1: int, y1: int|
                0 <= x1 < SIDE && 0 <= y1 < y && #[trigger] matrix_rows(*tiles)[y1][x1] == Tile::King ==> x1
                    == king.0 && y1 == king.1,
            first matches Some(king) ==> more ==> exists|other: Position|
                on_board(other) && other != king && tile_at(matrix_rows(*tiles), other) == Tile::King,
        decreases SIDE - y,
    {
        let mut x: u8 = 0;
        while x < SIDE
            invariant
                is_square(matrix_rows(*tiles), SIDE as int),
                y < SIDE,
                x <= SIDE,
                first.is_none() ==> !more && forall|x1: int, y1: int|
                    0 <= x1 < SIDE && 0 <= y1 < SIDE && read_before(x1, y1, x as int, y as int)
                        ==> #[trigger] matrix_rows(*tiles)[y1][x1] != Tile::King,
                first matches Some(king) ==> on_board(king) && tile_at(matrix_rows(*tiles), king) == Tile::King,
                first matches Some(king) ==> read_before(
                    king.0 as int,
                    king.1 as int,
                    x as int,
                    y as int,
                ),
                first matches Some(king) ==> !more ==> forall|x1: int, y1: int|
                    0 <= x1 < SIDE && 0 <= y1 < SIDE && read_before(x1, y1, x as int, y as int)
                        && #[trigger] matrix_rows(*tiles)[y1][x1] == Tile::King ==> x1 == king.0 && y1
                        == king.1,
                first matches Some(king) ==> more ==> exists|other: Position|
                    on_board(other) && other != king && tile_at(matrix_rows(*tiles), other) == Tile::King,
            decreases SIDE - x,
        {
            if matches!(matrix_get(tiles, y as usize, x as usize), Tile::King) {
                match first {
                    None => {
                        first = Some((x, y));
                    },
                    Some(king) => {
                        assert(on_board((x, y)) && (x, y) != king && tile_at(matrix_rows(*tiles), (x, y))
                            == Tile::King);
                        more = true;
                    },
                }
            }
            x = x + 1;
        }
        y = y + 1;
    }
    (first, more)
}

impl Clone for GameState {
    fn clone(&self) -> (r: GameState)
        ensures
            r@ == self@,
            r.well_formed() == self.well_formed(),
    {
        let dead = self.dead.clone();
        assert(dead@ =~= self.dead@);
        GameState {
            board: self.board.clone(),
            turn: self.turn,
            winner: self.winner,
            dead,
            turn_count: self.turn_count,
            king: self.king,
        }
    }
}

impl Default for GameState {
    fn default() -> (r: GameState)
        ensures
            r.well_formed(),
            r@ == starting_game(),
    {
        GameState::new()
    }
}

} // verus!
