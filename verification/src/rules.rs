//! The rules of the game, stated over plain values: which plays are legal,
//! which pieces a play captures, and what the game looks like after it.

use vstd::prelude::*;

use crate::board::{
    castle_square, direction_between, in_range, is_corner_square, neighbour, on_board, shifted,
    square, swapped, tile_at, Direction, Position, SIDE,
};
use crate::grid::is_square;
use crate::piece::{piece_of, Piece, Tile};
use crate::state::{GameStateUpdate, Play, Player};

verus! {

/// A game as the rules see it.
pub struct GameView {
    /// The rows of the board: the tile on `(x, y)` is `grid[y][x]`.
    pub grid: Seq<Seq<Tile>>,
    /// The side that moves next.
    pub turn: Player,
    /// The side that has won, once one has.
    pub winner: Option<Player>,
    /// The captured pieces, earliest first.
    pub dead: Seq<Piece>,
    /// The number of plays made so far.
    pub turn_count: nat,
    /// The square of the king, while it stands.
    pub king: Position,
}

/// The side that a piece belongs to.
pub open spec fn owner_of(piece: Piece) -> Player {
    match piece {
        Piece::Attacker => Player::Attacker,
        Piece::Defender | Piece::King => Player::Defender,
    }
}

/// The side whose piece stands on a tile, if one does.
pub open spec fn tile_owner(tile: Tile) -> Option<Player> {
    match piece_of(tile) {
        Some(piece) => Some(owner_of(piece)),
        None => None,
    }
}

/// The side that moves after a given side.
pub open spec fn other_side(player: Player) -> Player {
    match player {
        Player::Defender => Player::Attacker,
        Player::Attacker => Player::Defender,
    }
}

/// Whether a piece may pass over a square: the square is empty and, unless
/// the piece is the king, no corner.
pub open spec fn may_pass(grid: Seq<Seq<Tile>>, piece: Piece, position: Position) -> bool {
    tile_at(grid, position) == Tile::Empty && (piece == Piece::King || !is_corner_square(
        position,
    ))
}

/// Whether a piece may end its move on a square: the square is empty and,
/// unless the piece is the king, neither a corner nor the castle.
pub open spec fn may_stop(grid: Seq<Seq<Tile>>, piece: Piece, position: Position) -> bool {
    tile_at(grid, position) == Tile::Empty && (piece == Piece::King || (position
        != castle_square() && !is_corner_square(position)))
}

/// Whether coordinates lie on the straight run from `from` to `to`, `from`
/// itself left out and `to` included.
pub open spec fn on_run(from: Position, to: Position, x: int, y: int) -> bool {
    &&& (x != from.0 || y != from.1)
    &&& (from.0 <= x <= to.0 || to.0 <= x <= from.0)
    &&& (from.1 <= y <= to.1 || to.1 <= y <= from.1)
}

/// Whether two distinct squares share a row or a column and every square of
/// the run between them, the second one included, is empty.
pub open spec fn clear_path(grid: Seq<Seq<Tile>>, from: Position, to: Position) -> bool {
    &&& from != to
    &&& (from.0 == to.0 || from.1 == to.1)
    &&& forall|x: int, y: int| on_run(from, to, x, y) ==> #[trigger] grid[y][x] == Tile::Empty
}

/// Whether a side may make a play on a grid: the piece that moves is its
/// own, the piece may stop on the target, and the way there is straight and
/// clear.
pub open spec fn movable(grid: Seq<Seq<Tile>>, side: Player, play: Play) -> bool {
    match piece_of(tile_at(grid, play.from)) {
        Some(piece) => {
            &&& owner_of(piece) == side
            &&& may_stop(grid, piece, play.to)
            &&& clear_path(grid, play.from, play.to)
        },
        None => false,
    }
}

/// Whether a play is legal: the game is still open, both squares lie on the
/// board, and the side to move may make the play.
pub open spec fn legal_play(game: GameView, play: Play) -> bool {
    &&& on_board(play.from)
    &&& on_board(play.to)
    &&& game.winner.is_none()
    &&& movable(game.grid, game.turn, play)
}

/// Whether the side to move has no legal play.
pub open spec fn stuck(game: GameView) -> bool {
    forall|play: Play| !legal_play(game, play)
}

/// Whether a square counts for a side when a piece is flanked: a piece of
/// that side stands on it, or it is a corner.
pub open spec fn hostile(grid: Seq<Seq<Tile>>, side: Player, position: Position) -> bool {
    tile_owner(tile_at(grid, position)) == Some(side) || is_corner_square(position)
}

/// Whether the square behind `next`, seen from `to`, counts for the side `by`.
pub open spec fn flanked(grid: Seq<Seq<Tile>>, to: Position, next: Position, by: Player) -> bool {
    match neighbour(next, direction_between(to, next)) {
        Some(behind) => hostile(grid, by, behind),
        None => false,
    }
}

/// Whether one side of the king is closed: an attacker or a corner is there,
/// or the board ends.
pub open spec fn closed_in(grid: Seq<Seq<Tile>>, side: Option<Position>) -> bool {
    match side {
        Some(position) => hostile(grid, Player::Attacker, position),
        None => true,
    }
}

/// Whether all four sides of a square are closed to the king.
pub open spec fn surrounded(grid: Seq<Seq<Tile>>, king: Position) -> bool {
    &&& closed_in(grid, neighbour(king, Direction::Left))
    &&& closed_in(grid, neighbour(king, Direction::Right))
    &&& closed_in(grid, neighbour(king, Direction::Down))
    &&& closed_in(grid, neighbour(king, Direction::Up))
}

/// Whether the piece that has just arrived on `to` captures what stands on
/// the neighbouring square `next`. An attacker captures a defender that is
/// flanked, and the king when it is surrounded; a defender or the king
/// captures an attacker that is flanked.
pub open spec fn captures(grid: Seq<Seq<Tile>>, to: Position, next: Position) -> bool {
    match tile_at(grid, to) {
        Tile::Attacker => match tile_at(grid, next) {
            Tile::Defender => flanked(grid, to, next, Player::Attacker),
            Tile::King => surrounded(grid, next),
            _ => false,
        },
        Tile::Defender | Tile::King => tile_at(grid, next) == Tile::Attacker && flanked(
            grid,
            to,
            next,
            Player::Defender,
        ),
        Tile::Empty => false,
    }
}

/// Whether the arrival on `to` captures what stands on a side of it.
pub open spec fn falls(grid: Seq<Seq<Tile>>, to: Position, side: Option<Position>) -> bool {
    match side {
        Some(next) => captures(grid, to, next),
        None => false,
    }
}

/// Whether the arrival on `to` captures the king on a side of it.
pub open spec fn king_falls(grid: Seq<Seq<Tile>>, to: Position, side: Option<Position>) -> bool {
    match side {
        Some(next) => tile_at(grid, next) == Tile::King && captures(grid, to, next),
        None => false,
    }
}

/// Whether two squares lie side by side.
pub open spec fn side_by_side(first: Position, second: Position) -> bool {
    ||| (first.1 == second.1 && (first.0 - second.0 == 1 || second.0 - first.0 == 1))
    ||| (first.0 == second.0 && (first.1 - second.1 == 1 || second.1 - first.1 == 1))
}

/// The grid once everything that the arrival on `to` captures has left it.
pub open spec fn after_captures(grid: Seq<Seq<Tile>>, to: Position) -> Seq<Seq<Tile>> {
    Seq::new(
        SIDE as nat,
        |y: int|
            Seq::new(
                SIDE as nat,
                |x: int|
                    if side_by_side(to, (x as u8, y as u8)) && captures(
                        grid,
                        to,
                        (x as u8, y as u8),
                    ) {
                        Tile::Empty
                    } else {
                        grid[y][x]
                    },
            ),
    )
}

/// The piece captured on one side of `to`, as a list of at most one piece.
pub open spec fn fallen_on(grid: Seq<Seq<Tile>>, to: Position, side: Option<Position>) -> Seq<
    Piece,
> {
    match side {
        Some(next) => match piece_of(tile_at(grid, next)) {
            Some(piece) if captures(grid, to, next) => seq![piece],
            _ => Seq::empty(),
        },
        None => Seq::empty(),
    }
}

/// The pieces that the arrival on `to` captures: the one to its left, to its
/// right, below it and above it, in that order.
pub open spec fn fallen(grid: Seq<Seq<Tile>>, to: Position) -> Seq<Piece> {
    fallen_on(grid, to, neighbour(to, Direction::Left)) + fallen_on(
        grid,
        to,
        neighbour(to, Direction::Right),
    ) + fallen_on(grid, to, neighbour(to, Direction::Down)) + fallen_on(
        grid,
        to,
        neighbour(to, Direction::Up),
    )
}

/// Whether the arrival on `to` captures anything.
pub open spec fn any_falls(grid: Seq<Seq<Tile>>, to: Position) -> bool {
    ||| falls(grid, to, neighbour(to, Direction::Left))
    ||| falls(grid, to, neighbour(to, Direction::Right))
    ||| falls(grid, to, neighbour(to, Direction::Down))
    ||| falls(grid, to, neighbour(to, Direction::Up))
}

/// Whether the arrival on `to` captures the king.
pub open spec fn any_king_falls(grid: Seq<Seq<Tile>>, to: Position) -> bool {
    ||| king_falls(grid, to, neighbour(to, Direction::Left))
    ||| king_falls(grid, to, neighbour(to, Direction::Right))
    ||| king_falls(grid, to, neighbour(to, Direction::Down))
    ||| king_falls(grid, to, neighbour(to, Direction::Up))
}

/// What the captures round `to` amount to: the attackers win when the king
/// falls; otherwise a capture is reported for the side that moved.
pub open spec fn capture_event(grid: Seq<Seq<Tile>>, to: Position) -> GameStateUpdate {
    if any_king_falls(grid, to) {
        GameStateUpdate::AttackerWin
    } else if any_falls(grid, to) {
        match tile_at(grid, to) {
            Tile::Attacker => GameStateUpdate::AttackerCapture,
            _ => GameStateUpdate::DefenderCapture,
        }
    } else {
        GameStateUpdate::Nothing
    }
}

/// Whether the king stands on a corner.
pub open spec fn king_escaped(grid: Seq<Seq<Tile>>) -> bool {
    ||| tile_at(grid, (0, 0)) == Tile::King
    ||| tile_at(grid, ((SIDE - 1) as u8, 0)) == Tile::King
    ||| tile_at(grid, (0, (SIDE - 1) as u8)) == Tile::King
    ||| tile_at(grid, ((SIDE - 1) as u8, (SIDE - 1) as u8)) == Tile::King
}

/// Whether an event ends the game.
pub open spec fn is_win(event: GameStateUpdate) -> bool {
    event == GameStateUpdate::DefenderWin || event == GameStateUpdate::AttackerWin
}

/// The winner that an event names, if it ends the game.
pub open spec fn winner_of(event: GameStateUpdate) -> Option<Player> {
    match event {
        GameStateUpdate::DefenderWin => Some(Player::Defender),
        GameStateUpdate::AttackerWin => Some(Player::Attacker),
        _ => None,
    }
}

/// The more significant of an earlier event and a later one: a win stays,
/// anything else gives way to what comes later.
pub open spec fn merged(earlier: GameStateUpdate, later: GameStateUpdate) -> GameStateUpdate {
    match earlier {
        GameStateUpdate::DefenderWin => GameStateUpdate::DefenderWin,
        GameStateUpdate::AttackerWin => GameStateUpdate::AttackerWin,
        _ => later,
    }
}

/// The game after the piece has moved and the captures are made, with the
/// turn passed on and no winner named yet.
pub open spec fn passed_on(game: GameView, play: Play) -> GameView {
    let moved = swapped(game.grid, play.from, play.to);
    GameView {
        grid: after_captures(moved, play.to),
        turn: other_side(game.turn),
        winner: None,
        dead: game.dead + fallen(moved, play.to),
        turn_count: game.turn_count,
        king: if game.king == play.from {
            play.to
        } else {
            game.king
        },
    }
}

/// The event that a legal play produces. The king on a corner is a win for
/// the defenders. Otherwise the captures decide, unless they end nothing and
/// leave the side that moves next without a play: then that side has lost.
pub open spec fn event_of(game: GameView, play: Play) -> GameStateUpdate {
    let next = passed_on(game, play);
    let event = capture_event(swapped(game.grid, play.from, play.to), play.to);
    if king_escaped(next.grid) {
        GameStateUpdate::DefenderWin
    } else if !is_win(event) && stuck(next) {
        match next.turn {
            Player::Defender => GameStateUpdate::AttackerWin,
            Player::Attacker => GameStateUpdate::DefenderWin,
        }
    } else {
        event
    }
}

/// The game after a legal play. The turn passes on unless the king has
/// reached a corner.
pub open spec fn after_play(game: GameView, play: Play) -> GameView {
    let next = passed_on(game, play);
    GameView {
        grid: next.grid,
        turn: if king_escaped(next.grid) {
            game.turn
        } else {
            next.turn
        },
        winner: winner_of(event_of(game, play)),
        dead: next.dead,
        turn_count: game.turn_count + 1,
        king: next.king,
    }
}

/// The number of pieces on the first `count` squares of a grid, read row by
/// row.
pub open spec fn live_below(grid: Seq<Seq<Tile>>, count: nat) -> nat
    decreases count,
{
    if count == 0 {
        0
    } else {
        let index = (count - 1) as int;
        live_below(grid, (count - 1) as nat) + if grid[index / (SIDE as int)][index % (
        SIDE as int)] != Tile::Empty {
            1nat
        } else {
            0nat
        }
    }
}

/// The number of pieces on the board.
pub open spec fn live_count(grid: Seq<Seq<Tile>>) -> nat {
    live_below(grid, (SIDE * SIDE) as nat)
}

/// Whether a grid holds a king on exactly one square.
pub open spec fn one_king(grid: Seq<Seq<Tile>>) -> bool {
    exists|king: Position| on_board(king) && #[trigger] sole_king(grid, king)
}

/// Whether a square holds the king and no other square does.
pub open spec fn sole_king(grid: Seq<Seq<Tile>>, king: Position) -> bool {
    &&& tile_at(grid, king) == Tile::King
    &&& forall|x: int, y: int|
        0 <= x < SIDE && 0 <= y < SIDE && #[trigger] grid[y][x] == Tile::King ==> x == king.0
            && y == king.1
}

/// What holds of every game that the engine produces: the board is 11 by 11,
/// no square but the king's holds a king, the king stands there unless the
/// attackers have won, and the pieces, live and dead, fit on a board.
pub open spec fn sound(game: GameView) -> bool {
    &&& is_square(game.grid, SIDE as int)
    &&& on_board(game.king)
    &&& forall|x: int, y: int|
        0 <= x < SIDE && 0 <= y < SIDE && #[trigger] game.grid[y][x] == Tile::King ==> x
            == game.king.0 && y == game.king.1
    &&& (game.winner != Some(Player::Attacker) ==> tile_at(game.grid, game.king) == Tile::King)
    &&& game.dead.len() + live_count(game.grid) <= SIDE * SIDE
}

/// The place of a direction in the order in which plays are listed: left,
/// up, right, down.
pub open spec fn direction_index(direction: Direction) -> int {
    match direction {
        Direction::Left => 0,
        Direction::Up => 1,
        Direction::Right => 2,
        Direction::Down => 3,
    }
}

/// The number of steps between two squares of one row or column.
pub open spec fn distance(from: Position, to: Position) -> int {
    (if from.0 < to.0 {
        to.0 - from.0
    } else {
        from.0 - to.0
    }) + (if from.1 < to.1 {
        to.1 - from.1
    } else {
        from.1 - to.1
    })
}

/// The rank from which the plays from a square in a direction are counted:
/// squares go by `x`, then by `y`, and each square has its four directions in
/// their order.
pub open spec fn rank_base(from: Position, direction: Direction) -> int {
    ((from.0 * SIDE + from.1) * 4 + direction_index(direction)) * SIDE
}

/// The place of a play in the order in which plays are listed: by the square
/// it starts from, then by its direction, then by its length.
pub open spec fn play_rank(play: Play) -> int {
    rank_base(play.from, direction_between(play.from, play.to)) + distance(play.from, play.to)
}

/// Whether a list holds exactly the legal plays whose rank is below a bound,
/// in the order of their ranks.
pub open spec fn lists_below(game: GameView, plays: Seq<Play>, bound: int) -> bool {
    &&& forall|i: int|
        0 <= i < plays.len() ==> legal_play(game, #[trigger] plays[i]) && play_rank(plays[i])
            < bound
    &&& forall|play: Play|
        #[trigger] legal_play(game, play) && play_rank(play) < bound ==> plays.contains(play)
    &&& forall|i: int, j: int|
        0 <= i < j < plays.len() ==> play_rank(#[trigger] plays[i]) < play_rank(
            #[trigger] plays[j],
        )
}

/// Whether a list holds exactly the legal plays of a game, in the order of
/// their ranks: each legal play once, and nothing else.
pub open spec fn lists_plays(game: GameView, plays: Seq<Play>) -> bool {
    &&& forall|i: int| 0 <= i < plays.len() ==> legal_play(game, #[trigger] plays[i])
    &&& forall|play: Play| #[trigger] legal_play(game, play) ==> plays.contains(play)
    &&& forall|i: int, j: int|
        0 <= i < j < plays.len() ==> play_rank(#[trigger] plays[i]) < play_rank(
            #[trigger] plays[j],
        )
}

/// The square `count` steps from a square in a direction.
pub open spec fn reach(from: Position, direction: Direction, count: int) -> Position {
    square(shifted(from, direction, count))
}

/// Whether the first `count` squares from a square in a direction lie on the
/// board and are empty.
pub open spec fn open_run(grid: Seq<Seq<Tile>>, from: Position, direction: Direction, count: int)
    -> bool {
    forall|j: int|
        1 <= j <= count ==> in_range(#[trigger] shifted(from, direction, j)) && tile_at(
            grid,
            reach(from, direction, j),
        ) == Tile::Empty
}

/// A clear path is a run of empty squares in one direction, as long as the
/// two squares are apart.
pub proof fn lemma_path_is_run(grid: Seq<Seq<Tile>>, from: Position, to: Position)
    requires
        is_square(grid, SIDE as int),
        on_board(from),
        on_board(to),
        clear_path(grid, from, to),
    ensures
        1 <= distance(from, to) < SIDE,
        shifted(from, direction_between(from, to), distance(from, to)) == (
            to.0 as int,
            to.1 as int,
        ),
        reach(from, direction_between(from, to), distance(from, to)) == to,
        open_run(grid, from, direction_between(from, to), distance(from, to)),
{
    let direction = direction_between(from, to);
    let count = distance(from, to);
    assert forall|j: int| 1 <= j <= count implies in_range(
        #[trigger] shifted(from, direction, j),
    ) && tile_at(grid, reach(from, direction, j)) == Tile::Empty by {
        let place = shifted(from, direction, j);
        assert(on_run(from, to, place.0, place.1));
        assert(grid[place.1][place.0] == Tile::Empty);
    }
}

/// A run of empty squares in one direction is a clear path to its last
/// square, which lies in that direction and that far away.
pub proof fn lemma_run_is_path(
    grid: Seq<Seq<Tile>>,
    from: Position,
    direction: Direction,
    count: int,
)
    requires
        is_square(grid, SIDE as int),
        on_board(from),
        1 <= count,
        in_range(shifted(from, direction, count)),
        open_run(grid, from, direction, count),
    ensures
        on_board(reach(from, direction, count)),
        clear_path(grid, from, reach(from, direction, count)),
        direction_between(from, reach(from, direction, count)) == direction,
        distance(from, reach(from, direction, count)) == count,
{
    let to = reach(from, direction, count);
    assert forall|x: int, y: int| on_run(from, to, x, y) implies #[trigger] grid[y][x]
        == Tile::Empty by {
        let j = (if x < from.0 {
            from.0 - x
        } else {
            x - from.0
        }) + (if y < from.1 {
            from.1 - y
        } else {
            y - from.1
        });
        assert(shifted(from, direction, j) == (x, y));
        assert(tile_at(grid, reach(from, direction, j)) == Tile::Empty);
    }
}

/// The rank of a play tells the square it starts from and its direction.
pub proof fn lemma_rank_tells(play: Play, from: Position, direction: Direction)
    requires
        on_board(play.from),
        on_board(from),
        1 <= distance(play.from, play.to) < SIDE,
        rank_base(from, direction) <= play_rank(play) < rank_base(from, direction) + SIDE,
    ensures
        play.from == from,
        direction_between(play.from, play.to) == direction,
        distance(play.from, play.to) == play_rank(play) - rank_base(from, direction),
{
}

} // verus!
