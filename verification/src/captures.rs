//! How the captures round a square are resolved one side after the other,
//! and why that gives what the rules describe.

use vstd::prelude::*;

use crate::board::{
    direction_between, neighbour, on_board, tile_at, with_tile, Direction, Position, SIDE,
};
use crate::grid::is_square;
use crate::piece::{Piece, Tile};
use crate::rules::{
    after_captures, capture_event, closed_in, fallen, fallen_on, falls, hostile, king_falls,
    merged, side_by_side,
};
use crate::state::{GameStateUpdate, Player};

verus! {

/// The tile on a square after one square of the grid was given a tile.
pub proof fn lemma_tile_put(grid: Seq<Seq<Tile>>, position: Position, tile: Tile, other: Position)
    requires
        is_square(grid, SIDE as int),
        on_board(position),
        on_board(other),
    ensures
        is_square(with_tile(grid, position, tile), SIDE as int),
        tile_at(with_tile(grid, position, tile), other) == if other == position {
            tile
        } else {
            tile_at(grid, other)
        },
{
}

/// The grid with what stands on a side of `to` taken off, if the arrival on
/// `to` captures it.
pub open spec fn cleared(grid: Seq<Seq<Tile>>, to: Position, side: Option<Position>) -> Seq<
    Seq<Tile>,
> {
    if falls(grid, to, side) {
        with_tile(grid, side.unwrap(), Tile::Empty)
    } else {
        grid
    }
}

/// Whether a side of `to` is a square next to it, where the board has one.
pub open spec fn beside(to: Position, side: Option<Position>) -> bool {
    side matches Some(next) ==> on_board(next) && side_by_side(to, next)
}

/// Whether a square counts for a side does not depend on what stands on
/// another square that is emptied, unless a piece of that side stood there.
proof fn lemma_hostile_apart(
    grid: Seq<Seq<Tile>>,
    gone: Position,
    side: Player,
    position: Position,
)
    requires
        is_square(grid, SIDE as int),
        on_board(gone),
        on_board(position),
        position != gone,
    ensures
        hostile(with_tile(grid, gone, Tile::Empty), side, position) == hostile(
            grid,
            side,
            position,
        ),
{
    lemma_tile_put(grid, gone, Tile::Empty, position);
}

/// One side of the king is closed or not whatever stands on a square that
/// is not that side.
proof fn lemma_closed_in_apart(grid: Seq<Seq<Tile>>, gone: Position, side: Option<Position>)
    requires
        is_square(grid, SIDE as int),
        on_board(gone),
        side matches Some(position) ==> on_board(position) && position != gone,
    ensures
        closed_in(with_tile(grid, gone, Tile::Empty), side) == closed_in(grid, side),
{
    if let Some(position) = side {
        lemma_hostile_apart(grid, gone, Player::Attacker, position);
    }
}

/// What the arrival on `to` does to one of its sides does not depend on
/// whether what stood on another of its sides was captured.
pub proof fn lemma_capture_apart(
    grid: Seq<Seq<Tile>>,
    to: Position,
    first: Option<Position>,
    second: Option<Position>,
)
    requires
        is_square(grid, SIDE as int),
        on_board(to),
        beside(to, first),
        beside(to, second),
        first.is_some() && second.is_some() ==> first != second,
    ensures
        is_square(cleared(grid, to, first), SIDE as int),
        falls(cleared(grid, to, first), to, second) == falls(grid, to, second),
        king_falls(cleared(grid, to, first), to, second) == king_falls(grid, to, second),
        fallen_on(cleared(grid, to, first), to, second) == fallen_on(grid, to, second),
        tile_at(cleared(grid, to, first), to) == tile_at(grid, to),
{
    if falls(grid, to, first) && second.is_some() {
        let gone = first.unwrap();
        let next = second.unwrap();
        let after = with_tile(grid, gone, Tile::Empty);
        lemma_tile_put(grid, gone, Tile::Empty, to);
        lemma_tile_put(grid, gone, Tile::Empty, next);
        match neighbour(next, direction_between(to, next)) {
            Some(behind) => {
                lemma_hostile_apart(grid, gone, Player::Attacker, behind);
                lemma_hostile_apart(grid, gone, Player::Defender, behind);
            },
            None => {},
        }
        lemma_closed_in_apart(grid, gone, neighbour(next, Direction::Left));
        lemma_closed_in_apart(grid, gone, neighbour(next, Direction::Right));
        lemma_closed_in_apart(grid, gone, neighbour(next, Direction::Down));
        lemma_closed_in_apart(grid, gone, neighbour(next, Direction::Up));
    } else if falls(grid, to, first) {
        lemma_tile_put(grid, first.unwrap(), Tile::Empty, to);
    }
}

/// Clearing the four sides of `to` one after the other leaves the grid that
/// the rules describe.
pub proof fn lemma_captures_made(
    grid: Seq<Seq<Tile>>,
    to: Position,
    grid1: Seq<Seq<Tile>>,
    grid2: Seq<Seq<Tile>>,
    grid3: Seq<Seq<Tile>>,
    grid4: Seq<Seq<Tile>>,
)
    requires
        is_square(grid, SIDE as int),
        on_board(to),
        grid1 == cleared(grid, to, neighbour(to, Direction::Left)),
        grid2 == if falls(grid, to, neighbour(to, Direction::Right)) {
            with_tile(grid1, neighbour(to, Direction::Right).unwrap(), Tile::Empty)
        } else {
            grid1
        },
        grid3 == if falls(grid, to, neighbour(to, Direction::Down)) {
            with_tile(grid2, neighbour(to, Direction::Down).unwrap(), Tile::Empty)
        } else {
            grid2
        },
        grid4 == if falls(grid, to, neighbour(to, Direction::Up)) {
            with_tile(grid3, neighbour(to, Direction::Up).unwrap(), Tile::Empty)
        } else {
            grid3
        },
    ensures
        grid4 == after_captures(grid, to),
{
    let target = after_captures(grid, to);
    assert(is_square(grid1, SIDE as int));
    assert(is_square(grid2, SIDE as int));
    assert(is_square(grid3, SIDE as int));
    assert(is_square(grid4, SIDE as int));
    assert forall|y: int| 0 <= y < SIDE implies #[trigger] grid4[y] =~= target[y] by {
        assert forall|x: int| 0 <= x < SIDE implies grid4[y][x] == target[y][x] by {
            let here: Position = (x as u8, y as u8);
            assert(side_by_side(to, here) <==> (neighbour(to, Direction::Left) == Some(here)
                || neighbour(to, Direction::Right) == Some(here) || neighbour(
                to,
                Direction::Down,
            ) == Some(here) || neighbour(to, Direction::Up) == Some(here)));
            assert(grid1[y][x] == if neighbour(to, Direction::Left) == Some(here) && falls(
                grid,
                to,
                neighbour(to, Direction::Left),
            ) {
                Tile::Empty
            } else {
                grid[y][x]
            });
            assert(grid2[y][x] == if neighbour(to, Direction::Right) == Some(here) && falls(
                grid,
                to,
                neighbour(to, Direction::Right),
            ) {
                Tile::Empty
            } else {
                grid1[y][x]
            });
            assert(grid3[y][x] == if neighbour(to, Direction::Down) == Some(here) && falls(
                grid,
                to,
                neighbour(to, Direction::Down),
            ) {
                Tile::Empty
            } else {
                grid2[y][x]
            });
            assert(grid4[y][x] == if neighbour(to, Direction::Up) == Some(here) && falls(
                grid,
                to,
                neighbour(to, Direction::Up),
            ) {
                Tile::Empty
            } else {
                grid3[y][x]
            });
        }
    }
    assert(grid4 =~= target);
}

/// The event after what the arrival on `to` does to one of its sides.
pub open spec fn side_event(
    grid: Seq<Seq<Tile>>,
    to: Position,
    side: Option<Position>,
    info: GameStateUpdate,
) -> GameStateUpdate {
    if !falls(grid, to, side) {
        info
    } else if king_falls(grid, to, side) {
        merged(info, GameStateUpdate::AttackerWin)
    } else if tile_at(grid, to) == Tile::Attacker {
        merged(info, GameStateUpdate::AttackerCapture)
    } else {
        merged(info, GameStateUpdate::DefenderCapture)
    }
}

/// The grid, the dead and the event after what the arrival on `to` does to
/// one of its sides.
#[verifier::opaque]
pub open spec fn one_side(
    grid: Seq<Seq<Tile>>,
    dead: Seq<Piece>,
    info: GameStateUpdate,
    to: Position,
    side: Option<Position>,
) -> (Seq<Seq<Tile>>, Seq<Piece>, GameStateUpdate) {
    (cleared(grid, to, side), dead + fallen_on(grid, to, side), side_event(grid, to, side, info))
}

/// Going round the four sides of `to`, left, right, below and above, leaves
/// the grid, the dead and the event that the rules describe.
pub proof fn lemma_capture_round(grid: Seq<Seq<Tile>>, dead: Seq<Piece>, to: Position)
    requires
        is_square(grid, SIDE as int),
        on_board(to),
    ensures
        ({
            let first = one_side(
                grid,
                dead,
                GameStateUpdate::Nothing,
                to,
                neighbour(to, Direction::Left),
            );
            let second = one_side(first.0, first.1, first.2, to, neighbour(to, Direction::Right));
            let third = one_side(second.0, second.1, second.2, to, neighbour(to, Direction::Down));
            let fourth = one_side(third.0, third.1, third.2, to, neighbour(to, Direction::Up));
            &&& fourth.0 == after_captures(grid, to)
            &&& fourth.1 == dead + fallen(grid, to)
            &&& fourth.2 == capture_event(grid, to)
            &&& is_square(first.0, SIDE as int)
            &&& is_square(second.0, SIDE as int)
            &&& is_square(third.0, SIDE as int)
            &&& is_square(fourth.0, SIDE as int)
        }),
{
    reveal(one_side);
    let left = neighbour(to, Direction::Left);
    let right = neighbour(to, Direction::Right);
    let down = neighbour(to, Direction::Down);
    let up = neighbour(to, Direction::Up);
    let grid1 = cleared(grid, to, left);
    lemma_capture_apart(grid, to, left, right);
    lemma_capture_apart(grid, to, left, down);
    lemma_capture_apart(grid, to, left, up);
    let grid2 = cleared(grid1, to, right);
    lemma_capture_apart(grid1, to, right, down);
    lemma_capture_apart(grid1, to, right, up);
    let grid3 = cleared(grid2, to, down);
    lemma_capture_apart(grid2, to, down, up);
    let grid4 = cleared(grid3, to, up);
    lemma_capture_apart(grid3, to, up, None);
    lemma_captures_made(grid, to, grid1, grid2, grid3, grid4);
    assert(dead + fallen_on(grid, to, left) + fallen_on(grid, to, right) + fallen_on(
        grid,
        to,
        down,
    ) + fallen_on(grid, to, up) =~= dead + fallen(grid, to));
}

} // verus!
