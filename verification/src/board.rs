//! The board: an 11 by 11 grid of tiles with a castle in its centre, and the
//! geometry of its squares.

use easy_ml::matrices::Matrix;
use vstd::prelude::*;

use crate::grid::{
    is_square, matrix_clone, matrix_row_major, matrix_get, matrix_rows, matrix_set,
    matrix_size,
};
use crate::piece::Tile;

verus! {

/// A square of the board: its `x`, then its `y`.
pub type Position = (u8, u8);

/// The number of squares along each side of the board.
pub const SIDE: u8 = 11;

/// The four ways a piece can move.
#[derive(Clone, Copy, Debug, PartialEq, Eq, Structural)]
pub enum Direction {
    Left,
    Right,
    Up,
    Down,
}

/// Whether a square lies on the board.
pub open spec fn on_board(position: Position) -> bool {
    position.0 < SIDE && position.1 < SIDE
}

/// Whether a square is one of the four corners.
pub open spec fn is_corner_square(position: Position) -> bool {
    (position.0 == 0 || position.0 == SIDE - 1) && (position.1 == 0 || position.1 == SIDE - 1)
}

/// Whether a square lies on the rim of the board.
pub open spec fn is_edge_square(position: Position) -> bool {
    position.0 == 0 || position.1 == 0 || position.0 == SIDE - 1 || position.1 == SIDE - 1
}

/// The castle: the centre square.
pub open spec fn castle_square() -> Position {
    (5, 5)
}

/// The tile on a square of a grid, which is kept row by row, a row per `y`.
pub open spec fn tile_at(grid: Seq<Seq<Tile>>, position: Position) -> Tile {
    grid[position.1 as int][position.0 as int]
}

/// The coordinates `distance` squares away from a square in a direction; they
/// may lie off the board.
pub open spec fn shifted(position: Position, direction: Direction, distance: int) -> (int, int) {
    match direction {
        Direction::Left => (position.0 - distance, position.1 as int),
        Direction::Right => (position.0 + distance, position.1 as int),
        Direction::Up => (position.0 as int, position.1 - distance),
        Direction::Down => (position.0 as int, position.1 + distance),
    }
}

/// Whether coordinates name a square of the board.
pub open spec fn in_range(coordinates: (int, int)) -> bool {
    0 <= coordinates.0 < SIDE && 0 <= coordinates.1 < SIDE
}

/// The square at coordinates that are in range.
pub open spec fn square(coordinates: (int, int)) -> Position {
    (coordinates.0 as u8, coordinates.1 as u8)
}

/// The neighbour of a square in a direction, if the board has one there.
pub open spec fn neighbour(position: Position, direction: Direction) -> Option<Position> {
    if in_range(shifted(position, direction, 1)) {
        Some(square(shifted(position, direction, 1)))
    } else {
        None
    }
}

/// The direction that leads from a square to another one in its row or column.
pub open spec fn direction_between(from: Position, to: Position) -> Direction {
    if from.0 < to.0 {
        Direction::Right
    } else if from.0 > to.0 {
        Direction::Left
    } else if from.1 < to.1 {
        Direction::Down
    } else {
        Direction::Up
    }
}

/// The grid with the tiles of two squares exchanged.
pub open spec fn swapped(grid: Seq<Seq<Tile>>, first: Position, second: Position) -> Seq<
    Seq<Tile>,
> {
    Seq::new(
        SIDE as nat,
        |y: int|
            Seq::new(
                SIDE as nat,
                |x: int|
                    if x == first.0 && y == first.1 {
                        tile_at(grid, second)
                    } else if x == second.0 && y == second.1 {
                        tile_at(grid, first)
                    } else {
                        grid[y][x]
                    },
            ),
    )
}

/// The grid with one square given another tile.
pub open spec fn with_tile(grid: Seq<Seq<Tile>>, position: Position, tile: Tile) -> Seq<
    Seq<Tile>,
> {
    grid.update(position.1 as int, grid[position.1 as int].update(position.0 as int, tile))
}

/// The direction that leads from `from` to `to`. The two squares must differ:
/// between a square and itself lies no direction.
pub fn direction(from: Position, to: Position) -> (r: Direction)
    requires
        from != to,
    ensures
        r == direction_between(from, to),
{
    let (x0, y0) = from;
    let (x1, y1) = to;
    if x0 < x1 {
        Direction::Right
    } else if x0 > x1 {
        Direction::Left
    } else if y0 < y1 {
        Direction::Down
    } else {
        Direction::Up
    }
}

impl Direction {
    /// The four directions, in the order in which plays are listed.
    pub fn directions() -> (r: [Direction; 4])
        ensures
            r@ == seq![Direction::Left, Direction::Up, Direction::Right, Direction::Down],
    {
        let r = [Direction::Left, Direction::Up, Direction::Right, Direction::Down];
        assert(r@ =~= seq![Direction::Left, Direction::Up, Direction::Right, Direction::Down]);
        r
    }
}

/// The grid of tiles and its castle square.
#[derive(Debug)]
pub struct Board {
    board: Matrix<Tile>,
    castle: Position,
}

impl Board {
    /// The rows of the board: the tile on `(x, y)` is `self@[y][x]`.
    pub closed spec fn view(&self) -> Seq<Seq<Tile>> {
        matrix_rows(self.board)
    }

    /// The castle square of this board.
    pub closed spec fn castle_of(&self) -> Position {
        self.castle
    }

    /// A board is well formed when it is 11 by 11 with the castle in its
    /// centre.
    pub open spec fn well_formed(&self) -> bool {
        is_square(self@, SIDE as int) && self.castle_of() == castle_square()
    }

    /// A board with the given tiles and the castle in its centre.
    pub(crate) fn new(tiles: Matrix<Tile>) -> (r: Board)
        requires
            is_square(matrix_rows(tiles), SIDE as int),
        ensures
            r.well_formed(),
            r@ == matrix_rows(tiles),
    {
        Board { board: tiles, castle: (5, 5) }
    }

    /// The width and the height of the board.
    pub fn size(&self) -> (r: (u8, u8))
        requires
            self.well_formed(),
        ensures
            r == (SIDE, SIDE),
    {
        let (w, h) = matrix_size(&self.board);
        assert(self@[0].len() == h);
        (w as u8, h as u8)
    }

    /// The tiles of the board in row-major order: row by row, the row of `y`
    /// 0 first, each row by `x`.
    pub fn tiles(&self) -> (r: Vec<Tile>)
        requires
            self.well_formed(),
        ensures
            r@.len() == SIDE * SIDE,
            forall|x: int, y: int|
                0 <= x < SIDE && 0 <= y < SIDE ==> r@[y * SIDE + x] == #[trigger] self@[y][x],
    {
        let r = matrix_row_major(&self.board);
        assert(self@[0].len() == SIDE);
        r
    }

    /// The castle square.
    pub fn castle(&self) -> (r: Position)
        ensures
            r == self.castle_of(),
    {
        self.castle
    }

    /// The tile on a square of the board.
    pub fn tile(&self, position: Position) -> (r: Tile)
        requires
            self.well_formed(),
            on_board(position),
        ensures
            r == tile_at(self@, position),
    {
        matrix_get(&self.board, position.1 as usize, position.0 as usize)
    }

    /// Puts a tile on a square of the board.
    pub fn put(&mut self, position: Position, tile: Tile)
        requires
            old(self).well_formed(),
            on_board(position),
        ensures
            final(self).well_formed(),
            final(self)@ == with_tile(old(self)@, position, tile),
    {
        matrix_set(&mut self.board, position.1 as usize, position.0 as usize, tile);
    }

    /// Exchanges the tiles of two squares: this is how a piece moves.
    pub fn swap(&mut self, position1: Position, position2: Position)
        requires
            old(self).well_formed(),
            on_board(position1),
            on_board(position2),
        ensures
            final(self).well_formed(),
            final(self)@ == swapped(old(self)@, position1, position2),
    {
        let tmp = self.tile(position1);
        let other = self.tile(position2);
        self.put(position1, other);
        self.put(position2, tmp);
        assert(self@ =~~= swapped(old(self)@, position1, position2));
    }

    /// The neighbours of a square to its left, to its right, below and above
    /// it, each absent where the board ends.
    pub fn adjacent(&self, position: Position) -> (r: [Option<Position>; 4])
        requires
            self.well_formed(),
            on_board(position),
        ensures
            r@ == seq![
                neighbour(position, Direction::Left),
                neighbour(position, Direction::Right),
                neighbour(position, Direction::Down),
                neighbour(position, Direction::Up),
            ],
    {
        let r = [
            self.left(position),
            self.right(position),
            self.down(position),
            self.up(position),
        ];
        assert(r@ =~= seq![
            neighbour(position, Direction::Left),
            neighbour(position, Direction::Right),
            neighbour(position, Direction::Down),
            neighbour(position, Direction::Up),
        ]);
        r
    }

    /// The neighbour to the right of a square.
    pub fn right(&self, position: Position) -> (r: Option<Position>)
        requires
            self.well_formed(),
            on_board(position),
        ensures
            r == neighbour(position, Direction::Right),
    {
        let (x, y) = position;
        if x < self.size().0 - 1 {
            Some((x + 1, y))
        } else {
            None
        }
    }

    /// The neighbour to the left of a square.
    pub fn left(&self, position: Position) -> (r: Option<Position>)
        requires
            self.well_formed(),
            on_board(position),
        ensures
            r == neighbour(position, Direction::Left),
    {
        let (x, y) = position;
        if x > 0 {
            Some((x - 1, y))
        } else {
            None
        }
    }

    /// The neighbour above a square.
    pub fn up(&self, position: Position) -> (r: Option<Position>)
        requires
            self.well_formed(),
            on_board(position),
        ensures
            r == neighbour(position, Direction::Up),
    {
        let (x, y) = position;
        if y > 0 {
            Some((x, y - 1))
        } else {
            None
        }
    }

    /// The neighbour below a square.
    pub fn down(&self, position: Position) -> (r: Option<Position>)
        requires
            self.well_formed(),
            on_board(position),
        ensures
            r == neighbour(position, Direction::Down),
    {
        let (x, y) = position;
        if y < self.size().1 - 1 {
            Some((x, y + 1))
        } else {
            None
        }
    }

    /// One step from a square in a direction, or nothing at the board's end.
    pub fn step(&self, position: Position, direction: Direction) -> (r: Option<Position>)
        requires
            self.well_formed(),
            on_board(position),
        ensures
            r == neighbour(position, direction),
    {
        match direction {
            Direction::Right => self.right(position),
            Direction::Left => self.left(position),
            Direction::Up => self.up(position),
            Direction::Down => self.down(position),
        }
    }

    /// Whether a square lies on the rim of the board.
    pub fn is_edge(&self, position: Position) -> (r: bool)
        requires
            self.well_formed(),
        ensures
            r == is_edge_square(position),
    {
        let (w, h) = self.size();
        let (x, y) = position;
        x == 0 || y == 0 || x == w - 1 || y == h - 1
    }

    /// Whether a square is one of the four corners.
    pub fn is_corner(&self, position: Position) -> (r: bool)
        requires
            self.well_formed(),
        ensures
            r == is_corner_square(position),
    {
        let (w, h) = self.size();
        let (x, y) = position;
        (x == 0 && y == 0) || (x == 0 && y == h - 1) || (x == w - 1 && y == 0) || (x == w - 1 && y
            == h - 1)
    }

    /// Whether a square lies on the board.
    pub fn on(&self, position: Position) -> (r: bool)
        requires
            self.well_formed(),
        ensures
            r == on_board(position),
    {
        let (w, h) = self.size();
        let (x, y) = position;
        x < w && y < h
    }
}

impl Clone for Board {
    fn clone(&self) -> (r: Board)
        ensures
            r@ == self@,
            r.castle_of() == self.castle_of(),
    {
        Board { board: matrix_clone(&self.board), castle: self.castle }
    }
}

} // verus!
