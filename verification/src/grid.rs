//! The square store of tiles that the board is kept in: `easy_ml`'s `Matrix`,
//! with the few facts about it that the rules rest on.

use easy_ml::matrices::Matrix;
use vstd::prelude::*;

use crate::piece::Tile;

verus! {

/// `easy_ml::matrices::Matrix`, which the proofs cannot look into: all that
/// is known of a matrix is what the functions below say of its rows.
#[verifier::external_type_specification]
#[verifier::external_body]
#[verifier::reject_recursive_types(T)]
pub struct ExMatrix<T>(Matrix<T>);

/// What a matrix of tiles holds: its rows, top row first, each row from its
/// first column on.
pub uninterp spec fn matrix_rows(matrix: Matrix<Tile>) -> Seq<Seq<Tile>>;

/// Whether a grid has `side` rows of `side` tiles each.
pub open spec fn is_square(grid: Seq<Seq<Tile>>, side: int) -> bool {
    &&& grid.len() == side
    &&& forall|row: int| 0 <= row < side ==> (#[trigger] grid[row]).len() == side
}

/// `Matrix::size`: the number of rows, then the number of columns. Every row
/// of a matrix has that many columns.
#[verifier::external_body]
pub(crate) fn matrix_size(matrix: &Matrix<Tile>) -> (size: (usize, usize))
    ensures
        size.0 == matrix_rows(*matrix).len(),
        forall|row: int|
            0 <= row < matrix_rows(*matrix).len() ==> (#[trigger] matrix_rows(*matrix)[row]).len()
                == size.1,
{
    matrix.size()
}

/// `Matrix::get`: a copy of the tile at a row and a column. The call panics
/// outside the matrix, so both indices must lie inside it.
#[verifier::external_body]
pub(crate) fn matrix_get(matrix: &Matrix<Tile>, row: usize, column: usize) -> (tile: Tile)
    requires
        row < matrix_rows(*matrix).len(),
        column < matrix_rows(*matrix)[row as int].len(),
    ensures
        tile == matrix_rows(*matrix)[row as int][column as int],
{
    matrix.get(row, column)
}

/// `Matrix::set`: replaces the tile at a row and a column and leaves every
/// other tile as it was. The call panics outside the matrix.
#[verifier::external_body]
pub(crate) fn matrix_set(matrix: &mut Matrix<Tile>, row: usize, column: usize, tile: Tile)
    requires
        row < matrix_rows(*old(matrix)).len(),
        column < matrix_rows(*old(matrix))[row as int].len(),
    ensures
        matrix_rows(*final(matrix)) == matrix_rows(*old(matrix)).update(
            row as int,
            matrix_rows(*old(matrix))[row as int].update(column as int, tile),
        ),
{
    matrix.set(row, column, tile)
}

/// `Matrix::from_flat_row_major`: a matrix of the given size whose rows are
/// the consecutive runs of `values`. The call panics unless the size matches
/// the number of values and there is at least one value.
#[verifier::external_body]
pub(crate) fn matrix_from_flat_row_major(size: (usize, usize), values: Vec<Tile>) -> (matrix:
    Matrix<Tile>)
    requires
        size.0 * size.1 == values@.len(),
        values@.len() > 0,
    ensures
        matrix_rows(matrix).len() == size.0,
        forall|row: int|
            0 <= row < size.0 ==> (#[trigger] matrix_rows(matrix)[row]) == values@.subrange(
                row * size.1,
                row * size.1 + size.1,
            ),
{
    Matrix::from_flat_row_major(size, values)
}

/// `Matrix::row_major_iter`, collected: the tiles row by row, each row from
/// its first column on.
#[verifier::external_body]
pub(crate) fn matrix_row_major(matrix: &Matrix<Tile>) -> (tiles: Vec<Tile>)
    ensures
        tiles@.len() == matrix_rows(*matrix).len() * column_count(matrix_rows(*matrix)),
        forall|row: int, column: int|
            0 <= row < matrix_rows(*matrix).len() && 0 <= column < column_count(
                matrix_rows(*matrix),
            ) ==> tiles@[row * column_count(matrix_rows(*matrix)) + column]
                == #[trigger] matrix_rows(*matrix)[row][column],
{
    matrix.row_major_iter().collect()
}

/// `Clone::clone` of a matrix: a matrix with the same rows.
#[verifier::external_body]
pub(crate) fn matrix_clone(matrix: &Matrix<Tile>) -> (copy: Matrix<Tile>)
    ensures
        matrix_rows(copy) == matrix_rows(*matrix),
{
    matrix.clone()
}

/// The number of columns of a grid: the length of its first row.
pub open spec fn column_count(grid: Seq<Seq<Tile>>) -> int {
    if grid.len() == 0 {
        0
    } else {
        grid[0].len() as int
    }
}

} // verus!
