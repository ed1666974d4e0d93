//! Row-major indexing for a bounded rectangular grid.
//!
//! A grid of `rows` rows and `row_size` columns stores its cells in one
//! sequence, row by row: the cell at `(row, col)` lives at index
//! `row * row_size + col`. The two mappings below are exact inverses on
//! every in-range coordinate pair, and no out-of-range coordinate ever
//! wraps around to the opposite edge.

use vstd::prelude::*;
use vstd::arithmetic::div_mod::lemma_fundamental_div_mod;
use vstd::arithmetic::div_mod::lemma_fundamental_div_mod_converse;

verus! {

/// The row-major index of the cell at `(row, col)` on a grid `row_size`
/// columns wide.
pub open spec fn index_of(row: int, col: int, row_size: int) -> int {
    row * row_size + col
}

/// The row that `index` falls in on a grid `row_size` columns wide.
pub open spec fn row_of(index: int, row_size: int) -> int {
    index / row_size
}

/// The column that `index` falls in on a grid `row_size` columns wide.
pub open spec fn col_of(index: int, row_size: int) -> int {
    index % row_size
}

/// Computes the row-major index of `(row, col)`.
///
/// Callers supply in-range coordinates; the result is their index in the
/// cell sequence.
pub fn get_index(row_size: u8, row: usize, col: usize) -> (index: usize)
    requires
        row_size > 0,
        col < row_size,
        index_of(row as int, col as int, row_size as int) <= usize::MAX,
    ensures
        index == index_of(row as int, col as int, row_size as int),
{
    row * (row_size as usize) + col
}

/// Recovers the `(row, col)` coordinates of a row-major `index`.
pub fn get_xy(index: usize, row_size: u8) -> (xy: (usize, usize))
    requires
        row_size > 0,
    ensures
        xy.0 == row_of(index as int, row_size as int),
        xy.1 == col_of(index as int, row_size as int),
        xy.1 < row_size,
{
    (index / (row_size as usize), index % (row_size as usize))
}

/// Index/coordinate inverse law, one direction: splitting an index into
/// its coordinates and recombining them yields the index back.
pub proof fn lemma_index_coordinates_inverse(index: int, row_size: int)
    requires
        row_size > 0,
        0 <= index,
    ensures
        index_of(row_of(index, row_size), col_of(index, row_size), row_size) == index,
{
    lemma_fundamental_div_mod(index, row_size);
    assert(row_size * (index / row_size) == (index / row_size) * row_size) by (nonlinear_arith);
}

/// Index/coordinate inverse law, the other direction: the index of an
/// in-range coordinate pair maps back to exactly that pair. In
/// particular distinct in-range pairs have distinct indices.
pub proof fn lemma_coordinates_index_inverse(row: int, col: int, row_size: int)
    requires
        row_size > 0,
        0 <= row,
        0 <= col < row_size,
    ensures
        row_of(index_of(row, col, row_size), row_size) == row,
        col_of(index_of(row, col, row_size), row_size) == col,
{
    lemma_fundamental_div_mod_converse(row * row_size + col, row_size, row, col);
}

/// The index of an in-range coordinate pair lies inside the cell
/// sequence of a `rows`-by-`row_size` grid.
pub proof fn lemma_index_in_range(row: int, col: int, row_size: int, rows: int)
    requires
        row_size > 0,
        0 <= row < rows,
        0 <= col < row_size,
    ensures
        0 <= index_of(row, col, row_size) < rows * row_size,
{
    assert(0 <= row * row_size + col < rows * row_size) by (nonlinear_arith)
        requires
            row_size > 0,
            0 <= row < rows,
            0 <= col < row_size,
    ;
}

} // verus!
