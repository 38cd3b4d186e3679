use vstd::prelude::*;

use ndarray::Array2;

use crate::piece::Piece;
use crate::BOARD_SIZE;

verus! {

/// A BOARD_SIZE x BOARD_SIZE array of board slots, stored in an `ndarray::Array2`.
/// Its contents are seen through `grid_cells`.
#[verifier::external_body]
pub struct Grid {
    cells: Array2<Option<Piece>>,
}

/// The cells of a two-dimensional array of board slots, keyed by (row, column);
/// the key set is exactly the in-bounds indices.
pub uninterp spec fn grid_cells(g: Grid) -> Map<(usize, usize), Option<Piece>>;

/// The set of in-bounds indices of a BOARD_SIZE x BOARD_SIZE array.
pub open spec fn is_square_grid(m: Map<(usize, usize), Option<Piece>>) -> bool {
    forall|k: (usize, usize)|
        #[trigger] m.dom().contains(k) <==> (k.0 < BOARD_SIZE && k.1 < BOARD_SIZE)
}

/// Relies on ndarray's `Array2::from_elem`: an array of the given shape with every
/// element a copy of `None`.
#[verifier::external_body]
pub(crate) fn empty_grid() -> (g: Grid)
    ensures
        is_square_grid(grid_cells(g)),
        forall|k: (usize, usize)| #[trigger] grid_cells(g).dom().contains(k) ==> grid_cells(g)[k] is None,
{
    Grid { cells: Array2::from_elem((BOARD_SIZE, BOARD_SIZE), None) }
}

/// Relies on ndarray's `ArrayBase::get`: the element at (row, column), or `None`
/// when the index is out of bounds.
#[verifier::external_body]
pub(crate) fn grid_get(g: &Grid, row: usize, column: usize) -> (r: Option<Option<Piece>>)
    ensures
        grid_cells(*g).dom().contains((row, column)) ==> r == Some(grid_cells(*g)[(row, column)]),
        !grid_cells(*g).dom().contains((row, column)) ==> r is None,
{
    g.cells.get((row, column)).copied()
}

/// Relies on ndarray's `IndexMut` for `ArrayBase`: writes one in-bounds element and
/// leaves the others as they were.
#[verifier::external_body]
pub(crate) fn grid_set(g: &mut Grid, row: usize, column: usize, value: Option<Piece>)
    requires
        grid_cells(*old(g)).dom().contains((row, column)),
    ensures
        grid_cells(*final(g)) == grid_cells(*old(g)).insert((row, column), value),
{
    g.cells[(row, column)] = value;
}

/// Relies on ndarray's `Clone` for `ArrayBase`: a copy with the same shape and elements.
#[verifier::external_body]
pub(crate) fn grid_clone(g: &Grid) -> (r: Grid)
    ensures
        grid_cells(r) == grid_cells(*g),
{
    Grid { cells: g.cells.clone() }
}

} // verus!
