use vstd::prelude::*;

use crate::coordinate::Coordinate;
use crate::error::QuartoError;
use crate::grid::{empty_grid, grid_cells, grid_clone, grid_get, grid_set, is_square_grid, Grid};
use crate::piece::Piece;
use crate::BOARD_SIZE;

verus! {

/// Number of cells on the board.
pub const N_CELLS: usize = 16;

/// A row of empty slots.
pub fn empty_row<T>() -> (r: [Option<T>; BOARD_SIZE])
    ensures
        forall|i: int| 0 <= i < BOARD_SIZE ==> r[i] is None,
{
    [None, None, None, None]
}

/// The coordinate of cell number `i`, counting in row-major order.
pub open spec fn cell_coordinate(i: int) -> Coordinate {
    Coordinate { row: (i / BOARD_SIZE as int) as usize, column: (i % BOARD_SIZE as int) as usize }
}

/// The key of a coordinate in the board's view.
pub open spec fn key(c: Coordinate) -> (usize, usize) {
    (c.row, c.column)
}

/// Whether a coordinate lies on the board.
pub open spec fn in_bounds(c: Coordinate) -> bool {
    c.row < BOARD_SIZE && c.column < BOARD_SIZE
}

/// The slots of a board, keyed by (row, column).
pub type Cells = Map<(usize, usize), Option<Piece>>;

/// The slot at (row, column).
pub open spec fn cell_at(cells: Cells, row: int, column: int) -> Option<Piece> {
    cells[(row as usize, column as usize)]
}

/// The empty cells among the first `n`, in row-major order.
pub open spec fn empty_upto(cells: Cells, n: int) -> Seq<Coordinate>
    decreases n,
{
    if n <= 0 {
        Seq::empty()
    } else if cells[key(cell_coordinate(n - 1))] is None {
        empty_upto(cells, n - 1).push(cell_coordinate(n - 1))
    } else {
        empty_upto(cells, n - 1)
    }
}

/// The empty cells, in row-major order.
pub open spec fn empty_cells(cells: Cells) -> Seq<Coordinate> {
    empty_upto(cells, N_CELLS as int)
}

/// The number of occupied cells among the first `n`, in row-major order.
pub open spec fn occupied_upto(cells: Cells, n: int) -> nat
    decreases n,
{
    if n <= 0 {
        0
    } else if cells[key(cell_coordinate(n - 1))] is Some {
        occupied_upto(cells, n - 1) + 1
    } else {
        occupied_upto(cells, n - 1)
    }
}

/// The number of occupied cells.
pub open spec fn occupied(cells: Cells) -> nat {
    occupied_upto(cells, N_CELLS as int)
}

/// The row-major number of an in-bounds coordinate.
pub open spec fn cell_number(c: Coordinate) -> int {
    c.row * BOARD_SIZE + c.column
}

/// Among the first `n` cells, each is either empty or occupied; every listed empty
/// cell lies on the board and is empty.
pub proof fn lemma_empty_occupied(cells: Cells, n: int)
    requires
        0 <= n <= N_CELLS,
    ensures
        empty_upto(cells, n).len() + occupied_upto(cells, n) == n,
        forall|k: int|
            0 <= k < empty_upto(cells, n).len() ==> in_bounds(#[trigger] empty_upto(cells, n)[k])
                && cells[key(empty_upto(cells, n)[k])] is None && cell_number(empty_upto(cells, n)[k]) < n,
    decreases n,
{
    if n > 0 {
        lemma_empty_occupied(cells, n - 1);
    }
}

/// Filling one empty in-bounds cell adds one occupied cell and removes one empty cell.
pub proof fn lemma_fill_cell(cells: Cells, c: Coordinate, p: Piece, n: int)
    requires
        0 <= n <= N_CELLS,
        in_bounds(c),
        cells[key(c)] is None,
    ensures
        occupied_upto(cells.insert(key(c), Some(p)), n) == occupied_upto(cells, n) + (if cell_number(c)
            < n {
            1nat
        } else {
            0nat
        }),
        empty_upto(cells.insert(key(c), Some(p)), n).len() + (if cell_number(c) < n {
            1nat
        } else {
            0nat
        }) == empty_upto(cells, n).len(),
    decreases n,
{
    if n > 0 {
        lemma_fill_cell(cells, c, p, n - 1);
        let d = cell_coordinate(n - 1);
        if cell_number(c) == n - 1 {
            assert(key(d) == key(c));
        } else {
            assert(key(d) != key(c));
        }
    }
}

/// A square grid of optional pieces.
pub struct Board {
    pub grid: Grid,
}

impl View for Board {
    type V = Map<(usize, usize), Option<Piece>>;

    open spec fn view(&self) -> Self::V {
        grid_cells(self.grid)
    }
}

impl Board {
    /// The grid holds exactly the BOARD_SIZE x BOARD_SIZE in-bounds cells.
    pub open spec fn wf(&self) -> bool {
        is_square_grid(self@)
    }

    /// The slot at coordinate `c`.
    pub open spec fn cell(&self, c: Coordinate) -> Option<Piece> {
        self@[key(c)]
    }

    /// The empty cells of the board, in row-major order.
    pub open spec fn empty_cells(&self) -> Seq<Coordinate> {
        empty_cells(self@)
    }

    /// An empty board.
    pub fn new() -> (r: Board)
        ensures
            r.wf(),
            forall|c: Coordinate| in_bounds(c) ==> #[trigger] r.cell(c) is None,
    {
        let r = Board { grid: empty_grid() };
        assert forall|c: Coordinate| in_bounds(c) implies #[trigger] r.cell(c) is None by {
            assert(r@.dom().contains(key(c)));
        }
        r
    }

    /// A copy of the board.
    pub fn clone_board(&self) -> (r: Board)
        ensures
            r@ == self@,
    {
        Board { grid: grid_clone(&self.grid) }
    }

    /// The slot at `position`, or `OutOfBounds`.
    pub fn get(&self, position: Coordinate) -> (r: Result<Option<Piece>, QuartoError>)
        requires
            self.wf(),
        ensures
            in_bounds(position) ==> r == Ok::<Option<Piece>, QuartoError>(self.cell(position)),
            !in_bounds(position) ==> r == Err::<Option<Piece>, QuartoError>(QuartoError::OutOfBounds),
    {
        if position.row >= BOARD_SIZE || position.column >= BOARD_SIZE {
            return Err(QuartoError::OutOfBounds);
        }
        match grid_get(&self.grid, position.row, position.column) {
            Some(value) => Ok(value),
            None => Err(QuartoError::OutOfBounds),
        }
    }

    /// The slots of row `row`, left to right, or `OutOfBounds`.
    pub fn get_row(&self, row: usize) -> (r: Result<Vec<Option<Piece>>, QuartoError>)
        requires
            self.wf(),
        ensures
            row < BOARD_SIZE ==> r is Ok && r->Ok_0@ == Seq::new(
                BOARD_SIZE as nat,
                |c: int| self.cell(Coordinate { row, column: c as usize }),
            ),
            row >= BOARD_SIZE ==> r == Err::<Vec<Option<Piece>>, QuartoError>(QuartoError::OutOfBounds),
    {
        if row >= BOARD_SIZE {
            return Err(QuartoError::OutOfBounds);
        }
        let mut items: Vec<Option<Piece>> = Vec::new();
        let mut column: usize = 0;
        while column < BOARD_SIZE
            invariant
                self.wf(),
                row < BOARD_SIZE,
                column <= BOARD_SIZE,
                items@ == Seq::new(column as nat, |c: int| self.cell(Coordinate { row, column: c as usize })),
            decreases BOARD_SIZE - column,
        {
            let value = self.get(Coordinate { row, column });
            items.push(value.unwrap());
            column += 1;
            assert(items@ =~= Seq::new(column as nat, |c: int| self.cell(Coordinate { row, column: c as usize })));
        }
        Ok(items)
    }

    /// The slots of column `column`, top to bottom, or `OutOfBounds`.
    pub fn get_column(&self, column: usize) -> (r: Result<Vec<Option<Piece>>, QuartoError>)
        requires
            self.wf(),
        ensures
            column < BOARD_SIZE ==> r is Ok && r->Ok_0@ == Seq::new(
                BOARD_SIZE as nat,
                |i: int| self.cell(Coordinate { row: i as usize, column }),
            ),
            column >= BOARD_SIZE ==> r == Err::<Vec<Option<Piece>>, QuartoError>(QuartoError::OutOfBounds),
    {
        if column >= BOARD_SIZE {
            return Err(QuartoError::OutOfBounds);
        }
        let mut items: Vec<Option<Piece>> = Vec::new();
        let mut row: usize = 0;
        while row < BOARD_SIZE
            invariant
                self.wf(),
                column < BOARD_SIZE,
                row <= BOARD_SIZE,
                items@ == Seq::new(row as nat, |i: int| self.cell(Coordinate { row: i as usize, column })),
            decreases BOARD_SIZE - row,
        {
            let value = self.get(Coordinate { row, column });
            items.push(value.unwrap());
            row += 1;
            assert(items@ =~= Seq::new(row as nat, |i: int| self.cell(Coordinate { row: i as usize, column })));
        }
        Ok(items)
    }

    /// The slots of the main diagonal, from the top left corner down.
    pub fn get_diagonal(&self) -> (r: Vec<Option<Piece>>)
        requires
            self.wf(),
        ensures
            r@ == Seq::new(
                BOARD_SIZE as nat,
                |n: int| self.cell(Coordinate { row: n as usize, column: n as usize }),
            ),
    {
        let mut items: Vec<Option<Piece>> = Vec::new();
        let mut n: usize = 0;
        while n < BOARD_SIZE
            invariant
                self.wf(),
                n <= BOARD_SIZE,
                items@ == Seq::new(
                    n as nat,
                    |i: int| self.cell(Coordinate { row: i as usize, column: i as usize }),
                ),
            decreases BOARD_SIZE - n,
        {
            let value = self.get(Coordinate { row: n, column: n });
            items.push(value.unwrap());
            n += 1;
            assert(items@ =~= Seq::new(
                n as nat,
                |i: int| self.cell(Coordinate { row: i as usize, column: i as usize }),
            ));
        }
        items
    }

    /// Places `piece` at `position`; refuses an occupied cell or an outside coordinate
    /// and then leaves the board as it was.
    pub fn put(&mut self, piece: Piece, position: Coordinate) -> (r: Result<(), QuartoError>)
        requires
            old(self).wf(),
        ensures
            final(self).wf(),
            !in_bounds(position) ==> r == Err::<(), QuartoError>(QuartoError::OutOfBounds),
            in_bounds(position) && old(self).cell(position) is Some ==> r == Err::<(), QuartoError>(
                QuartoError::Occupied(old(self).cell(position)->Some_0),
            ),
            in_bounds(position) && old(self).cell(position) is None ==> r is Ok,
            r is Ok ==> final(self)@ == old(self)@.insert(key(position), Some(piece)),
            r is Err ==> final(self)@ == old(self)@,
    {
        match self.get(position) {
            Err(e) => Err(e),
            Ok(Some(existing)) => Err(QuartoError::Occupied(existing)),
            Ok(None) => {
                grid_set(&mut self.grid, position.row, position.column, Some(piece));
                proof {
                    assert forall|k: (usize, usize)| #[trigger] self@.dom().contains(k) <==> (k.0
                        < BOARD_SIZE && k.1 < BOARD_SIZE) by {
                        assert(old(self)@.dom().contains(k) <==> (k.0 < BOARD_SIZE && k.1 < BOARD_SIZE));
                    }
                }
                Ok(())
            },
        }
    }

    /// Takes the piece off `position`; refuses an empty cell or an outside coordinate
    /// and then leaves the board as it was.
    pub fn remove(&mut self, position: Coordinate) -> (r: Result<Piece, QuartoError>)
        requires
            old(self).wf(),
        ensures
            final(self).wf(),
            !in_bounds(position) ==> r == Err::<Piece, QuartoError>(QuartoError::OutOfBounds),
            in_bounds(position) && old(self).cell(position) is None ==> r == Err::<Piece, QuartoError>(
                QuartoError::EmptyCell,
            ),
            in_bounds(position) && old(self).cell(position) is Some ==> r == Ok::<Piece, QuartoError>(
                old(self).cell(position)->Some_0,
            ),
            r is Ok ==> final(self)@ == old(self)@.insert(key(position), None),
            r is Err ==> final(self)@ == old(self)@,
    {
        match self.get(position) {
            Err(e) => Err(e),
            Ok(None) => Err(QuartoError::EmptyCell),
            Ok(Some(piece)) => {
                grid_set(&mut self.grid, position.row, position.column, None);
                proof {
                    assert forall|k: (usize, usize)| #[trigger] self@.dom().contains(k) <==> (k.0
                        < BOARD_SIZE && k.1 < BOARD_SIZE) by {
                        assert(old(self)@.dom().contains(k) <==> (k.0 < BOARD_SIZE && k.1 < BOARD_SIZE));
                    }
                }
                Ok(piece)
            },
        }
    }

    /// The empty cells, in row-major order.
    pub fn empty_spaces(&self) -> (r: Vec<Coordinate>)
        requires
            self.wf(),
        ensures
            r@ == self.empty_cells(),
    {
        let mut spaces: Vec<Coordinate> = Vec::new();
        let mut i: usize = 0;
        while i < N_CELLS
            invariant
                self.wf(),
                i <= N_CELLS,
                spaces@ == empty_upto(self@, i as int),
            decreases N_CELLS - i,
        {
            let position = Coordinate { row: i / BOARD_SIZE, column: i % BOARD_SIZE };
            assert(position == cell_coordinate(i as int));
            if self.get(position).unwrap().is_none() {
                spaces.push(position);
            }
            i += 1;
        }
        spaces
    }
}


/// Once a piece is placed on an empty cell, reading that cell gives the piece, and a
/// second placement there is refused as occupied by it; the other cells keep their slots.
pub proof fn law_put_then_get(before: Board, after: Board, p: Piece, c: Coordinate)
    requires
        before.wf(),
        in_bounds(c),
        before.cell(c) is None,
        after@ == before@.insert(key(c), Some(p)),
    ensures
        after.wf(),
        after.cell(c) == Some(p),
        forall|d: Coordinate| in_bounds(d) && d != c ==> #[trigger] after.cell(d) == before.cell(d),
{
    assert forall|k: (usize, usize)| #[trigger] after@.dom().contains(k) <==> (k.0 < BOARD_SIZE
        && k.1 < BOARD_SIZE) by {
        assert(before@.dom().contains(k) <==> (k.0 < BOARD_SIZE && k.1 < BOARD_SIZE));
    }
}

/// A fresh board lists all N_CELLS cells as empty.
pub proof fn law_fresh_board_empty_spaces(fresh: Board)
    requires
        fresh.wf(),
        forall|d: Coordinate| in_bounds(d) ==> #[trigger] fresh.cell(d) is None,
    ensures
        fresh.empty_cells().len() == N_CELLS,
{
    lemma_empty_occupied(fresh@, N_CELLS as int);
    assert forall|n: int| 0 <= n <= N_CELLS implies occupied_upto(fresh@, n) == 0 by {
        lemma_no_occupied(fresh, n);
    }
}

/// With no piece on the board, no cell among the first `n` is occupied.
proof fn lemma_no_occupied(fresh: Board, n: int)
    requires
        0 <= n <= N_CELLS,
        forall|d: Coordinate| in_bounds(d) ==> #[trigger] fresh.cell(d) is None,
    ensures
        occupied_upto(fresh@, n) == 0,
    decreases n,
{
    if n > 0 {
        lemma_no_occupied(fresh, n - 1);
        assert(fresh.cell(cell_coordinate(n - 1)) is None);
    }
}

/// Each placement on an empty cell removes exactly that cell from the listed empty
/// cells, and the listed cells are all empty: after `k` placements on a fresh board,
/// N_CELLS - `k` cells are listed, none of them occupied.
pub proof fn law_put_shrinks_empty_spaces(before: Board, after: Board, p: Piece, c: Coordinate)
    requires
        before.wf(),
        in_bounds(c),
        before.cell(c) is None,
        after@ == before@.insert(key(c), Some(p)),
    ensures
        after.empty_cells().len() + 1 == before.empty_cells().len(),
        !after.empty_cells().contains(c),
        forall|k: int|
            0 <= k < after.empty_cells().len() ==> after.cell(#[trigger] after.empty_cells()[k]) is None,
{
    lemma_fill_cell(before@, c, p, N_CELLS as int);
    lemma_empty_occupied(after@, N_CELLS as int);
}


/// Every empty in-bounds cell among the first `n` is listed.
proof fn lemma_empty_listed(cells: Cells, c: Coordinate, n: int)
    requires
        0 <= n <= N_CELLS,
        in_bounds(c),
        cells[key(c)] is None,
        cell_number(c) < n,
    ensures
        empty_upto(cells, n).contains(c),
    decreases n,
{
    if cell_number(c) == n - 1 {
        assert(cell_coordinate(n - 1) == c);
        assert(empty_upto(cells, n).last() == c);
    } else {
        lemma_empty_listed(cells, c, n - 1);
        let k = choose|k: int| 0 <= k < empty_upto(cells, n - 1).len() && #[trigger] empty_upto(cells, n - 1)[k] == c;
        assert(empty_upto(cells, n)[k] == c);
    }
}

/// The listed empty cells are exactly the empty cells of the board, and together with
/// the occupied cells they number N_CELLS.
pub proof fn law_empty_spaces_exact(b: Board)
    requires
        b.wf(),
    ensures
        b.empty_cells().len() + occupied(b@) == N_CELLS,
        forall|c: Coordinate| #[trigger] b.empty_cells().contains(c) <==> (in_bounds(c) && b.cell(c) is None),
{
    lemma_empty_occupied(b@, N_CELLS as int);
    assert forall|c: Coordinate| #[trigger] b.empty_cells().contains(c) <==> (in_bounds(c) && b.cell(c) is None) by {
        if in_bounds(c) && b.cell(c) is None {
            lemma_empty_listed(b@, c, N_CELLS as int);
        }
    }
}

} // verus!
