use vstd::prelude::*;

verus! {

/// A (row, column) position on the board.
#[derive(Clone, Copy, Debug, PartialEq, Eq, Hash, Structural)]
pub struct Coordinate {
    pub row: usize,
    pub column: usize,
}

} // verus!
