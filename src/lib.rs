use vstd::prelude::*;

pub mod coordinate;
pub mod piece;
pub mod grid;
pub mod error;
pub mod board;
pub mod game;
pub mod minimax;

verus! {

/// Number of cells along each side of the board, and the length of a line.
pub const BOARD_SIZE: usize = 4;

/// Number of boolean attributes that each piece carries.
pub const N_PROPERTIES: usize = 4;

/// Number of distinct pieces: one for each combination of attributes.
pub const N_PIECES: usize = 16;

} // verus!
