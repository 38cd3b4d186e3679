use vstd::prelude::*;

use crate::game::GameResult;
use crate::piece::Piece;

verus! {

/// Why a move or a board operation was refused.
#[derive(Clone, Copy, Debug, PartialEq, Eq)]
pub enum QuartoError {
    /// The coordinate lies outside the board.
    OutOfBounds,
    /// The cell already holds this piece.
    Occupied(Piece),
    /// The cell holds no piece.
    EmptyCell,
    /// The piece is not among the pieces left to choose.
    PieceUnavailable,
    /// The action does not fit the current stage of the turn.
    WrongStage,
    /// The game has ended with this result.
    GameOver(GameResult),
}

} // verus!
