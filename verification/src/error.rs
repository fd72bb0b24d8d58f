use vstd::prelude::*;

verus! {

/// The ways in which a request to the engine can be refused.
#[derive(Debug, Clone, Copy, PartialEq, Eq, Structural, Hash)]
pub enum ChessError {
    /// The latest move was asked for before any move was made.
    NoMoveAvailable,
    /// A promotion was chosen for a square on which none is pending.
    NotPromoting,
    /// A pawn can only become a queen, a rook, a bishop or a knight.
    InvalidPromotion,
    /// The side has no king on the board.
    KingAbsent,
}

} // verus!
