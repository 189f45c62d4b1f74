//! Piece types and their material values.

use vstd::prelude::*;

verus! {

/// Scores are signed 64-bit integers, positive when white is ahead.
pub type ScoreType = i64;

/// The six kinds of chess piece.
#[derive(Clone, Copy, PartialEq, Eq, Structural, Debug, Hash)]
pub enum Type {
    Pawn,
    Bishop,
    Knight,
    Rook,
    Queen,
    King,
}

impl Type {
    /// Material value of a piece type.
    pub open spec fn value(self) -> int {
        match self {
            Type::Pawn => 1,
            Type::Bishop => 3,
            Type::Knight => 3,
            Type::Rook => 5,
            Type::Queen => 10,
            Type::King => 1000,
        }
    }

    /// Material value of this piece type.
    pub fn score(&self) -> (s: ScoreType)
        ensures
            s == self.value(),
    {
        match self {
            Type::Pawn => 1,
            Type::Bishop => 3,
            Type::Knight => 3,
            Type::Rook => 5,
            Type::Queen => 10,
            Type::King => 1000,
        }
    }
}

} // verus!
