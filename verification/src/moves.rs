//! Moves and their ordering tags.

use vstd::prelude::*;
use vstd::std_specs::cmp::PartialOrdSpecImpl;
use std::cmp::Ordering;
use crate::chess_type::Type;
use crate::utils::{ChessPosition, chesspos_to_index, square_of_text, index_to_chesspos, text_of_square};

verus! {

/// Offsets a white pawn may travel by.
pub const WHITE_PAWN_MOVES: [i8; 4] = [8, 9, 7, 16];

/// Offsets a black pawn may travel by.
pub const BLACK_PAWN_MOVES: [i8; 4] = [-8, -9, -7, -16];

/// Offsets of the eight knight jumps.
pub const KNIGHT_MOVES: [i8; 8] = [17, 15, -15, -17, 10, -6, 6, -10];

/// Offsets of the eight king steps.
pub const KING_MOVES: [i8; 8] = [1, -1, 8, -8, 9, 7, -9, -7];

/// Offsets of the two castling moves of the king.
pub const KING_SPECIAL_MOVES: [i8; 2] = [2, -2];

/// Ordering tag of a move. A move with a higher tag is tried earlier.
#[derive(Clone, Copy, PartialEq, Eq, Structural, Debug, Hash)]
pub enum MoveQuality {
    Principal,
    KillerMove,
    GoodCapture,
    EqualCapture,
    LowCapture,
    Motion,
}

impl MoveQuality {
    /// Position of the tag in the order: 5 for `Principal` down to 0 for `Motion`.
    pub open spec fn rank_spec(self) -> int {
        match self {
            MoveQuality::Principal => 5,
            MoveQuality::KillerMove => 4,
            MoveQuality::GoodCapture => 3,
            MoveQuality::EqualCapture => 2,
            MoveQuality::LowCapture => 1,
            MoveQuality::Motion => 0,
        }
    }

    /// The tag given to a capture of a piece worth `captured` by one worth `piece`.
    pub open spec fn of_capture(piece: int, captured: int) -> MoveQuality {
        if piece < captured {
            MoveQuality::GoodCapture
        } else if piece == captured {
            MoveQuality::EqualCapture
        } else {
            MoveQuality::LowCapture
        }
    }

    /// Position of the tag in the order.
    pub fn rank(&self) -> (r: u8)
        ensures
            r == self.rank_spec(),
    {
        match self {
            MoveQuality::Principal => 5,
            MoveQuality::KillerMove => 4,
            MoveQuality::GoodCapture => 3,
            MoveQuality::EqualCapture => 2,
            MoveQuality::LowCapture => 1,
            MoveQuality::Motion => 0,
        }
    }
}

impl PartialOrd for MoveQuality {
    /// Tags are ordered by their rank: `Principal` is the greatest.
    fn partial_cmp(&self, other: &MoveQuality) -> (r: Option<Ordering>) {
        let a = self.rank();
        let b = other.rank();
        if a < b {
            Some(Ordering::Less)
        } else if a == b {
            Some(Ordering::Equal)
        } else {
            Some(Ordering::Greater)
        }
    }
}

impl PartialOrdSpecImpl for MoveQuality {
    open spec fn obeys_partial_cmp_spec() -> bool {
        true
    }

    open spec fn partial_cmp_spec(&self, other: &MoveQuality) -> Option<Ordering> {
        if self.rank_spec() < other.rank_spec() {
            Some(Ordering::Less)
        } else if self.rank_spec() == other.rank_spec() {
            Some(Ordering::Equal)
        } else {
            Some(Ordering::Greater)
        }
    }
}

impl Default for MoveQuality {
    fn default() -> (q: MoveQuality)
        ensures
            q == MoveQuality::Motion,
    {
        MoveQuality::Motion
    }
}

/// A move of one piece from a square to another.
#[derive(Clone, Copy, Debug)]
pub struct Move {
    pub from: ChessPosition,
    pub to: ChessPosition,
    pub is_white: bool,
    pub quality: MoveQuality,
}

impl PartialEq for Move {
    /// Two moves are the same when they join the same squares.
    fn eq(&self, other: &Move) -> (r: bool) {
        self.from == other.from && self.to == other.to
    }
}

impl Eq for Move {

}

impl PartialOrd for Move {
    /// Moves are ordered by their tags alone.
    fn partial_cmp(&self, other: &Move) -> (r: Option<Ordering>) {
        self.quality.partial_cmp(&other.quality)
    }
}

impl PartialOrdSpecImpl for Move {
    open spec fn obeys_partial_cmp_spec() -> bool {
        true
    }

    open spec fn partial_cmp_spec(&self, other: &Move) -> Option<Ordering> {
        if self.quality.rank_spec() < other.quality.rank_spec() {
            Some(Ordering::Less)
        } else if self.quality.rank_spec() == other.quality.rank_spec() {
            Some(Ordering::Equal)
        } else {
            Some(Ordering::Greater)
        }
    }
}

impl vstd::std_specs::cmp::PartialEqSpecImpl for Move {
    open spec fn obeys_eq_spec() -> bool {
        true
    }

    open spec fn eq_spec(&self, other: &Move) -> bool {
        self.from == other.from && self.to == other.to
    }
}

impl Move {
    /// Both squares of the move are on the board.
    pub open spec fn on_board(self) -> bool {
        0 <= self.from < 64 && 0 <= self.to < 64
    }

    /// The same move under another tag.
    pub open spec fn retagged(self, q: MoveQuality) -> Move {
        Move { from: self.from, to: self.to, is_white: self.is_white, quality: q }
    }

    /// The move is tagged as one of the three classes of capture.
    pub open spec fn capture(self) -> bool {
        self.quality == MoveQuality::GoodCapture || self.quality == MoveQuality::EqualCapture
            || self.quality == MoveQuality::LowCapture
    }

    /// The step that leads from `from` towards `to`: 1 along a rank, 8 along a
    /// file, 9 or 7 along a diagonal, signed by direction, and 0 when the two
    /// squares are joined by none of these.
    pub open spec fn direction(from: int, to: int) -> int {
        let diff = to - from;
        let sign: int = if diff > 0 { 1 } else { -1 };
        if from / 8 == to / 8 {
            sign
        } else if diff % 8 == 0 {
            8 * sign
        } else if diff % 9 == 0 {
            9 * sign
        } else if diff % 7 == 0 {
            7 * sign
        } else {
            0
        }
    }

    /// A quiet move from `from` to `to`.
    pub fn new(from: ChessPosition, to: ChessPosition, is_white: bool) -> (m: Move)
        ensures
            m == (Move { from, to, is_white, quality: MoveQuality::Motion }),
    {
        Move { from, to, is_white, quality: MoveQuality::Motion }
    }

    /// A quiet move between two squares written as text, such as `"e2"` and `"e4"`.
    pub fn from_str(from: &str, to: &str, is_white: bool) -> (m: Move)
        requires
            square_of_text(from@) is Some,
            square_of_text(to@) is Some,
        ensures
            m == (Move {
                from: square_of_text(from@)->0 as i8,
                to: square_of_text(to@)->0 as i8,
                is_white,
                quality: MoveQuality::Motion,
            }),
    {
        let f = chesspos_to_index(from);
        let t = chesspos_to_index(to);
        Move { from: f.unwrap(), to: t.unwrap(), is_white, quality: MoveQuality::Motion }
    }

    /// Replaces the tag of the move.
    pub fn set_quality(&mut self, q: MoveQuality)
        ensures
            *final(self) == old(self).retagged(q),
    {
        self.quality = q;
    }

    /// Tags the move as a capture of `captured` by `piece`, classed by the
    /// material values of the two.
    pub fn set_quality_from_scores(&mut self, piece: Type, captured: Type)
        ensures
            *final(self) == old(self).retagged(MoveQuality::of_capture(piece.value(), captured.value())),
    {
        let p = piece.score();
        let c = captured.score();
        if p < c {
            self.set_quality(MoveQuality::GoodCapture);
        } else if p == c {
            self.set_quality(MoveQuality::EqualCapture);
        } else {
            self.set_quality(MoveQuality::LowCapture);
        }
    }

    /// Whether the move is tagged as a capture.
    pub fn is_capture(&self) -> (r: bool)
        ensures
            r == self.capture(),
    {
        self.quality == MoveQuality::GoodCapture || self.quality == MoveQuality::EqualCapture
            || self.quality == MoveQuality::LowCapture
    }

    /// The step by which to walk from `from` towards `to`.
    pub fn get_direction_increment(&self) -> (r: i8)
        requires
            self.on_board(),
        ensures
            r == Move::direction(self.from as int, self.to as int),
    {
        let diff: i8 = self.to - self.from;
        let dist: i8 = if diff > 0 { diff } else { -diff };
        let remain: i8 = self.from % 8;
        let min: i8 = self.from - remain;
        let max: i8 = self.from + (7 - remain);
        if self.to >= min && self.to <= max {
            if diff > 0 { 1 } else { -1 }
        } else {
            if dist % 8 == 0 {
                if diff > 0 { 8 } else { -8 }
            } else if dist % 9 == 0 {
                if diff > 0 { 9 } else { -9 }
            } else if dist % 7 == 0 {
                if diff > 0 { 7 } else { -7 }
            } else {
                0
            }
        }
    }

    /// The move written as its two squares joined by an arrow, such as `e2->e4`.
    pub fn to_text(&self) -> (s: String)
        requires
            self.on_board(),
        ensures
            s@ == text_of_square(self.from as int) + seq!['-', '>'] + text_of_square(self.to as int),
    {
        let s = index_to_chesspos(self.from);
        let t = index_to_chesspos(self.to);
        proof {
            reveal_strlit("->");
        }
        s.concat("->").concat(t.as_str())
    }
}

} // verus!
