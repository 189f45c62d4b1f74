//! The test that a move asked for from outside obeys the geometry of its
//! piece, and the application of a move that passes it.

use vstd::prelude::*;
use crate::bits::{bit, is_set, group_bits};
use crate::chess_type::Type;
use crate::game::{ChessGame, FLAG_WK_MOVED, FLAG_BK_MOVED};
use crate::moves::Move;

verus! {

broadcast use group_bits;

/// The number of steps of `dir` that lead from `from` to `to`.
pub open spec fn steps_between(from: int, to: int) -> int {
    (to - from) / Move::direction(from, to)
}

/// Where the direction between two squares of the board is defined, a
/// positive number of steps leads from the one to the other.
pub proof fn lemma_direction_reaches(from: int, to: int)
    requires
        0 <= from < 64,
        0 <= to < 64,
        from != to,
        Move::direction(from, to) != 0,
    ensures
        0 < steps_between(from, to) < 64,
        to == from + steps_between(from, to) * Move::direction(from, to),
{
    let d = Move::direction(from, to);
    let diff = to - from;
    if d == 1 || d == -1 {
        assert(diff / d == diff * d);
    } else if d == 8 {
        assert(diff % 8 == 0);
    } else if d == -8 {
        assert(diff % 8 == 0);
        assert(diff / (-8) == -(diff / 8));
    } else if d == 9 {
        assert(diff % 9 == 0);
    } else if d == -9 {
        assert(diff % 9 == 0);
        assert(diff / (-9) == -(diff / 9));
    } else if d == 7 {
        assert(diff % 7 == 0);
    } else {
        assert(diff % 7 == 0);
        assert(diff / (-7) == -(diff / 7));
    }
}

impl ChessGame {
    /// The squares strictly between the two squares of `m`, along the
    /// direction from the one to the other, are all empty. Two squares that
    /// no direction joins have no free path between them.
    pub open spec fn free_path(self, m: Move) -> bool {
        let d = Move::direction(m.from as int, m.to as int);
        &&& d != 0
        &&& forall|k: int|
            0 < k < steps_between(m.from as int, m.to as int) ==> !self.occupied(
                #[trigger] (m.from + k * d),
            )
    }

    /// The move lands on a piece of the colour of the square that it leaves.
    pub open spec fn lands_on_own(self, m: Move) -> bool {
        self.occupied(m.to as int) && self.white_at(m.to as int) == self.white_at(m.from as int)
    }

    /// The move obeys the rules of a pawn's move that this test knows:
    /// never backwards; two squares straight only from the starting rank;
    /// onto a piece only with a change of file; onto an empty square only
    /// straight, by one or two ranks.
    pub open spec fn pawn_move_valid(self, m: Move) -> bool {
        let motion = m.to - m.from;
        if m.is_white && m.from / 8 > m.to / 8 || !m.is_white && m.from / 8 < m.to / 8 {
            false
        } else if motion == 16 && m.from / 8 != 1 {
            false
        } else if motion == -16 && m.from / 8 != 6 {
            false
        } else if self.occupied(m.to as int) {
            m.from % 8 != m.to % 8
        } else if m.from % 8 != m.to % 8 {
            false
        } else {
            motion == 8 || motion == -8 || motion == -16 || motion == 16
        }
    }

    /// The move by two squares is a castling that the position allows: the
    /// king of the side has not moved, a rook stands in the corner, the
    /// squares between king and rook are empty, and the other side attacks
    /// none of them.
    pub open spec fn castling_valid(self, m: Move) -> bool {
        let black = !m.is_white;
        &&& !bit(self.flags, if m.is_white { 0int } else { 1int })
        &&& if m.to - m.from == 2 {
            &&& bit(self.rooks, m.from + 3)
            &&& !self.occupied(m.from + 1)
            &&& !self.occupied(m.from + 2)
            &&& !self.attacked(black, m.from + 1)
            &&& !self.attacked(black, m.from + 2)
        } else {
            &&& bit(self.rooks, m.from - 4)
            &&& !self.occupied(m.from - 1)
            &&& !self.occupied(m.from - 2)
            &&& !self.occupied(m.from - 3)
            &&& !self.attacked(black, m.from - 1)
            &&& !self.attacked(black, m.from - 2)
            &&& !self.attacked(black, m.from - 3)
        }
    }

    /// The move obeys the rules of a king's move that this test knows: a
    /// castling that the position allows, or a change of square by 1, 7, 8
    /// or 9.
    pub open spec fn king_move_valid(self, m: Move) -> bool {
        let motion = m.to - m.from;
        if motion == 2 || motion == -2 {
            self.castling_valid(m)
        } else {
            motion == 1 || motion == -1 || motion == 8 || motion == -8 || motion == 7 || motion
                == -7 || motion == 9 || motion == -9
        }
    }

    /// The test of a bishop's move from file `x1` and rank `y1` to file `x2`
    /// and rank `y2`: a change of square by a multiple of 7 must lead up and
    /// to the left or down and to the right, and otherwise one by a multiple
    /// of 9 up and to the right or down and to the left.
    pub open spec fn bishop_valid(motion: int, x1: int, y1: int, x2: int, y2: int) -> bool {
        if motion % 7 == 0 {
            if motion > 0 {
                x1 > x2 && y1 < y2
            } else {
                x1 < x2 && y1 > y2
            }
        } else if motion % 9 == 0 {
            if motion > 0 {
                x1 < x2 && y1 < y2
            } else {
                x1 > x2 && y1 > y2
            }
        } else {
            false
        }
    }

    /// The test of a rook's move: along the rank, or by a multiple of 8.
    pub open spec fn rook_valid(m: Move) -> bool {
        m.to / 8 == m.from / 8 || (m.to - m.from) % 8 == 0
    }

    /// The test of a knight's move.
    pub open spec fn knight_valid(m: Move) -> bool {
        let motion = m.to - m.from;
        let x1 = m.from % 8;
        let y1 = m.from / 8;
        let x2 = m.to % 8;
        let y2 = m.to / 8;
        if motion == 17 || motion == 10 {
            x2 > x1 && y2 > y1
        } else if motion == 15 || motion == 6 {
            x2 < x1 && y2 > y1
        } else if motion == -10 || motion == -17 {
            x2 < x1 && y2 < y1
        } else if motion == -15 || motion == -6 {
            x2 > x1 && y2 < y1
        } else {
            false
        }
    }

    /// The move is one that a piece of type `t` on its square of departure
    /// may make: it lands on no piece of the same colour, it jumps over
    /// nothing unless the piece is a knight or a king, and it passes the
    /// test of its piece.
    pub open spec fn move_valid_for(self, m: Move, t: Type) -> bool {
        &&& !self.lands_on_own(m)
        &&& (t == Type::Knight || t == Type::King || self.free_path(m))
        &&& match t {
            Type::Pawn => self.pawn_move_valid(m),
            Type::Bishop => ChessGame::bishop_valid(
                m.to - m.from,
                (m.from % 8) as int,
                (m.from / 8) as int,
                (m.to % 8) as int,
                (m.to / 8) as int,
            ),
            Type::Rook => ChessGame::rook_valid(m),
            Type::Queen => ChessGame::bishop_valid(
                m.to - m.from,
                (m.from % 8) as int,
                (m.from / 8) as int,
                (m.to % 8) as int,
                (m.to / 8) as int,
            ) || ChessGame::rook_valid(m),
            Type::Knight => ChessGame::knight_valid(m),
            Type::King => self.king_move_valid(m),
        }
    }

    /// A piece stands on the square of departure and the move is one that it
    /// may make.
    pub open spec fn move_valid(self, m: Move) -> bool {
        match self.piece_at(m.from as int) {
            Some(t) => self.move_valid_for(m, t),
            None => false,
        }
    }

    /// Whether the squares strictly between the two squares of the move are
    /// empty.
    pub fn is_move_over_free_squares(&self, m: &Move) -> (r: bool)
        requires
            m.on_board(),
            m.from != m.to,
            self.occupied(m.from as int),
        ensures
            r == self.free_path(*m),
    {
        let direction = m.get_direction_increment();
        if direction == 0 {
            return false;
        }
        let ghost n = steps_between(m.from as int, m.to as int);
        proof {
            lemma_direction_reaches(m.from as int, m.to as int);
        }
        let mut current_pos: i8 = m.from + direction;
        let ghost mut k: int = 1;
        while current_pos != m.to
            invariant
                m.on_board(),
                direction == Move::direction(m.from as int, m.to as int),
                direction != 0,
                -9 <= direction <= 9,
                n == steps_between(m.from as int, m.to as int),
                0 < k <= n < 64,
                m.to == m.from + n * direction,
                current_pos == m.from + k * direction,
                forall|j: int| 0 < j < k ==> !self.occupied(#[trigger] (m.from + j * direction)),
            decreases n - k,
        {
            proof {
                assert(k < n) by (nonlinear_arith)
                    requires
                        0 < k <= n,
                        direction != 0,
                        m.from + k * direction != m.from + n * direction,
                ;
                assert(0 <= m.from + k * direction < 64 && -128 <= m.from + (k + 1) * direction
                    < 128) by (nonlinear_arith)
                    requires
                        0 < k < n,
                        0 <= m.from < 64,
                        0 <= m.from + n * direction < 64,
                        -9 <= direction <= 9,
                ;
                assert(m.from + (k + 1) * direction == m.from + k * direction + direction)
                    by (nonlinear_arith);
            }
            if self.has_piece_at(current_pos) {
                return false;
            }
            current_pos = current_pos + direction;
            proof {
                k = k + 1;
            }
        }
        proof {
            assert(k == n) by (nonlinear_arith)
                requires
                    0 < k <= n,
                    direction != 0,
                    m.from + k * direction == m.from + n * direction,
            ;
        }
        true
    }

    /// Whether the move passes the test of a pawn's move.
    pub fn is_pawn_move_valid(&self, m: &Move) -> (r: bool)
        requires
            m.on_board(),
        ensures
            r == self.pawn_move_valid(*m),
    {
        if (m.is_white && (m.from / 8) > (m.to / 8)) || (!m.is_white && (m.from / 8) < (m.to / 8)) {
            return false;
        }
        if m.to == m.from + 16 && m.from / 8 != 1 {
            return false;
        } else if m.to + 16 == m.from && m.from / 8 != 6 {
            return false;
        }
        if self.has_piece_at(m.to) {
            return m.from % 8 != m.to % 8;
        } else if m.from % 8 != m.to % 8 {
            return false;
        }
        let motion = m.to - m.from;
        motion == 8 || motion == -8 || motion == -16 || motion == 16
    }

    /// Whether the move passes the test of a king's move.
    pub fn is_king_move_valid(&self, m: &Move) -> (r: bool)
        requires
            m.on_board(),
            m.to - m.from == 2 ==> m.from + 3 < 64,
            m.to - m.from == -2 ==> m.from - 4 >= 0,
        ensures
            r == self.king_move_valid(*m),
    {
        let motion = m.to - m.from;
        if motion == 2 || motion == -2 {
            if (m.is_white && is_set(self.flags, FLAG_WK_MOVED)) || (!m.is_white && is_set(
                self.flags,
                FLAG_BK_MOVED,
            )) {
                return false;
            }
            if motion > 0 {
                if !is_set(self.rooks, m.from + 3) {
                    return false;
                }
            } else {
                if !is_set(self.rooks, m.from - 4) {
                    return false;
                }
            }
            let occupancy = self.occupancy_mask();
            if motion > 0 {
                if is_set(occupancy, m.from + 1) || is_set(occupancy, m.from + 2) {
                    return false;
                }
            } else {
                if is_set(occupancy, m.from - 1) || is_set(occupancy, m.from - 2) || is_set(
                    occupancy,
                    m.from - 3,
                ) {
                    return false;
                }
            }
            let attacked = self.get_attacked_squares(!m.is_white);
            if motion > 0 {
                if is_set(attacked, m.from + 1) || is_set(attacked, m.from + 2) {
                    return false;
                }
            } else {
                if is_set(attacked, m.from - 1) || is_set(attacked, m.from - 2) || is_set(
                    attacked,
                    m.from - 3,
                ) {
                    return false;
                }
            }
            return true;
        }
        motion == 1 || motion == -1 || motion == 8 || motion == -8 || motion == 7 || motion == -7
            || motion == 9 || motion == -9
    }

    /// Whether a change of square by `motion` from file `x1` and rank `y1`
    /// to file `x2` and rank `y2` passes the test of a bishop's move.
    pub fn is_bishop_valid(motion: i8, x1: i8, y1: i8, x2: i8, y2: i8) -> (r: bool)
        requires
            -64 < motion < 64,
        ensures
            r == ChessGame::bishop_valid(
                motion as int,
                x1 as int,
                y1 as int,
                x2 as int,
                y2 as int,
            ),
    {
        let dist: i8 = if motion > 0 { motion } else { -motion };
        if dist % 7 == 0 {
            if motion > 0 {
                x1 > x2 && y1 < y2
            } else {
                x1 < x2 && y1 > y2
            }
        } else if dist % 9 == 0 {
            if motion > 0 {
                x1 < x2 && y1 < y2
            } else {
                x1 > x2 && y1 > y2
            }
        } else {
            false
        }
    }

    /// Whether the move passes the test of a rook's move.
    pub fn is_rook_valid(m: &Move) -> (r: bool)
        requires
            m.on_board(),
        ensures
            r == ChessGame::rook_valid(*m),
    {
        let motion = m.to - m.from;
        let dist: i8 = if motion > 0 { motion } else { -motion };
        let remain = m.from % 8;
        let min = m.from - remain;
        let max = m.from + (7 - remain);
        if m.to >= min && m.to <= max {
            true
        } else {
            dist % 8 == 0
        }
    }

    /// Whether the move lands on a piece of the colour of the square that it
    /// leaves.
    pub fn is_destination_of_incorrect_color(&self, m: &Move) -> (r: bool)
        requires
            m.on_board(),
        ensures
            r == self.lands_on_own(*m),
    {
        self.has_piece_at(m.to) && is_set(self.whites, m.to) == is_set(self.whites, m.from)
    }

    /// Whether the move passes the test of a knight's move.
    fn is_knight_valid(m: &Move) -> (r: bool)
        requires
            m.on_board(),
        ensures
            r == ChessGame::knight_valid(*m),
    {
        let motion = m.to - m.from;
        let (x1, y1, x2, y2) = (m.from % 8, m.from / 8, m.to % 8, m.to / 8);
        if motion == 17 || motion == 10 {
            x2 > x1 && y2 > y1
        } else if motion == 15 || motion == 6 {
            x2 < x1 && y2 > y1
        } else if motion == -10 || motion == -17 {
            x2 < x1 && y2 < y1
        } else if motion == -15 || motion == -6 {
            x2 > x1 && y2 < y1
        } else {
            false
        }
    }

    /// Whether the move is one that a piece of type `t` on its square of
    /// departure may make.
    pub fn is_move_valid_for_type(&self, m: &Move, t: Type) -> (r: bool)
        requires
            m.on_board(),
            self.occupied(m.from as int),
        ensures
            r == self.move_valid_for(*m, t),
    {
        if self.is_destination_of_incorrect_color(m) {
            return false;
        }
        let knight = matches!(t, Type::Knight);
        let king = matches!(t, Type::King);
        if !(knight || king || self.is_move_over_free_squares(m)) {
            return false;
        }
        let motion = m.to - m.from;
        let (x1, y1, x2, y2) = (m.from % 8, m.from / 8, m.to % 8, m.to / 8);
        match t {
            Type::Pawn => self.is_pawn_move_valid(m),
            Type::Bishop => ChessGame::is_bishop_valid(motion, x1, y1, x2, y2),
            Type::Rook => ChessGame::is_rook_valid(m),
            Type::Queen => {
                ChessGame::is_bishop_valid(motion, x1, y1, x2, y2) || ChessGame::is_rook_valid(m)
            },
            Type::Knight => ChessGame::is_knight_valid(m),
            Type::King => {
                if (motion == 2 && m.from + 3 >= 64) || (motion == -2 && m.from - 4 < 0) {
                    proof {
                        assert(!self.castling_valid(*m));
                    }
                    false
                } else {
                    self.is_king_move_valid(m)
                }
            },
        }
    }

    /// Whether a piece stands on the square of departure and the move is
    /// one that it may make.
    pub fn is_move_valid(&self, m: &Move) -> (r: bool)
        requires
            m.on_board(),
        ensures
            r == self.move_valid(*m),
    {
        match self.type_at_index(m.from) {
            Some(t) => self.is_move_valid_for_type(m, t),
            None => false,
        }
    }

    /// Plays the move if it passes the test, and tells whether it did. A
    /// move that fails the test leaves the position as it is.
    pub fn apply_move_safe(&mut self, m: Move) -> (r: bool)
        requires
            m.on_board(),
        ensures
            r == old(self).move_valid(m),
            *final(self) == if r { old(self).after_move(m) } else { *old(self) },
            old(self).pawns_inside() ==> final(self).pawns_inside(),
    {
        if self.is_move_valid(&m) {
            self.apply_move_unsafe(&m);
            return true;
        }
        false
    }
}

} // verus!
