//! The position: eight 64-bit words, and how a move changes them.

use vstd::prelude::*;
use crate::bits::{
    bit, with_bit, without_bit, popcount, is_set, set_at, clear_at, count_squares, group_bits,
    lemma_bits_extensional,
};
use crate::chess_type::Type;
use crate::moves::Move;
use crate::utils::{ChessPosition, IntoChessPosition, pos_to_index};

verus! {

broadcast use group_bits;

/// Bit of `flags` that records that the white king has moved.
pub const FLAG_WK_MOVED: i8 = 0;

/// Bit of `flags` that records that the black king has moved.
pub const FLAG_BK_MOVED: i8 = 1;

/// Bit of `flags` that records that the white king has castled.
pub const FLAG_WK_CASTLED: i8 = 2;

/// Bit of `flags` that records that the black king has castled.
pub const FLAG_BK_CASTLED: i8 = 3;

/// Bit of `flags` that records that the white king has moved.
pub const FLAG_WHITE_KING_MOVED: i8 = 0;

/// Bit of `flags` that records that the black king has moved.
pub const FLAG_BLACK_KING_MOVED: i8 = 1;

/// A chess position.
///
/// Each of the six piece words holds the squares on which a piece of that
/// type stands, whatever its colour. `whites` holds the squares on which a
/// white piece stands. `flags` holds four booleans at bits 0 to 3: the white
/// king has moved, the black king has moved, the white king has castled, the
/// black king has castled.
#[derive(Copy, Clone, PartialEq, Eq, Hash, Structural, Debug)]
pub struct ChessGame {
    pub whites: u64,
    pub pawns: u64,
    pub bishops: u64,
    pub knights: u64,
    pub rooks: u64,
    pub queens: u64,
    pub kings: u64,
    pub flags: u64,
}

/// The squares of the first and of the last rank.
proof fn lemma_edge_ranks(sq: u64)
    by (bit_vector)
    requires
        sq < 64,
    ensures
        ((0xff00_0000_0000_00ffu64 >> sq) & 1 == 1) == (sq < 8 || sq >= 56),
{
}

impl ChessGame {
    /// The squares on which any piece stands.
    pub open spec fn occupancy(self) -> u64 {
        self.pawns | self.bishops | self.knights | self.rooks | self.queens | self.kings
    }

    /// A piece stands on `sq`.
    pub open spec fn occupied(self, sq: int) -> bool {
        bit(self.pawns, sq) || bit(self.bishops, sq) || bit(self.knights, sq) || bit(
            self.rooks,
            sq,
        ) || bit(self.queens, sq) || bit(self.kings, sq)
    }

    /// The word that holds the pieces of type `t`.
    pub open spec fn board(self, t: Type) -> u64 {
        match t {
            Type::Pawn => self.pawns,
            Type::Bishop => self.bishops,
            Type::Knight => self.knights,
            Type::Rook => self.rooks,
            Type::Queen => self.queens,
            Type::King => self.kings,
        }
    }

    /// The type of the piece on `sq`. Where several words claim the square,
    /// the first of pawn, bishop, knight, rook, king, queen counts.
    pub open spec fn piece_at(self, sq: int) -> Option<Type> {
        if bit(self.pawns, sq) {
            Some(Type::Pawn)
        } else if bit(self.bishops, sq) {
            Some(Type::Bishop)
        } else if bit(self.knights, sq) {
            Some(Type::Knight)
        } else if bit(self.rooks, sq) {
            Some(Type::Rook)
        } else if bit(self.kings, sq) {
            Some(Type::King)
        } else if bit(self.queens, sq) {
            Some(Type::Queen)
        } else {
            None
        }
    }

    /// The square is marked white.
    pub open spec fn white_at(self, sq: int) -> bool {
        bit(self.whites, sq)
    }

    /// No square holds pieces of two types.
    pub open spec fn disjoint(self) -> bool {
        forall|sq: int, a: Type, b: Type|
            #![trigger bit(self.board(a), sq), bit(self.board(b), sq)]
            a != b ==> !(bit(self.board(a), sq) && bit(self.board(b), sq))
    }

    /// Every square marked white holds a piece.
    pub open spec fn whites_occupied(self) -> bool {
        forall|sq: int| #[trigger] bit(self.whites, sq) ==> self.occupied(sq)
    }

    /// No pawn stands on the first or on the last rank.
    pub open spec fn pawns_inside(self) -> bool {
        forall|sq: int| #[trigger] bit(self.pawns, sq) ==> 8 <= sq < 56
    }

    /// A side that has castled has moved its king.
    pub open spec fn flags_consistent(self) -> bool {
        &&& bit(self.flags, 2) ==> bit(self.flags, 0)
        &&& bit(self.flags, 3) ==> bit(self.flags, 1)
    }

    /// The invariants of a position.
    pub open spec fn valid(self) -> bool {
        &&& self.disjoint()
        &&& self.whites_occupied()
        &&& self.pawns_inside()
        &&& self.flags_consistent()
    }

    /// The game is over: the board does not hold exactly two kings.
    pub open spec fn finished(self) -> bool {
        popcount(self.kings) != 2
    }

    /// The position with `to` emptied.
    pub open spec fn after_capture(self, to: int) -> ChessGame {
        ChessGame {
            whites: without_bit(self.whites, to),
            pawns: without_bit(self.pawns, to),
            bishops: without_bit(self.bishops, to),
            knights: without_bit(self.knights, to),
            rooks: without_bit(self.rooks, to),
            queens: without_bit(self.queens, to),
            kings: without_bit(self.kings, to),
            flags: self.flags,
        }
    }

    /// The position with a piece of type `t` added on `at`, marked white if
    /// `white`.
    pub open spec fn with_piece(self, t: Type, white: bool, at: int) -> ChessGame {
        let g = match t {
            Type::Pawn => ChessGame { pawns: with_bit(self.pawns, at), ..self },
            Type::Bishop => ChessGame { bishops: with_bit(self.bishops, at), ..self },
            Type::Knight => ChessGame { knights: with_bit(self.knights, at), ..self },
            Type::Rook => ChessGame { rooks: with_bit(self.rooks, at), ..self },
            Type::Queen => ChessGame { queens: with_bit(self.queens, at), ..self },
            Type::King => ChessGame { kings: with_bit(self.kings, at), ..self },
        };
        if white {
            ChessGame { whites: with_bit(g.whites, at), ..g }
        } else {
            g
        }
    }

    /// The position with the piece of type `t` taken off `at`.
    pub open spec fn without_piece(self, t: Type, at: int) -> ChessGame {
        match t {
            Type::Pawn => ChessGame { pawns: without_bit(self.pawns, at), ..self },
            Type::Bishop => ChessGame { bishops: without_bit(self.bishops, at), ..self },
            Type::Knight => ChessGame { knights: without_bit(self.knights, at), ..self },
            Type::Rook => ChessGame { rooks: without_bit(self.rooks, at), ..self },
            Type::Queen => ChessGame { queens: without_bit(self.queens, at), ..self },
            Type::King => ChessGame { kings: without_bit(self.kings, at), ..self },
        }
    }

    /// The move is a king's move by two squares: a castling move.
    pub open spec fn castles(self, m: Move) -> bool {
        &&& self.piece_at(m.from as int) == Some(Type::King)
        &&& (m.to - m.from == 2 || m.to - m.from == -2)
    }

    /// The move is a castling move whose rook corner, three squares beyond
    /// the king on the short side and four on the long side, is on the
    /// board: the rook goes along.
    pub open spec fn takes_rook(self, m: Move) -> bool {
        self.castles(m) && 0 <= ChessGame::rook_from(m) < 64
    }

    /// The square that the rook leaves when the king castles by `m`.
    pub open spec fn rook_from(m: Move) -> int {
        if m.to - m.from == 2 {
            m.from + 3
        } else {
            m.from - 4
        }
    }

    /// The square that the rook reaches when the king castles by `m`.
    pub open spec fn rook_to(m: Move) -> int {
        if m.to - m.from == 2 {
            m.from + 1
        } else {
            m.from - 1
        }
    }

    /// The type under which a piece of type `t` arrives on `to`: a pawn that
    /// reaches the first or the last rank arrives as a queen.
    pub open spec fn arriving(t: Type, to: int) -> Type {
        if t == Type::Pawn && (to / 8 == 7 || to / 8 == 0) {
            Type::Queen
        } else {
            t
        }
    }

    /// The flags after the side of `m` has moved its king, castling or not.
    pub open spec fn flags_after_king(self, m: Move) -> u64 {
        let moved = with_bit(self.flags, if m.is_white { 0int } else { 1int });
        if self.castles(m) {
            with_bit(moved, if m.is_white { 2int } else { 3int })
        } else {
            moved
        }
    }

    /// The position after the move `m`.
    ///
    /// Nothing changes where no piece stands on `m.from`. Otherwise `m.to` is
    /// emptied, the piece leaves `m.from` and arrives on `m.to`, and `m.to` is
    /// marked white if and only if `m.is_white`; `m.from` loses its white
    /// mark only if `m.is_white`. A king that moves by two squares sets both
    /// flags of its side, and takes the rook along from its corner to the
    /// square beside the king if that corner is on the board; any other move
    /// of a king sets the flag that the king has moved.
    pub open spec fn after_move(self, m: Move) -> ChessGame {
        match self.piece_at(m.from as int) {
            None => self,
            Some(t) => {
                let g = self.after_capture(m.to as int);
                let g = g.without_piece(t, m.from as int);
                let g = g.with_piece(ChessGame::arriving(t, m.to as int), false, m.to as int);
                let g = if t == Type::King {
                    let g = ChessGame { flags: self.flags_after_king(m), ..g };
                    if self.takes_rook(m) {
                        let g = ChessGame {
                            rooks: with_bit(
                                without_bit(g.rooks, ChessGame::rook_from(m)),
                                ChessGame::rook_to(m),
                            ),
                            ..g
                        };
                        if m.is_white {
                            ChessGame {
                                whites: with_bit(
                                    without_bit(g.whites, ChessGame::rook_from(m)),
                                    ChessGame::rook_to(m),
                                ),
                                ..g
                            }
                        } else {
                            g
                        }
                    } else {
                        g
                    }
                } else {
                    g
                };
                if m.is_white {
                    ChessGame {
                        whites: with_bit(without_bit(g.whites, m.from as int), m.to as int),
                        ..g
                    }
                } else {
                    g
                }
            },
        }
    }

    /// What a move does to the flags: a king that moves sets the flag of its
    /// side that the king has moved, a king that moves by two squares also
    /// the flag that it has castled, and nothing else changes. So no flag is
    /// ever cleared, and a side that has castled has moved its king.
    pub proof fn lemma_flags_after_move(self, m: Move)
        ensures
            forall|i: int|
                #[trigger] bit(self.after_move(m).flags, i) == (bit(self.flags, i) || 0 <= i < 64
                    && self.piece_at(m.from as int) == Some(Type::King) && (i == (if m.is_white {
                    0int
                } else {
                    1int
                }) || self.castles(m) && i == (if m.is_white { 2int } else { 3int }))),
            self.flags_consistent() ==> self.after_move(m).flags_consistent(),
    {
    }

    /// A move never puts a pawn on the first or on the last rank.
    pub proof fn lemma_move_keeps_pawns_inside(self, m: Move)
        requires
            self.pawns_inside(),
            m.on_board(),
        ensures
            self.after_move(m).pawns_inside(),
    {
        let g = self.after_move(m);
        assert forall|sq: int| #[trigger] bit(g.pawns, sq) implies 8 <= sq < 56 by {
            if !bit(self.pawns, sq) {
                assert(self.piece_at(m.from as int) == Some(Type::Pawn));
                assert(sq == m.to);
            }
        }
    }

    /// Whether no pawn stands on the first or on the last rank.
    pub fn has_pawns_inside(&self) -> (r: bool)
        ensures
            r == self.pawns_inside(),
    {
        let edge: u64 = 0xff00_0000_0000_00ff;
        let on_edge = self.pawns & edge;
        proof {
            assert forall|sq: int| #[trigger] bit(edge, sq) == (0 <= sq < 8 || 56 <= sq < 64) by {
                if 0 <= sq < 64 {
                    lemma_edge_ranks(sq as u64);
                }
            }
            if on_edge != 0 {
                assert(exists|sq: int| bit(on_edge, sq)) by {
                    if forall|sq: int| !bit(on_edge, sq) {
                        lemma_bits_extensional(on_edge, 0);
                    }
                }
                let sq = choose|sq: int| bit(on_edge, sq);
                assert(bit(self.pawns, sq) && bit(edge, sq));
            } else {
                assert forall|sq: int| #[trigger] bit(self.pawns, sq) implies 8 <= sq < 56 by {
                    assert(!bit(on_edge, sq));
                }
            }
        }
        on_edge == 0
    }

    /// A position from its eight words.
    pub fn new(
        whites: u64,
        pawns: u64,
        bishops: u64,
        knights: u64,
        rooks: u64,
        queens: u64,
        kings: u64,
        flags: u64,
    ) -> (g: ChessGame)
        ensures
            g == (ChessGame { whites, pawns, bishops, knights, rooks, queens, kings, flags }),
    {
        ChessGame { whites, pawns, bishops, knights, rooks, queens, kings, flags }
    }

    /// The type of the piece on `at`, if any.
    pub fn type_at_index(&self, at: ChessPosition) -> (r: Option<Type>)
        requires
            0 <= at < 64,
        ensures
            r == self.piece_at(at as int),
    {
        if is_set(self.pawns, at) {
            Some(Type::Pawn)
        } else if is_set(self.bishops, at) {
            Some(Type::Bishop)
        } else if is_set(self.knights, at) {
            Some(Type::Knight)
        } else if is_set(self.rooks, at) {
            Some(Type::Rook)
        } else if is_set(self.kings, at) {
            Some(Type::King)
        } else if is_set(self.queens, at) {
            Some(Type::Queen)
        } else {
            None
        }
    }

    /// Whether the piece on `at` is white, if a piece stands there.
    pub fn color_at(&self, at: ChessPosition) -> (r: Option<bool>)
        requires
            0 <= at < 64,
        ensures
            r == if self.occupied(at as int) {
                Some(self.white_at(at as int))
            } else {
                None::<bool>
            },
    {
        if self.has_piece_at(at) {
            Some(is_set(self.whites, at))
        } else {
            None
        }
    }

    /// The squares on which any piece stands, as a bitboard.
    pub fn occupancy_mask(&self) -> (o: u64)
        ensures
            o == self.occupancy(),
            forall|sq: int| #[trigger] bit(o, sq) == self.occupied(sq),
    {
        self.pawns | self.bishops | self.knights | self.rooks | self.queens | self.kings
    }

    /// Whether a piece stands on `at`.
    pub fn has_piece_at(&self, at: ChessPosition) -> (r: bool)
        requires
            0 <= at < 64,
        ensures
            r == self.occupied(at as int),
    {
        is_set(self.occupancy_mask(), at)
    }

    /// Adds a piece to the position, over whatever stands on the square.
    pub fn set_piece<P: IntoChessPosition>(&mut self, piece: Type, white: bool, at: P)
        requires
            at.position() is Some,
            0 <= at.position()->0 < 64,
        ensures
            *final(self) == old(self).with_piece(piece, white, at.position()->0),
    {
        let at: ChessPosition = at.as_chess_position();
        match piece {
            Type::Pawn => {
                self.pawns = set_at(self.pawns, at);
            },
            Type::Bishop => {
                self.bishops = set_at(self.bishops, at);
            },
            Type::Knight => {
                self.knights = set_at(self.knights, at);
            },
            Type::Rook => {
                self.rooks = set_at(self.rooks, at);
            },
            Type::Queen => {
                self.queens = set_at(self.queens, at);
            },
            Type::King => {
                self.kings = set_at(self.kings, at);
            },
        }
        if white {
            self.whites = set_at(self.whites, at);
        }
    }

    /// Sets all four flags, so that neither side may castle.
    pub fn block_castling(&mut self)
        ensures
            final(self).flags == with_bit(
                with_bit(with_bit(with_bit(old(self).flags, 3), 2), 0),
                1,
            ),
            forall|i: int|
                #[trigger] bit(final(self).flags, i) == (0 <= i < 4 || bit(old(self).flags, i)),
            final(self).whites == old(self).whites,
            final(self).pawns == old(self).pawns,
            final(self).bishops == old(self).bishops,
            final(self).knights == old(self).knights,
            final(self).rooks == old(self).rooks,
            final(self).queens == old(self).queens,
            final(self).kings == old(self).kings,
    {
        self.flags = set_at(self.flags, FLAG_BK_CASTLED);
        self.flags = set_at(self.flags, FLAG_WK_CASTLED);
        self.flags = set_at(self.flags, FLAG_WK_MOVED);
        self.flags = set_at(self.flags, FLAG_BK_MOVED);
    }

    /// Whether the game is over: one of the two kings is gone.
    pub fn is_finished(&self) -> (r: bool)
        ensures
            r == self.finished(),
    {
        count_squares(self.kings) != 2
    }

    /// Empties the square on which `m` arrives.
    pub fn apply_capture(&mut self, m: &Move)
        requires
            0 <= m.to < 64,
        ensures
            *final(self) == old(self).after_capture(m.to as int),
    {
        self.pawns = clear_at(self.pawns, m.to);
        self.bishops = clear_at(self.bishops, m.to);
        self.rooks = clear_at(self.rooks, m.to);
        self.knights = clear_at(self.knights, m.to);
        self.queens = clear_at(self.queens, m.to);
        self.kings = clear_at(self.kings, m.to);
        self.whites = clear_at(self.whites, m.to);
    }

    /// Plays `m` on the position without asking whether the rules allow it.
    pub fn apply_move_unsafe(&mut self, m: &Move)
        requires
            m.on_board(),
        ensures
            *final(self) == old(self).after_move(*m),
            old(self).pawns_inside() ==> final(self).pawns_inside(),
    {
        proof {
            if self.pawns_inside() {
                self.lemma_move_keeps_pawns_inside(*m);
            }
        }
        if let Some(t) = self.type_at_index(m.from) {
            self.apply_capture(m);
            match t {
                Type::Pawn => {
                    self.pawns = clear_at(self.pawns, m.from);
                    if m.to / 8 == 7 || m.to / 8 == 0 {
                        self.queens = set_at(self.queens, m.to);
                    } else {
                        self.pawns = set_at(self.pawns, m.to);
                    }
                },
                Type::Bishop => {
                    self.bishops = clear_at(self.bishops, m.from);
                    self.bishops = set_at(self.bishops, m.to);
                },
                Type::Knight => {
                    self.knights = clear_at(self.knights, m.from);
                    self.knights = set_at(self.knights, m.to);
                },
                Type::Rook => {
                    self.rooks = clear_at(self.rooks, m.from);
                    self.rooks = set_at(self.rooks, m.to);
                },
                Type::Queen => {
                    self.queens = clear_at(self.queens, m.from);
                    self.queens = set_at(self.queens, m.to);
                },
                Type::King => {
                    self.kings = clear_at(self.kings, m.from);
                    self.kings = set_at(self.kings, m.to);
                    if m.is_white {
                        self.flags = set_at(self.flags, FLAG_WK_MOVED);
                    } else {
                        self.flags = set_at(self.flags, FLAG_BK_MOVED);
                    }
                    let motion = m.to - m.from;
                    if motion == 2 || motion == -2 {
                        if m.is_white {
                            self.flags = set_at(self.flags, FLAG_WK_CASTLED);
                        } else {
                            self.flags = set_at(self.flags, FLAG_BK_CASTLED);
                        }
                        let (rook_from, rook_to) = if motion == 2 {
                            (m.from + 3, m.from + 1)
                        } else {
                            (m.from - 4, m.from - 1)
                        };
                        if 0 <= rook_from && rook_from < 64 {
                            self.rooks = clear_at(self.rooks, rook_from);
                            self.rooks = set_at(self.rooks, rook_to);
                            if m.is_white {
                                self.whites = clear_at(self.whites, rook_from);
                                self.whites = set_at(self.whites, rook_to);
                            }
                        }
                    }
                },
            }
            if m.is_white {
                self.whites = clear_at(self.whites, m.from);
                self.whites = set_at(self.whites, m.to);
            }
        }
    }

    /// The position after `m`, played on a copy. The position itself stays
    /// as it is.
    pub fn played(&self, m: &Move) -> (g: ChessGame)
        requires
            m.on_board(),
        ensures
            g == self.after_move(*m),
            self.pawns_inside() ==> g.pawns_inside(),
    {
        let mut copy = self.clone();
        copy.apply_move_unsafe(m);
        copy
    }

    /// The type of the piece at file `x` and rank `y`, if any.
    pub fn type_at_xy(&self, x: i8, y: i8) -> (r: Option<Type>)
        requires
            -16 <= y <= 15,
            0 <= x + 8 * y < 64,
        ensures
            r == self.piece_at(x + 8 * y),
    {
        self.type_at_index(pos_to_index(x, y))
    }

    /// Whether the square at file `x` and rank `y` is marked white.
    pub fn is_white_at_xy(&self, x: i8, y: i8) -> (r: bool)
        requires
            -16 <= y <= 15,
            0 <= x + 8 * y < 64,
        ensures
            r == self.white_at(x + 8 * y),
    {
        is_set(self.whites, pos_to_index(x, y))
    }

    /// The type of the piece at file `x` and rank `y`, if any.
    pub fn type_at(&self, x: i8, y: i8) -> (r: Option<Type>)
        requires
            -16 <= y <= 15,
            0 <= x + 8 * y < 64,
        ensures
            r == self.piece_at(x + 8 * y),
    {
        self.type_at_xy(x, y)
    }

    /// Whether the square at file `x` and rank `y` is marked white.
    pub fn is_white_at(&self, x: i8, y: i8) -> (r: bool)
        requires
            -16 <= y <= 15,
            0 <= x + 8 * y < 64,
        ensures
            r == self.white_at(x + 8 * y),
    {
        self.is_white_at_xy(x, y)
    }

    /// Whether a black piece stands on `pos`.
    pub fn is_black_at(&self, pos: ChessPosition) -> (r: bool)
        requires
            0 <= pos < 64,
        ensures
            r == (self.piece_at(pos as int) is Some && !self.white_at(pos as int)),
    {
        self.type_at_index(pos).is_some() && !is_set(self.whites, pos)
    }
}

} // verus!
