//! No move is generated twice: in a position that meets the invariants, no
//! two generated moves join the same two squares.

use vstd::prelude::*;
use crate::bits::{bit, of_colour, group_bits};
use crate::chess_type::Type;
use crate::game::ChessGame;
use crate::moves::Move;
use crate::precomputation::{
    king_reaches, ray_len, ray_square, rank_step, file_step, lemma_ray_square,
};
use crate::sequences::{collect, parts_apart, lemma_collect_all, lemma_collect_distinct};

verus! {

broadcast use group_bits;

/// The two squares that a move joins.
pub open spec fn route() -> spec_fn(Move) -> (int, int) {
    |m: Move| (m.from as int, m.to as int)
}

/// The square that a move leaves.
pub open spec fn departure() -> spec_fn(Move) -> int {
    |m: Move| m.from as int
}

/// The square that a move reaches.
pub open spec fn arrival() -> spec_fn(Move) -> int {
    |m: Move| m.to as int
}

/// A number as its own mark.
pub open spec fn itself() -> spec_fn(int) -> int {
    |a: int| a
}

/// The sign of a number.
pub open spec fn sign(x: int) -> int {
    if x > 0 {
        1
    } else if x < 0 {
        -1
    } else {
        0
    }
}

/// The direction in which a move travels, from 0 to 7 in the order N, S, E,
/// W, NE, NW, SE, SW, by the signs of its change of rank and of file.
pub open spec fn heading() -> spec_fn(Move) -> int {
    |m: Move|
        {
            let dr = sign(m.to as int / 8 - m.from as int / 8);
            let df = sign(m.to as int % 8 - m.from as int % 8);
            if dr == 1 && df == 0 {
                0int
            } else if dr == -1 && df == 0 {
                1int
            } else if dr == 0 && df == 1 {
                2int
            } else if dr == 0 && df == -1 {
                3int
            } else if dr == 1 && df == 1 {
                4int
            } else if dr == 1 && df == -1 {
                5int
            } else if dr == -1 && df == 1 {
                6int
            } else if dr == -1 && df == -1 {
                7int
            } else {
                8int
            }
        }
}

/// No two moves of a sequence join the same two squares.
pub open spec fn routes_differ(s: Seq<Move>) -> bool {
    forall|i: int, j: int| 0 <= i < j < s.len() ==> route()(#[trigger] s[i]) != route()(#[trigger] s[j])
}

/// Parts of at most one move each, the move of part `t` reaching the square
/// `mark(t)`, make a collection in which no two moves join the same squares.
proof fn lemma_targets_differ(n: int, g: spec_fn(int) -> Seq<Move>, mark: spec_fn(int) -> int)
    requires
        forall|t: int, x: int|
            0 <= t < n && 0 <= x < g(t).len() ==> x == 0 && (#[trigger] g(t)[x]).to as int == mark(
                t,
            ),
        forall|a: int, b: int| 0 <= a < b < n ==> #[trigger] mark(a) != #[trigger] mark(b),
    ensures
        routes_differ(collect(n, g)),
{
    assert(parts_apart(n, g, route(), arrival(), mark));
    assert forall|i: int, j: int| 0 <= i < j < collect(n, g).len() implies route()(
        #[trigger] collect(n, g)[i],
    ) != route()(#[trigger] collect(n, g)[j]) by {
        lemma_collect_distinct(n, g, route(), arrival(), mark, i, j);
    }
}

/// Parts whose moves leave the square of the part, and of which none holds
/// two moves that join the same squares, make such a collection.
proof fn lemma_sources_differ(f: spec_fn(int) -> Seq<Move>)
    requires
        forall|a: int, x: int|
            0 <= a < 64 && 0 <= x < f(a).len() ==> (#[trigger] f(a)[x]).from as int == a,
        forall|a: int| 0 <= a < 64 ==> routes_differ(#[trigger] f(a)),
    ensures
        routes_differ(collect(64, f)),
{
    assert(parts_apart(64, f, route(), departure(), itself())) by {
        assert forall|a: int, x: int, y: int|
            0 <= a < 64 && 0 <= x < y < f(a).len() implies route()(#[trigger] f(a)[x]) != route()(
            #[trigger] f(a)[y],
        ) by {
            assert(routes_differ(f(a)));
        }
    }
    assert forall|i: int, j: int| 0 <= i < j < collect(64, f).len() implies route()(
        #[trigger] collect(64, f)[i],
    ) != route()(#[trigger] collect(64, f)[j]) by {
        lemma_collect_distinct(64, f, route(), departure(), itself(), i, j);
    }
}

impl ChessGame {
    /// The part of the generated moves to which a move belongs, by the
    /// piece on the square that it leaves: 0 for a knight, 1 for a step of a
    /// king, 2 for a capture by a pawn, 3 for a push of a pawn, 4 for a
    /// rook, 5 for a bishop, 6 for a queen, 7 for castling.
    pub open spec fn part_of(self) -> spec_fn(Move) -> int {
        |m: Move|
            match self.piece_at(m.from as int) {
                Some(Type::Knight) => 0int,
                Some(Type::King) => if m.to - m.from == 2 || m.to - m.from == -2 {
                    7int
                } else {
                    1int
                },
                Some(Type::Pawn) => if m.to as int % 8 != m.from as int % 8 {
                    2int
                } else {
                    3int
                },
                Some(Type::Rook) => 4int,
                Some(Type::Bishop) => 5int,
                Some(Type::Queen) => 6int,
                None => 8int,
            }
    }

    /// The moves of the knights, or of the kings, join different squares.
    proof fn lemma_steppers_differ(self, white: bool, mover: Type)
        ensures
            routes_differ(self.stepper_moves(white, mover)),
    {
        let src = self.stepper_source(white, mover);
        assert forall|a: int| 0 <= a < 64 implies routes_differ(#[trigger] src(a)) by {
            let tgt = self.stepper_target(white, mover, a);
            lemma_targets_differ(64, tgt, itself());
        }
        assert forall|a: int, x: int| 0 <= a < 64 && 0 <= x < src(a).len() implies (
        #[trigger] src(a)[x]).from as int == a by {
            let tgt = self.stepper_target(white, mover, a);
            let p = |m: Move| m.from as int == a;
            assert forall|t: int, y: int| 0 <= t < 64 && 0 <= y < tgt(t).len() implies p(
                #[trigger] tgt(t)[y],
            ) by {}
            lemma_collect_all(64, tgt, p);
            assert(p(src(a)[x]));
        }
        lemma_sources_differ(src);
    }

    /// The captures by pawns join different squares.
    proof fn lemma_pawn_captures_differ(self, white: bool)
        ensures
            routes_differ(self.pawn_captures(white)),
    {
        let src = self.pawn_capture_source(white);
        assert forall|a: int| 0 <= a < 64 implies routes_differ(#[trigger] src(a)) by {
            let tgt = self.pawn_target(white, a);
            lemma_targets_differ(64, tgt, itself());
        }
        assert forall|a: int, x: int| 0 <= a < 64 && 0 <= x < src(a).len() implies (
        #[trigger] src(a)[x]).from as int == a by {
            let tgt = self.pawn_target(white, a);
            let p = |m: Move| m.from as int == a;
            assert forall|t: int, y: int| 0 <= t < 64 && 0 <= y < tgt(t).len() implies p(
                #[trigger] tgt(t)[y],
            ) by {}
            lemma_collect_all(64, tgt, p);
            assert(p(src(a)[x]));
        }
        lemma_sources_differ(src);
    }

    /// The pushes of pawns join different squares.
    proof fn lemma_pawn_pushes_differ(self, white: bool)
        ensures
            routes_differ(self.pawn_pushes(white)),
    {
        let src = self.pawn_push_source(white);
        lemma_sources_differ(src);
    }

    /// The moves of a sliding piece on `from` join different squares.
    proof fn lemma_slider_differs(self, white: bool, mover: Type, first: int, end: int, from: int)
        requires
            0 <= first <= end <= 8,
            0 <= from < 64,
        ensures
            routes_differ(collect(end, self.slider_direction(white, mover, first, from))),
            forall|i: int|
                0 <= i < collect(end, self.slider_direction(white, mover, first, from)).len() ==> (
                #[trigger] collect(
                    end,
                    self.slider_direction(white, mover, first, from),
                )[i]).from as int == from,
    {
        let dirs = self.slider_direction(white, mover, first, from);
        let leaves = |m: Move| m.from as int == from;
        assert forall|d: int, y: int| 0 <= d < end && 0 <= y < dirs(d).len() implies leaves(
            #[trigger] dirs(d)[y],
        ) && heading()(dirs(d)[y]) == itself()(d) by {
            let tgt = self.ray_target(white, mover, d, from);
            let p = |m: Move| m.from as int == from && heading()(m) == d;
            assert forall|k: int, z: int| 0 <= k < ray_len(d, from) && 0 <= z < tgt(k).len() implies p(
                #[trigger] tgt(k)[z],
            ) by {
                lemma_ray_square(d, from, k);
                let to = ray_square(d, from, k);
                let m = tgt(k)[z];
                assert(m.to as int == to && m.from as int == from);
                assert(sign(to / 8 - from / 8) == rank_step(d) && sign(to % 8 - from % 8)
                    == file_step(d)) by (nonlinear_arith)
                    requires
                        0 <= k,
                        -1 <= rank_step(d) <= 1,
                        -1 <= file_step(d) <= 1,
                        to / 8 == from / 8 + (k + 1) * rank_step(d),
                        to % 8 == from % 8 + (k + 1) * file_step(d),
                ;
            }
            lemma_collect_all(ray_len(d, from), tgt, p);
            assert(p(dirs(d)[y]));
        }
        assert forall|d: int| 0 <= d < end implies routes_differ(#[trigger] dirs(d)) by {
            let tgt = self.ray_target(white, mover, d, from);
            let mark = |k: int| ray_square(d, from, k);
            assert forall|a: int, b: int| 0 <= a < b < ray_len(d, from) implies #[trigger] mark(a)
                != #[trigger] mark(b) by {
                let step = 8 * rank_step(d) + file_step(d);
                assert((a + 1) * step != (b + 1) * step) by (nonlinear_arith)
                    requires
                        a < b,
                        step != 0,
                ;
            }
            assert forall|k: int, x: int|
                0 <= k < ray_len(d, from) && 0 <= x < tgt(k).len() implies x == 0 && (
            #[trigger] tgt(k)[x]).to as int == mark(k) by {
                lemma_ray_square(d, from, k);
            }
            if first <= d {
                lemma_targets_differ(ray_len(d, from), tgt, mark);
            }
        }
        assert(parts_apart(end, dirs, route(), heading(), itself())) by {
            assert forall|a: int, x: int, y: int|
                0 <= a < end && 0 <= x < y < dirs(a).len() implies route()(#[trigger] dirs(a)[x])
                != route()(#[trigger] dirs(a)[y]) by {
                assert(routes_differ(dirs(a)));
            }
        }
        assert forall|i: int, j: int| 0 <= i < j < collect(end, dirs).len() implies route()(
            #[trigger] collect(end, dirs)[i],
        ) != route()(#[trigger] collect(end, dirs)[j]) by {
            lemma_collect_distinct(end, dirs, route(), heading(), itself(), i, j);
        }
        lemma_collect_all(end, dirs, leaves);
    }

    /// The moves of the sliding pieces of one type join different squares.
    proof fn lemma_sliders_differ(
        self,
        white: bool,
        mover: Type,
        pieces: u64,
        first: int,
        end: int,
    )
        requires
            0 <= first <= end <= 8,
        ensures
            routes_differ(self.slider_moves(white, mover, pieces, first, end)),
    {
        let src = self.slider_source(white, mover, pieces, first, end);
        assert forall|a: int| 0 <= a < 64 implies routes_differ(#[trigger] src(a)) by {
            self.lemma_slider_differs(white, mover, first, end, a);
        }
        assert forall|a: int, x: int| 0 <= a < 64 && 0 <= x < src(a).len() implies (
        #[trigger] src(a)[x]).from as int == a by {
            self.lemma_slider_differs(white, mover, first, end, a);
        }
        lemma_sources_differ(src);
    }

    /// The eight parts of the generated moves, by number.
    pub open spec fn part(self, white: bool) -> spec_fn(int) -> Seq<Move> {
        |p: int|
            if p == 0 {
                self.knight_moves(white)
            } else if p == 1 {
                self.king_moves(white)
            } else if p == 2 {
                self.pawn_captures(white)
            } else if p == 3 {
                self.pawn_pushes(white)
            } else if p == 4 {
                self.slider_moves(
                    white,
                    Type::Rook,
                    of_colour(self.whites, self.rooks, white),
                    0,
                    4,
                )
            } else if p == 5 {
                self.slider_moves(
                    white,
                    Type::Bishop,
                    of_colour(self.whites, self.bishops, white),
                    4,
                    8,
                )
            } else if p == 6 {
                self.slider_moves(
                    white,
                    Type::Queen,
                    of_colour(self.whites, self.queens, white),
                    0,
                    8,
                )
            } else {
                self.castle_moves(white)
            }
    }

    /// Every generated move belongs to the part in which it is generated.
    proof fn lemma_parts_labelled(self, white: bool)
        requires
            self.valid(),
        ensures
            forall|p: int, x: int|
                0 <= p < 8 && 0 <= x < self.part(white)(p).len() ==> self.part_of()(
                    #[trigger] self.part(white)(p)[x],
                ) == p,
    {
        let label = self.part_of();
        let q0 = |m: Move| label(m) == 0;
        let q1 = |m: Move| label(m) == 1;
        let q2 = |m: Move| label(m) == 2;
        let q3 = |m: Move| label(m) == 3;
        let q4 = |m: Move| label(m) == 4;
        let q5 = |m: Move| label(m) == 5;
        let q6 = |m: Move| label(m) == 6;
        assert forall|m: Move|
            m.is_white == white && m.on_board() && self.stepper_move(
                white,
                Type::Knight,
                m,
            ) implies #[trigger] q0(m) by {
            self.lemma_one_type(m.from as int);
        }
        self.lemma_steppers_sound(white, Type::Knight, q0);
        assert forall|m: Move|
            m.is_white == white && m.on_board() && self.stepper_move(
                white,
                Type::King,
                m,
            ) implies #[trigger] q1(m) by {
            self.lemma_one_type(m.from as int);
            let from = m.from as int;
            let to = m.to as int;
            assert(king_reaches(from, to));
            assert(to - from == 8 * (to / 8 - from / 8) + (to % 8 - from % 8));
        }
        self.lemma_steppers_sound(white, Type::King, q1);
        assert forall|m: Move|
            m.is_white == white && m.on_board() && self.pawn_capture_move(
                white,
                m,
            ) implies #[trigger] q2(m) by {
            self.lemma_one_type(m.from as int);
        }
        self.lemma_pawn_captures_sound(white, q2);
        assert forall|m: Move|
            m.is_white == white && m.on_board() && self.pawn_push_move(
                white,
                m,
            ) implies #[trigger] q3(m) by {
            self.lemma_one_type(m.from as int);
        }
        self.lemma_pawn_pushes_sound(white, q3);
        let rooks = of_colour(self.whites, self.rooks, white);
        let bishops = of_colour(self.whites, self.bishops, white);
        let queens = of_colour(self.whites, self.queens, white);
        assert forall|m: Move|
            m.is_white == white && m.on_board() && self.slider_move(
                white,
                Type::Rook,
                rooks,
                0,
                4,
                m,
            ) implies #[trigger] q4(m) by {
            self.lemma_one_type(m.from as int);
        }
        self.lemma_sliders_sound(white, Type::Rook, rooks, 0, 4, q4);
        assert forall|m: Move|
            m.is_white == white && m.on_board() && self.slider_move(
                white,
                Type::Bishop,
                bishops,
                4,
                8,
                m,
            ) implies #[trigger] q5(m) by {
            self.lemma_one_type(m.from as int);
        }
        self.lemma_sliders_sound(white, Type::Bishop, bishops, 4, 8, q5);
        assert forall|m: Move|
            m.is_white == white && m.on_board() && self.slider_move(
                white,
                Type::Queen,
                queens,
                0,
                8,
                m,
            ) implies #[trigger] q6(m) by {
            self.lemma_one_type(m.from as int);
        }
        self.lemma_sliders_sound(white, Type::Queen, queens, 0, 8, q6);
        self.lemma_one_type(4);
        self.lemma_one_type(60);
        assert forall|p: int, x: int|
            0 <= p < 8 && 0 <= x < self.part(white)(p).len() implies label(
            #[trigger] self.part(white)(p)[x],
        ) == p by {
            let m = self.part(white)(p)[x];
            if p == 0 {
                assert(q0(self.knight_moves(white)[x]));
            } else if p == 1 {
                assert(q1(self.king_moves(white)[x]));
            } else if p == 2 {
                assert(q2(self.pawn_captures(white)[x]));
            } else if p == 3 {
                assert(q3(self.pawn_pushes(white)[x]));
            } else if p == 4 {
                assert(q4(self.slider_moves(white, Type::Rook, rooks, 0, 4)[x]));
            } else if p == 5 {
                assert(q5(self.slider_moves(white, Type::Bishop, bishops, 4, 8)[x]));
            } else if p == 6 {
                assert(q6(self.slider_moves(white, Type::Queen, queens, 0, 8)[x]));
            } else {
                assert(m == self.castle_moves(white)[x]);
            }
        }
    }

    /// In a position that meets the invariants, no two generated moves join
    /// the same two squares.
    pub proof fn lemma_moves_differ(self, white: bool, i: int, j: int)
        requires
            self.valid(),
            0 <= i < j < self.moves(white).len(),
        ensures
            !(self.moves(white)[i].from == self.moves(white)[j].from && self.moves(white)[i].to
                == self.moves(white)[j].to),
    {
        let parts = self.part(white);
        assert(collect(8, parts) =~= self.moves(white)) by {
            reveal_with_fuel(collect, 9);
        }
        self.lemma_parts_labelled(white);
        self.lemma_steppers_differ(white, Type::Knight);
        self.lemma_steppers_differ(white, Type::King);
        self.lemma_pawn_captures_differ(white);
        self.lemma_pawn_pushes_differ(white);
        self.lemma_sliders_differ(
            white,
            Type::Rook,
            of_colour(self.whites, self.rooks, white),
            0,
            4,
        );
        self.lemma_sliders_differ(
            white,
            Type::Bishop,
            of_colour(self.whites, self.bishops, white),
            4,
            8,
        );
        self.lemma_sliders_differ(
            white,
            Type::Queen,
            of_colour(self.whites, self.queens, white),
            0,
            8,
        );
        assert(parts_apart(8, parts, route(), self.part_of(), itself())) by {
            assert forall|a: int, x: int, y: int|
                0 <= a < 8 && 0 <= x < y < parts(a).len() implies route()(#[trigger] parts(a)[x])
                != route()(#[trigger] parts(a)[y]) by {
                assert(routes_differ(parts(a)));
            }
        }
        lemma_collect_distinct(8, parts, route(), self.part_of(), itself(), i, j);
    }
}

} // verus!
