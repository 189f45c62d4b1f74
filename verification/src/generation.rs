//! Move generation: all the moves that the geometry of the pieces allows
//! and that do not land on a piece of the same side. Moves that leave the
//! own king attacked are not filtered out.

use vstd::prelude::*;
use crate::bits::{bit, of_colour, pieces_for_color, take_lowest, is_set, group_bits};
use crate::chess_type::Type;
use crate::game::{ChessGame, FLAG_WHITE_KING_MOVED, FLAG_BLACK_KING_MOVED};
use crate::moves::{Move, MoveQuality};
use crate::moves_container::{MovesContainer, place_all, lemma_place_all_push};
use crate::precomputation::{
    pawn_reaches, knight_reaches, king_reaches, ray_len, ray_square, rank_step, file_step,
    lemma_ray_square, pawn_attack_mask, knight_attack_mask, king_attack_mask, ray_length,
    ray_offset,
};
use crate::sequences::{collect, lemma_collect_skip, lemma_collect_all};
use crate::utils::ChessPosition;

verus! {

broadcast use group_bits;

/// The move from `from` to `to` by the given side under the tag `q`.
pub open spec fn move_of(white: bool, from: int, to: int, q: MoveQuality) -> Move {
    Move { from: from as i8, to: to as i8, is_white: white, quality: q }
}

impl ChessGame {
    /// The tag of a capture of `victim` by `mover`: a king's capture is always
    /// an equal one, any other is classed by the material values.
    pub open spec fn capture_tag(mover: Type, victim: Type) -> MoveQuality {
        if mover == Type::King {
            MoveQuality::EqualCapture
        } else {
            MoveQuality::of_capture(mover.value(), victim.value())
        }
    }

    /// What a piece of type `mover` does on a square `to` that it reaches
    /// from `from`: a quiet move onto an empty square, a capture of a piece
    /// of the other side, nothing where a piece of its own side stands.
    pub open spec fn step_to(self, white: bool, mover: Type, from: int, to: int) -> Seq<Move> {
        if !self.occupied(to) {
            seq![move_of(white, from, to, MoveQuality::Motion)]
        } else if self.white_at(to) != white {
            seq![move_of(white, from, to, ChessGame::capture_tag(mover, self.piece_at(to)->0))]
        } else {
            Seq::empty()
        }
    }

    /// A knight or a king on `from` reaches `to`.
    pub open spec fn reaches(mover: Type, from: int, to: int) -> bool {
        match mover {
            Type::Knight => knight_reaches(from, to),
            Type::King => king_reaches(from, to),
            _ => false,
        }
    }

    /// The move of a knight or king on `from` to the square `to`.
    pub open spec fn stepper_target(self, white: bool, mover: Type, from: int) -> spec_fn(
        int,
    ) -> Seq<Move> {
        |to: int|
            if ChessGame::reaches(mover, from, to) {
                self.step_to(white, mover, from, to)
            } else {
                Seq::empty()
            }
    }

    /// The moves of the knight or king of the given side on `from`, if one
    /// stands there.
    pub open spec fn stepper_source(self, white: bool, mover: Type) -> spec_fn(int) -> Seq<Move> {
        |from: int|
            if bit(of_colour(self.whites, self.board(mover), white), from) {
                collect(64, self.stepper_target(white, mover, from))
            } else {
                Seq::empty()
            }
    }

    /// The moves of the knights, or of the kings, of the given side: by
    /// square of departure, then by square of arrival, both ascending.
    pub open spec fn stepper_moves(self, white: bool, mover: Type) -> Seq<Move> {
        collect(64, self.stepper_source(white, mover))
    }

    /// The knight moves of the given side.
    pub open spec fn knight_moves(self, white: bool) -> Seq<Move> {
        self.stepper_moves(white, Type::Knight)
    }

    /// The king moves of the given side, castling apart.
    pub open spec fn king_moves(self, white: bool) -> Seq<Move> {
        self.stepper_moves(white, Type::King)
    }

    /// The capture by a pawn on `from` of what stands on `to`.
    pub open spec fn pawn_target(self, white: bool, from: int) -> spec_fn(int) -> Seq<Move> {
        |to: int|
            if pawn_reaches(white, from, to) && self.occupied(to) && self.white_at(to) != white {
                seq![move_of(white, from, to, MoveQuality::GoodCapture)]
            } else {
                Seq::empty()
            }
    }

    /// The captures of the pawn of the given side on `from`, if one stands there.
    pub open spec fn pawn_capture_source(self, white: bool) -> spec_fn(int) -> Seq<Move> {
        |from: int|
            if bit(of_colour(self.whites, self.pawns, white), from) {
                collect(64, self.pawn_target(white, from))
            } else {
                Seq::empty()
            }
    }

    /// The pawn captures of the given side.
    pub open spec fn pawn_captures(self, white: bool) -> Seq<Move> {
        collect(64, self.pawn_capture_source(white))
    }

    /// The pushes of a pawn on `from`: one square onto an empty square, and
    /// two squares from the starting rank over an empty square onto an empty
    /// square.
    pub open spec fn pawn_push(self, white: bool, from: int) -> Seq<Move> {
        let one = if white { from + 8 } else { from - 8 };
        let two = if white { from + 16 } else { from - 16 };
        let start = if white { 1int } else { 6int };
        let single = if !self.occupied(one) {
            seq![move_of(white, from, one, MoveQuality::Motion)]
        } else {
            Seq::empty()
        };
        let double = if from / 8 == start && !self.occupied(one) && !self.occupied(two) {
            seq![move_of(white, from, two, MoveQuality::Motion)]
        } else {
            Seq::empty()
        };
        single + double
    }

    /// The pushes of the pawn of the given side on `from`, if one stands there.
    pub open spec fn pawn_push_source(self, white: bool) -> spec_fn(int) -> Seq<Move> {
        |from: int|
            if bit(of_colour(self.whites, self.pawns, white), from) {
                self.pawn_push(white, from)
            } else {
                Seq::empty()
            }
    }

    /// The pawn pushes of the given side.
    pub open spec fn pawn_pushes(self, white: bool) -> Seq<Move> {
        collect(64, self.pawn_push_source(white))
    }

    /// The move of a sliding piece to the `k`-th square of a ray, if the
    /// squares before it are empty.
    pub open spec fn ray_target(self, white: bool, mover: Type, dir: int, from: int) -> spec_fn(
        int,
    ) -> Seq<Move> {
        |k: int|
            if self.clear_path(dir, from, k) {
                self.step_to(white, mover, from, ray_square(dir, from, k))
            } else {
                Seq::empty()
            }
    }

    /// The moves of a sliding piece on `from` along the ray in direction
    /// `dir`: onto each empty square up to the first occupied one, and onto
    /// that one if it holds a piece of the other side.
    pub open spec fn ray_moves(self, white: bool, mover: Type, dir: int, from: int) -> Seq<Move> {
        collect(ray_len(dir, from), self.ray_target(white, mover, dir, from))
    }

    /// The moves of a sliding piece on `from` in direction `dir`, if `dir`
    /// is one of its directions.
    pub open spec fn slider_direction(
        self,
        white: bool,
        mover: Type,
        first: int,
        from: int,
    ) -> spec_fn(int) -> Seq<Move> {
        |dir: int|
            if first <= dir {
                self.ray_moves(white, mover, dir, from)
            } else {
                Seq::empty()
            }
    }

    /// The moves of the sliding piece on `from`, if `pieces` holds the square.
    pub open spec fn slider_source(
        self,
        white: bool,
        mover: Type,
        pieces: u64,
        first: int,
        end: int,
    ) -> spec_fn(int) -> Seq<Move> {
        |from: int|
            if bit(pieces, from) {
                collect(end, self.slider_direction(white, mover, first, from))
            } else {
                Seq::empty()
            }
    }

    /// The moves of the sliding pieces on the squares of `pieces` in the
    /// directions from `first` up to, not including, `end`: by square of
    /// departure, then by direction, then by distance.
    pub open spec fn slider_moves(
        self,
        white: bool,
        mover: Type,
        pieces: u64,
        first: int,
        end: int,
    ) -> Seq<Move> {
        collect(64, self.slider_source(white, mover, pieces, first, end))
    }

    /// The castling move of the king from `king` to `to`, allowed when a king
    /// of the side stands on `king`, the squares `a`, `b` and `c` are empty
    /// and the other side attacks none of the three squares that the king
    /// stands on and crosses.
    pub open spec fn castle(self, white: bool, king: int, to: int, a: int, b: int, c: int) -> Seq<
        Move,
    > {
        let step = if to > king { 1int } else { -1int };
        if bit(of_colour(self.whites, self.kings, white), king) && !self.occupied(a)
            && !self.occupied(b) && !self.occupied(c) && !self.attacked(!white, king)
            && !self.attacked(!white, king + step) && !self.attacked(!white, king + 2 * step) {
            seq![move_of(white, king, to, MoveQuality::Motion)]
        } else {
            Seq::empty()
        }
    }

    /// The castling moves of the given side: the short one, then the long
    /// one, while the flag that its king has moved is clear and its king
    /// stands on the home square of the king.
    pub open spec fn castle_moves(self, white: bool) -> Seq<Move> {
        if white {
            if !bit(self.flags, 0) {
                self.castle(true, 4, 6, 5, 6, 6) + self.castle(true, 4, 2, 3, 2, 1)
            } else {
                Seq::empty()
            }
        } else {
            if !bit(self.flags, 1) {
                self.castle(false, 60, 62, 61, 62, 62) + self.castle(false, 60, 58, 59, 58, 57)
            } else {
                Seq::empty()
            }
        }
    }

    /// All the moves of the given side, in the order in which they are
    /// generated: knights, kings, pawn captures, pawn pushes, rooks, bishops,
    /// queens, castling.
    pub open spec fn moves(self, white: bool) -> Seq<Move> {
        self.knight_moves(white) + self.king_moves(white) + self.pawn_captures(white)
            + self.pawn_pushes(white) + self.slider_moves(
            white,
            Type::Rook,
            of_colour(self.whites, self.rooks, white),
            0,
            4,
        ) + self.slider_moves(
            white,
            Type::Bishop,
            of_colour(self.whites, self.bishops, white),
            4,
            8,
        ) + self.slider_moves(
            white,
            Type::Queen,
            of_colour(self.whites, self.queens, white),
            0,
            8,
        ) + self.castle_moves(white)
    }
}

/// The move joins two squares of the board.
pub open spec fn joins_board() -> spec_fn(Move) -> bool {
    |m: Move| m.on_board()
}

impl ChessGame {
    /// Every generated move joins two squares of the board.
    pub proof fn lemma_moves_on_board(self, white: bool)
        requires
            self.pawns_inside(),
        ensures
            forall|i: int|
                0 <= i < self.moves(white).len() ==> (#[trigger] self.moves(white)[i]).on_board(),
    {
        let p = joins_board();
        self.lemma_steppers_on_board(white, Type::Knight);
        self.lemma_steppers_on_board(white, Type::King);
        let psrc = self.pawn_capture_source(white);
        assert forall|j: int, x: int| 0 <= j < 64 && 0 <= x < psrc(j).len() implies p(
            #[trigger] psrc(j)[x],
        ) by {
            let tgt = self.pawn_target(white, j);
            assert forall|t: int, y: int| 0 <= t < 64 && 0 <= y < tgt(t).len() implies p(
                #[trigger] tgt(t)[y],
            ) by {}
            lemma_collect_all(64, tgt, p);
        }
        lemma_collect_all(64, psrc, p);
        let push = self.pawn_push_source(white);
        assert forall|j: int, x: int| 0 <= j < 64 && 0 <= x < push(j).len() implies p(
            #[trigger] push(j)[x],
        ) by {
            assert(bit(self.pawns, j));
        }
        lemma_collect_all(64, push, p);
        self.lemma_sliders_on_board(
            white,
            Type::Rook,
            of_colour(self.whites, self.rooks, white),
            0,
            4,
        );
        self.lemma_sliders_on_board(
            white,
            Type::Bishop,
            of_colour(self.whites, self.bishops, white),
            4,
            8,
        );
        self.lemma_sliders_on_board(
            white,
            Type::Queen,
            of_colour(self.whites, self.queens, white),
            0,
            8,
        );
        assert forall|i: int| 0 <= i < self.moves(white).len() implies (#[trigger] self.moves(
            white,
        )[i]).on_board() by {
            let a = self.knight_moves(white);
            let b = self.king_moves(white);
            let c = self.pawn_captures(white);
            let d = self.pawn_pushes(white);
            let e = self.slider_moves(
                white,
                Type::Rook,
                of_colour(self.whites, self.rooks, white),
                0,
                4,
            );
            let f = self.slider_moves(
                white,
                Type::Bishop,
                of_colour(self.whites, self.bishops, white),
                4,
                8,
            );
            let g = self.slider_moves(
                white,
                Type::Queen,
                of_colour(self.whites, self.queens, white),
                0,
                8,
            );
            let h = self.castle_moves(white);
            let m = self.moves(white)[i];
            if i < a.len() {
                assert(p(a[i]));
            } else if i < (a + b).len() {
                assert(p(b[i - a.len()]));
            } else if i < (a + b + c).len() {
                assert(p(c[i - (a + b).len()]));
            } else if i < (a + b + c + d).len() {
                assert(p(d[i - (a + b + c).len()]));
            } else if i < (a + b + c + d + e).len() {
                assert(p(e[i - (a + b + c + d).len()]));
            } else if i < (a + b + c + d + e + f).len() {
                assert(p(f[i - (a + b + c + d + e).len()]));
            } else if i < (a + b + c + d + e + f + g).len() {
                assert(p(g[i - (a + b + c + d + e + f).len()]));
            } else {
                assert(m == h[i - (a + b + c + d + e + f + g).len()]);
            }
        }
    }

    /// Every move of a knight or king joins two squares of the board.
    proof fn lemma_steppers_on_board(self, white: bool, mover: Type)
        ensures
            forall|i: int|
                0 <= i < self.stepper_moves(white, mover).len() ==> joins_board()(
                    #[trigger] self.stepper_moves(white, mover)[i],
                ),
    {
        let p = joins_board();
        let src = self.stepper_source(white, mover);
        assert forall|j: int, x: int| 0 <= j < 64 && 0 <= x < src(j).len() implies p(
            #[trigger] src(j)[x],
        ) by {
            let tgt = self.stepper_target(white, mover, j);
            assert forall|t: int, y: int| 0 <= t < 64 && 0 <= y < tgt(t).len() implies p(
                #[trigger] tgt(t)[y],
            ) by {}
            lemma_collect_all(64, tgt, p);
        }
        lemma_collect_all(64, src, p);
    }

    /// Every move of a sliding piece joins two squares of the board.
    proof fn lemma_sliders_on_board(
        self,
        white: bool,
        mover: Type,
        pieces: u64,
        first: int,
        end: int,
    )
        requires
            0 <= first <= end <= 8,
        ensures
            forall|i: int|
                0 <= i < self.slider_moves(white, mover, pieces, first, end).len() ==> joins_board()(
                    #[trigger] self.slider_moves(white, mover, pieces, first, end)[i],
                ),
    {
        let p = joins_board();
        let src = self.slider_source(white, mover, pieces, first, end);
        assert forall|j: int, x: int| 0 <= j < 64 && 0 <= x < src(j).len() implies p(
            #[trigger] src(j)[x],
        ) by {
            let dirs = self.slider_direction(white, mover, first, j);
            assert forall|d: int, y: int| 0 <= d < end && 0 <= y < dirs(d).len() implies p(
                #[trigger] dirs(d)[y],
            ) by {
                let tgt = self.ray_target(white, mover, d, j);
                assert forall|k: int, z: int|
                    0 <= k < ray_len(d, j) && 0 <= z < tgt(k).len() implies p(
                    #[trigger] tgt(k)[z],
                ) by {
                    lemma_ray_square(d, j, k);
                }
                lemma_collect_all(ray_len(d, j), tgt, p);
            }
            lemma_collect_all(end, dirs, p);
        }
        lemma_collect_all(64, src, p);
    }
}

/// What a container holds once the moves of `done` have been pushed into it.
pub open spec fn filled<T: MovesContainer>(container: &T, done: Seq<Move>) -> bool {
    &&& container.well_formed()
    &&& container.pending() == place_all::<T>(Seq::empty(), done)
    &&& container.total() == done.len()
}

/// Pushes one move into a container that holds the moves of `done`.
fn emit<T: MovesContainer>(container: &mut T, m: Move, Ghost(done): Ghost<Seq<Move>>)
    requires
        filled(old(container), done),
    ensures
        filled(final(container), done.push(m)),
{
    proof {
        lemma_place_all_push::<T>(Seq::empty(), done, m);
    }
    container.push(m);
}

impl ChessGame {
    /// Pushes what a piece does on a square that it reaches.
    fn emit_step<T: MovesContainer>(
        &self,
        container: &mut T,
        occupancy: u64,
        white: bool,
        mover: Type,
        from: ChessPosition,
        to: ChessPosition,
        Ghost(done): Ghost<Seq<Move>>,
    )
        requires
            filled(old(container), done),
            occupancy == self.occupancy(),
            0 <= from < 64,
            0 <= to < 64,
        ensures
            filled(
                final(container),
                done + self.step_to(white, mover, from as int, to as int),
            ),
    {
        let occupied = is_set(occupancy, to);
        if !occupied {
            emit(container, Move::new(from, to, white), Ghost(done));
            assert(done.push(move_of(white, from as int, to as int, MoveQuality::Motion)) =~= done
                + self.step_to(white, mover, from as int, to as int));
        } else if is_set(self.whites, to) != white {
            let mut m = Move::new(from, to, white);
            match mover {
                Type::King => {
                    m.set_quality(MoveQuality::EqualCapture);
                },
                _ => {
                    if let Some(captured) = self.type_at_index(to) {
                        m.set_quality_from_scores(mover, captured);
                    }
                },
            }
            emit(container, m, Ghost(done));
            assert(done.push(m) =~= done + self.step_to(white, mover, from as int, to as int));
        } else {
            assert(done =~= done + self.step_to(white, mover, from as int, to as int));
        }
    }

    /// Pushes the moves of the knights, or of the kings, of one side.
    fn emit_steppers<T: MovesContainer>(
        &self,
        container: &mut T,
        occupancy: u64,
        white: bool,
        mover: Type,
        Ghost(done): Ghost<Seq<Move>>,
    )
        requires
            filled(old(container), done),
            occupancy == self.occupancy(),
            mover == Type::Knight || mover == Type::King,
        ensures
            filled(final(container), done + self.stepper_moves(white, mover)),
    {
        let board = match mover {
            Type::Knight => self.knights,
            _ => self.kings,
        };
        let all = pieces_for_color(self.whites, board, white);
        let mut left = all;
        let ghost mut k: int = 0;
        let ghost src = self.stepper_source(white, mover);
        assert(done + collect(0, src) =~= done);
        while left != 0
            invariant
                0 <= k <= 64,
                occupancy == self.occupancy(),
                mover == Type::Knight || mover == Type::King,
                all == of_colour(self.whites, self.board(mover), white),
                src == self.stepper_source(white, mover),
                forall|j: int| #[trigger] bit(left, j) == (bit(all, j) && j >= k),
                filled(container, done + collect(k, src)),
            decreases left,
        {
            let (from, rest) = take_lowest(left);
            let mask = match mover {
                Type::Knight => knight_attack_mask(from),
                _ => king_attack_mask(from),
            };
            let mut targets = mask;
            let ghost mut kk: int = 0;
            let ghost tgt = self.stepper_target(white, mover, from as int);
            let ghost base = done + collect(from as int, src);
            proof {
                assert forall|j: int| k <= j < from implies (#[trigger] src(j)).len() == 0 by {
                    assert(!bit(left, j));
                }
                lemma_collect_skip(k, from as int, src);
                assert(base + collect(0, tgt) =~= base);
            }
            while targets != 0
                invariant
                    0 <= kk <= 64,
                    0 <= from < 64,
                    occupancy == self.occupancy(),
                    tgt == self.stepper_target(white, mover, from as int),
                    forall|j: int| #[trigger] bit(mask, j) == ChessGame::reaches(mover, from as int, j),
                    forall|j: int| #[trigger] bit(targets, j) == (bit(mask, j) && j >= kk),
                    filled(container, base + collect(kk, tgt)),
                decreases targets,
            {
                let (to, others) = take_lowest(targets);
                proof {
                    assert forall|j: int| kk <= j < to implies (#[trigger] tgt(j)).len() == 0 by {
                        assert(!bit(targets, j));
                    }
                    lemma_collect_skip(kk, to as int, tgt);
                }
                self.emit_step(
                    container,
                    occupancy,
                    white,
                    mover,
                    from,
                    to,
                    Ghost(base + collect(to as int, tgt)),
                );
                proof {
                    assert(bit(mask, to as int));
                    assert(base + collect(to as int, tgt) + tgt(to as int) =~= base + collect(
                        to + 1,
                        tgt,
                    ));
                    kk = to + 1;
                }
                targets = others;
            }
            proof {
                assert forall|j: int| kk <= j < 64 implies (#[trigger] tgt(j)).len() == 0 by {
                    assert(!bit(targets, j));
                }
                lemma_collect_skip(kk, 64, tgt);
                assert(bit(all, from as int));
                assert(src(from as int) == collect(64, tgt));
                assert(base + collect(64, tgt) =~= done + collect(from + 1, src));
                k = from + 1;
            }
            left = rest;
        }
        proof {
            assert forall|j: int| k <= j < 64 implies (#[trigger] src(j)).len() == 0 by {
                assert(!bit(left, j));
            }
            lemma_collect_skip(k, 64, src);
        }
    }

    /// Pushes the captures of the pawns of one side.
    fn emit_pawn_captures<T: MovesContainer>(
        &self,
        container: &mut T,
        occupancy: u64,
        white: bool,
        Ghost(done): Ghost<Seq<Move>>,
    )
        requires
            filled(old(container), done),
            occupancy == self.occupancy(),
        ensures
            filled(final(container), done + self.pawn_captures(white)),
    {
        let all = pieces_for_color(self.whites, self.pawns, white);
        let mut left = all;
        let ghost mut k: int = 0;
        let ghost src = self.pawn_capture_source(white);
        assert(done + collect(0, src) =~= done);
        while left != 0
            invariant
                0 <= k <= 64,
                occupancy == self.occupancy(),
                all == of_colour(self.whites, self.pawns, white),
                src == self.pawn_capture_source(white),
                forall|j: int| #[trigger] bit(left, j) == (bit(all, j) && j >= k),
                filled(container, done + collect(k, src)),
            decreases left,
        {
            let (from, rest) = take_lowest(left);
            let mask = pawn_attack_mask(white, from);
            let mut targets = mask;
            let ghost mut kk: int = 0;
            let ghost tgt = self.pawn_target(white, from as int);
            let ghost base = done + collect(from as int, src);
            proof {
                assert forall|j: int| k <= j < from implies (#[trigger] src(j)).len() == 0 by {
                    assert(!bit(left, j));
                }
                lemma_collect_skip(k, from as int, src);
                assert(base + collect(0, tgt) =~= base);
            }
            while targets != 0
                invariant
                    0 <= kk <= 64,
                    0 <= from < 64,
                    occupancy == self.occupancy(),
                    tgt == self.pawn_target(white, from as int),
                    forall|j: int| #[trigger] bit(mask, j) == pawn_reaches(white, from as int, j),
                    forall|j: int| #[trigger] bit(targets, j) == (bit(mask, j) && j >= kk),
                    filled(container, base + collect(kk, tgt)),
                decreases targets,
            {
                let (to, others) = take_lowest(targets);
                let ghost before = base + collect(to as int, tgt);
                proof {
                    assert forall|j: int| kk <= j < to implies (#[trigger] tgt(j)).len() == 0 by {
                        assert(!bit(targets, j));
                    }
                    lemma_collect_skip(kk, to as int, tgt);
                    assert(bit(mask, to as int));
                }
                let occupied = is_set(occupancy, to);
                if occupied && (is_set(self.whites, to) != white) {
                    let mut m = Move::new(from, to, white);
                    m.set_quality(MoveQuality::GoodCapture);
                    emit(container, m, Ghost(before));
                    assert(before.push(m) =~= before + tgt(to as int));
                } else {
                    assert(before =~= before + tgt(to as int));
                }
                proof {
                    assert(before + tgt(to as int) =~= base + collect(to + 1, tgt));
                    kk = to + 1;
                }
                targets = others;
            }
            proof {
                assert forall|j: int| kk <= j < 64 implies (#[trigger] tgt(j)).len() == 0 by {
                    assert(!bit(targets, j));
                }
                lemma_collect_skip(kk, 64, tgt);
                assert(bit(all, from as int));
                assert(src(from as int) == collect(64, tgt));
                assert(base + collect(64, tgt) =~= done + collect(from + 1, src));
                k = from + 1;
            }
            left = rest;
        }
        proof {
            assert forall|j: int| k <= j < 64 implies (#[trigger] src(j)).len() == 0 by {
                assert(!bit(left, j));
            }
            lemma_collect_skip(k, 64, src);
        }
    }

    /// Pushes the pushes of the pawns of one side.
    fn emit_pawn_pushes<T: MovesContainer>(
        &self,
        container: &mut T,
        occupancy: u64,
        white: bool,
        Ghost(done): Ghost<Seq<Move>>,
    )
        requires
            filled(old(container), done),
            occupancy == self.occupancy(),
            self.pawns_inside(),
        ensures
            filled(final(container), done + self.pawn_pushes(white)),
    {
        let all = pieces_for_color(self.whites, self.pawns, white);
        let mut left = all;
        let ghost mut k: int = 0;
        let ghost src = self.pawn_push_source(white);
        assert(done + collect(0, src) =~= done);
        while left != 0
            invariant
                0 <= k <= 64,
                occupancy == self.occupancy(),
                self.pawns_inside(),
                all == of_colour(self.whites, self.pawns, white),
                src == self.pawn_push_source(white),
                forall|j: int| #[trigger] bit(left, j) == (bit(all, j) && j >= k),
                filled(container, done + collect(k, src)),
            decreases left,
        {
            let (from, rest) = take_lowest(left);
            let ghost base = done + collect(from as int, src);
            proof {
                assert forall|j: int| k <= j < from implies (#[trigger] src(j)).len() == 0 by {
                    assert(!bit(left, j));
                }
                lemma_collect_skip(k, from as int, src);
                assert(bit(all, from as int));
                assert(bit(self.pawns, from as int));
            }
            let one: i8 = if white { from + 8 } else { from - 8 };
            let ghost mut sofar = base;
            if !is_set(occupancy, one) {
                emit(container, Move::new(from, one, white), Ghost(base));
                proof {
                    sofar = base.push(move_of(white, from as int, one as int, MoveQuality::Motion));
                }
            }
            let rank = from / 8;
            if white && rank == 1 && !is_set(occupancy, from + 8) && !is_set(occupancy, from + 16) {
                emit(container, Move::new(from, from + 16, white), Ghost(sofar));
                proof {
                    sofar = sofar.push(
                        move_of(white, from as int, from + 16, MoveQuality::Motion),
                    );
                }
            }
            if !white && rank == 6 && !is_set(occupancy, from - 8) && !is_set(occupancy, from - 16) {
                emit(container, Move::new(from, from - 16, white), Ghost(sofar));
                proof {
                    sofar = sofar.push(
                        move_of(white, from as int, from - 16, MoveQuality::Motion),
                    );
                }
            }
            proof {
                assert(sofar =~= base + self.pawn_push(white, from as int));
                assert(src(from as int) == self.pawn_push(white, from as int));
                assert(base + src(from as int) =~= done + collect(from + 1, src));
                k = from + 1;
            }
            left = rest;
        }
        proof {
            assert forall|j: int| k <= j < 64 implies (#[trigger] src(j)).len() == 0 by {
                assert(!bit(left, j));
            }
            lemma_collect_skip(k, 64, src);
        }
    }

    /// Pushes the moves of a sliding piece along one ray.
    fn emit_ray<T: MovesContainer>(
        &self,
        container: &mut T,
        occupancy: u64,
        white: bool,
        mover: Type,
        dir: usize,
        from: ChessPosition,
        Ghost(done): Ghost<Seq<Move>>,
    )
        requires
            filled(old(container), done),
            occupancy == self.occupancy(),
            dir < 8,
            0 <= from < 64,
        ensures
            filled(
                final(container),
                done + self.ray_moves(white, mover, dir as int, from as int),
            ),
    {
        let n = ray_length(dir, from);
        let step = ray_offset(dir);
        let mut k: i8 = 0;
        let mut pos: i8 = from;
        let mut blocked = false;
        let ghost tgt = self.ray_target(white, mover, dir as int, from as int);
        assert(done + collect(0, tgt) =~= done);
        while k < n && !blocked
            invariant
                dir < 8,
                0 <= from < 64,
                occupancy == self.occupancy(),
                0 <= k <= n,
                n == ray_len(dir as int, from as int),
                step == 8 * rank_step(dir as int) + file_step(dir as int),
                pos == from + k * step,
                0 <= pos < 64,
                tgt == self.ray_target(white, mover, dir as int, from as int),
                !blocked ==> self.clear_path(dir as int, from as int, k as int),
                blocked ==> k > 0 && self.occupied(ray_square(dir as int, from as int, k - 1)),
                filled(container, done + collect(k as int, tgt)),
            decreases n - k,
        {
            proof {
                lemma_ray_square(dir as int, from as int, k as int);
                assert(from + (k + 1) * step == from + k * step + step) by (nonlinear_arith);
            }
            pos = pos + step;
            self.emit_step(
                container,
                occupancy,
                white,
                mover,
                from,
                pos,
                Ghost(done + collect(k as int, tgt)),
            );
            if is_set(occupancy, pos) {
                blocked = true;
            }
            proof {
                let d = dir as int;
                let f = from as int;
                assert(pos == ray_square(d, f, k as int));
                assert(tgt(k as int) == self.step_to(white, mover, f, pos as int));
                assert(done + collect(k as int, tgt) + tgt(k as int) =~= done + collect(
                    k + 1,
                    tgt,
                ));
                if !blocked {
                    assert forall|j: int| 0 <= j < k + 1 implies !self.occupied(
                        #[trigger] ray_square(d, f, j),
                    ) by {}
                }
            }
            k = k + 1;
        }
        proof {
            let d = dir as int;
            let f = from as int;
            if blocked {
                assert forall|j: int| k <= j < n implies (#[trigger] tgt(j)).len() == 0 by {
                    assert(!self.clear_path(d, f, j)) by {
                        if self.clear_path(d, f, j) {
                            assert(!self.occupied(ray_square(d, f, k - 1)));
                        }
                    }
                }
                lemma_collect_skip(k as int, n as int, tgt);
            }
        }
    }

    /// Pushes the moves of the sliding pieces on the squares of `pieces` in the
    /// directions from `first` up to, not including, `end`.
    fn fill_attacked_squares_from_sliding_piece<T: MovesContainer>(
        &self,
        container: &mut T,
        pieces: u64,
        mover: Type,
        occupancy: u64,
        first: usize,
        end: usize,
        white: bool,
        Ghost(done): Ghost<Seq<Move>>,
    )
        requires
            filled(old(container), done),
            occupancy == self.occupancy(),
            first <= end <= 8,
        ensures
            filled(
                final(container),
                done + self.slider_moves(white, mover, pieces, first as int, end as int),
            ),
    {
        let mut left = pieces;
        let ghost mut k: int = 0;
        let ghost src = self.slider_source(white, mover, pieces, first as int, end as int);
        assert(done + collect(0, src) =~= done);
        while left != 0
            invariant
                0 <= k <= 64,
                first <= end <= 8,
                occupancy == self.occupancy(),
                src == self.slider_source(white, mover, pieces, first as int, end as int),
                forall|j: int| #[trigger] bit(left, j) == (bit(pieces, j) && j >= k),
                filled(container, done + collect(k, src)),
            decreases left,
        {
            let (from, rest) = take_lowest(left);
            let ghost dirs = self.slider_direction(white, mover, first as int, from as int);
            let ghost base = done + collect(from as int, src);
            proof {
                assert forall|j: int| k <= j < from implies (#[trigger] src(j)).len() == 0 by {
                    assert(!bit(left, j));
                }
                lemma_collect_skip(k, from as int, src);
                assert forall|j: int| 0 <= j < first implies (#[trigger] dirs(j)).len() == 0 by {}
                lemma_collect_skip(0, first as int, dirs);
                assert(base + collect(first as int, dirs) =~= base);
            }
            let mut dir = first;
            while dir < end
                invariant
                    first <= dir <= end <= 8,
                    0 <= from < 64,
                    occupancy == self.occupancy(),
                    dirs == self.slider_direction(white, mover, first as int, from as int),
                    filled(container, base + collect(dir as int, dirs)),
                decreases end - dir,
            {
                self.emit_ray(
                    container,
                    occupancy,
                    white,
                    mover,
                    dir,
                    from,
                    Ghost(base + collect(dir as int, dirs)),
                );
                proof {
                    assert(dirs(dir as int) == self.ray_moves(
                        white,
                        mover,
                        dir as int,
                        from as int,
                    ));
                    assert(base + collect(dir as int, dirs) + dirs(dir as int) =~= base + collect(
                        dir + 1,
                        dirs,
                    ));
                }
                dir = dir + 1;
            }
            proof {
                assert(bit(pieces, from as int));
                assert(src(from as int) == collect(end as int, dirs));
                assert(base + collect(end as int, dirs) =~= done + collect(from + 1, src));
                k = from + 1;
            }
            left = rest;
        }
        proof {
            assert forall|j: int| k <= j < 64 implies (#[trigger] src(j)).len() == 0 by {
                assert(!bit(left, j));
            }
            lemma_collect_skip(k, 64, src);
        }
    }

    /// Pushes one castling move of the king on `king`, if the position
    /// allows it.
    fn emit_castle<T: MovesContainer>(
        &self,
        container: &mut T,
        occupancy: u64,
        attacked: u64,
        white: bool,
        king: ChessPosition,
        to: ChessPosition,
        a: ChessPosition,
        b: ChessPosition,
        c: ChessPosition,
        Ghost(done): Ghost<Seq<Move>>,
    )
        requires
            filled(old(container), done),
            occupancy == self.occupancy(),
            forall|sq: int| #[trigger] bit(attacked, sq) == self.attacked(!white, sq),
            bit(of_colour(self.whites, self.kings, white), king as int),
            2 <= king < 62,
            to == king + 2 || to == king - 2,
            0 <= a < 64,
            0 <= b < 64,
            0 <= c < 64,
        ensures
            filled(
                final(container),
                done + self.castle(white, king as int, to as int, a as int, b as int, c as int),
            ),
    {
        let step: i8 = if to > king { 1 } else { -1 };
        if !is_set(occupancy, a) && !is_set(occupancy, b) && !is_set(occupancy, c) && !is_set(
            attacked,
            king,
        ) && !is_set(attacked, king + step) && !is_set(attacked, king + 2 * step) {
            emit(container, Move::new(king, to, white), Ghost(done));
            assert(done.push(move_of(white, king as int, to as int, MoveQuality::Motion)) =~= done
                + self.castle(white, king as int, to as int, a as int, b as int, c as int));
        } else {
            assert(done =~= done + self.castle(
                white,
                king as int,
                to as int,
                a as int,
                b as int,
                c as int,
            ));
        }
    }

    /// Pushes the castling moves of one side. The squares that the other
    /// side attacks are looked for only where a king stands at home with
    /// empty squares beside it.
    fn emit_castles<T: MovesContainer>(
        &self,
        container: &mut T,
        occupancy: u64,
        white: bool,
        Ghost(done): Ghost<Seq<Move>>,
    )
        requires
            filled(old(container), done),
            occupancy == self.occupancy(),
        ensures
            filled(final(container), done + self.castle_moves(white)),
    {
        let home: i8 = if white { 4 } else { 60 };
        let moved = if white {
            is_set(self.flags, FLAG_WHITE_KING_MOVED)
        } else {
            is_set(self.flags, FLAG_BLACK_KING_MOVED)
        };
        let kings = pieces_for_color(self.whites, self.kings, white);
        let ghost short = self.castle(
            white,
            home as int,
            home + 2,
            home + 1,
            home + 2,
            home + 2,
        );
        let ghost long = self.castle(white, home as int, home - 2, home - 1, home - 2, home - 3);
        assert(self.castle_moves(white) == if moved {
            Seq::<Move>::empty()
        } else {
            short + long
        });
        if moved || !is_set(kings, home) {
            assert(done =~= done + self.castle_moves(white));
            return ;
        }
        let short_free = !is_set(occupancy, home + 1) && !is_set(occupancy, home + 2);
        let long_free = !is_set(occupancy, home - 1) && !is_set(occupancy, home - 2) && !is_set(
            occupancy,
            home - 3,
        );
        if !short_free && !long_free {
            assert(done =~= done + self.castle_moves(white));
            return ;
        }
        let attacked = self.get_attacked_squares(!white);
        self.emit_castle(
            container,
            occupancy,
            attacked,
            white,
            home,
            home + 2,
            home + 1,
            home + 2,
            home + 2,
            Ghost(done),
        );
        self.emit_castle(
            container,
            occupancy,
            attacked,
            white,
            home,
            home - 2,
            home - 1,
            home - 2,
            home - 3,
            Ghost(done + short),
        );
        assert(done + short + long =~= done + self.castle_moves(white));
    }

    /// Empties the container and fills it with all the moves of the given
    /// side.
    pub fn update_move_container<T: MovesContainer>(&self, container: &mut T, white_playing: bool)
        requires
            self.pawns_inside(),
        ensures
            filled(final(container), self.moves(white_playing)),
    {
        container.reset();
        let occupancy = self.occupancy_mask();
        let ghost mut done: Seq<Move> = Seq::empty();
        self.emit_steppers(container, occupancy, white_playing, Type::Knight, Ghost(done));
        proof {
            done = done + self.knight_moves(white_playing);
        }
        self.emit_steppers(container, occupancy, white_playing, Type::King, Ghost(done));
        proof {
            done = done + self.king_moves(white_playing);
        }
        self.emit_pawn_captures(container, occupancy, white_playing, Ghost(done));
        proof {
            done = done + self.pawn_captures(white_playing);
        }
        self.emit_pawn_pushes(container, occupancy, white_playing, Ghost(done));
        proof {
            done = done + self.pawn_pushes(white_playing);
        }
        let rooks = pieces_for_color(self.whites, self.rooks, white_playing);
        self.fill_attacked_squares_from_sliding_piece(container, rooks, Type::Rook, occupancy, 0, 4, white_playing, Ghost(done));
        proof {
            done = done + self.slider_moves(white_playing, Type::Rook, rooks, 0, 4);
        }
        let bishops = pieces_for_color(self.whites, self.bishops, white_playing);
        self.fill_attacked_squares_from_sliding_piece(
            container,
            bishops,
            Type::Bishop,
            occupancy,
            4,
            8,
            white_playing,
            Ghost(done),
        );
        proof {
            done = done + self.slider_moves(white_playing, Type::Bishop, bishops, 4, 8);
        }
        let queens = pieces_for_color(self.whites, self.queens, white_playing);
        self.fill_attacked_squares_from_sliding_piece(
            container,
            queens,
            Type::Queen,
            occupancy,
            0,
            8,
            white_playing,
            Ghost(done),
        );
        proof {
            done = done + self.slider_moves(white_playing, Type::Queen, queens, 0, 8);
        }
        self.emit_castles(container, occupancy, white_playing, Ghost(done));
        proof {
            done = done + self.castle_moves(white_playing);
            assert(done =~= self.moves(white_playing));
        }
    }
}

} // verus!
