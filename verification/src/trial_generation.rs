//! Move generation by trial: every offset by which a piece could travel is
//! tried, and the moves that pass the test of `rules` are kept.

use vstd::prelude::*;
use crate::bits::{bit, of_colour, pieces_for_color, take_lowest, group_bits};
use crate::chess_type::Type;
use crate::game::ChessGame;
use crate::generation::filled;
use crate::motion_iterator::StepMotionIterator;
use crate::moves::{
    Move, WHITE_PAWN_MOVES, BLACK_PAWN_MOVES, KNIGHT_MOVES, KING_MOVES, KING_SPECIAL_MOVES,
};
use crate::moves_container::{
    MovesContainer, place_all, lemma_place_all_push, lemma_place_all_concat,
};
use crate::sequences::{collect, lemma_collect_skip};

verus! {

broadcast use group_bits;

impl ChessGame {
    /// The move from `from` by the `i`-th of `offsets`, if it passes the test.
    pub open spec fn tried_offset(self, white: bool, t: Type, from: int, offsets: Seq<i8>) -> spec_fn(
        int,
    ) -> Seq<Move> {
        |i: int| self.tried(white, t, from, from + offsets[i])
    }

    /// The moves from `from` by the offsets of `offsets` that pass the test,
    /// in the order of the offsets.
    pub open spec fn tried_offsets(self, white: bool, t: Type, from: int, offsets: Seq<i8>) -> Seq<
        Move,
    > {
        collect(offsets.len() as int, self.tried_offset(white, t, from, offsets))
    }

    /// The moves of the four walks from `from` in steps of `a`, `-a`, `b`
    /// and `-b`.
    pub open spec fn slides(self, white: bool, t: Type, from: int, a: int, b: int) -> Seq<Move> {
        self.slide(white, t, from, a, from) + self.slide(white, t, from, -a, from) + self.slide(
            white,
            t,
            from,
            b,
            from,
        ) + self.slide(white, t, from, -b, from)
    }

    /// The moves by trial of the piece on `from`.
    pub open spec fn tried_from(self, white: bool, from: int) -> Seq<Move> {
        match self.piece_at(from) {
            Some(Type::Pawn) => self.tried_offsets(
                white,
                Type::Pawn,
                from,
                if white { WHITE_PAWN_MOVES@ } else { BLACK_PAWN_MOVES@ },
            ),
            Some(Type::Knight) => self.tried_offsets(white, Type::Knight, from, KNIGHT_MOVES@),
            Some(Type::King) => self.tried_offsets(white, Type::King, from, KING_MOVES@)
                + self.tried_offsets(white, Type::King, from, KING_SPECIAL_MOVES@),
            Some(Type::Bishop) => self.slides(white, Type::Bishop, from, 9, 7),
            Some(Type::Rook) => self.slides(white, Type::Rook, from, 1, 8),
            Some(Type::Queen) => self.slides(white, Type::Queen, from, 9, 7) + self.slides(
                white,
                Type::Queen,
                from,
                1,
                8,
            ),
            None => Seq::empty(),
        }
    }

    /// The squares on which a piece of the given side stands.
    pub open spec fn side(self, white: bool) -> u64 {
        of_colour(self.whites, self.occupancy(), white)
    }

    /// The moves by trial of the piece of the given side on `from`, if one
    /// stands there.
    pub open spec fn tried_source(self, white: bool) -> spec_fn(int) -> Seq<Move> {
        |from: int|
            if bit(self.side(white), from) {
                self.tried_from(white, from)
            } else {
                Seq::empty()
            }
    }

    /// All the moves by trial of the given side, by square of departure.
    pub open spec fn tried_moves(self, white: bool) -> Seq<Move> {
        collect(64, self.tried_source(white))
    }

    /// Pushes the moves from `from` by the offsets of `motions` that a piece
    /// of type `t` may make.
    pub fn fill_move_container_with_list_of_moves<C: MovesContainer>(
        &self,
        to_fill: &mut C,
        from: i8,
        motions: &[i8],
        is_white: bool,
        t: Type,
    )
        requires
            old(to_fill).well_formed(),
            0 <= from < 64,
            self.occupied(from as int),
            forall|i: int| 0 <= i < motions@.len() ==> -64 <= #[trigger] motions@[i] <= 64,
        ensures
            final(to_fill).well_formed(),
            final(to_fill).pending() == place_all::<C>(
                old(to_fill).pending(),
                self.tried_offsets(is_white, t, from as int, motions@),
            ),
            final(to_fill).total() == old(to_fill).total() + self.tried_offsets(
                is_white,
                t,
                from as int,
                motions@,
            ).len(),
    {
        let ghost f = self.tried_offset(is_white, t, from as int, motions@);
        let ghost start = to_fill.pending();
        let ghost count = to_fill.total();
        let mut i: usize = 0;
        while i < motions.len()
            invariant
                i <= motions@.len(),
                0 <= from < 64,
                self.occupied(from as int),
                forall|j: int| 0 <= j < motions@.len() ==> -64 <= #[trigger] motions@[j] <= 64,
                f == self.tried_offset(is_white, t, from as int, motions@),
                to_fill.well_formed(),
                to_fill.pending() == place_all::<C>(start, collect(i as int, f)),
                to_fill.total() == count + collect(i as int, f).len(),
            decreases motions@.len() - i,
        {
            let motion = motions[i];
            let des: i8 = from + motion;
            let ghost done = collect(i as int, f);
            if des >= 0 && des < 64 {
                let mut m = Move::new(from, des, is_white);
                if self.is_move_valid_for_type(&m, t) {
                    if let Some(captured) = self.type_at_index(m.to) {
                        let piece = self.type_at_index(m.from).unwrap();
                        m.set_quality_from_scores(piece, captured);
                    }
                    proof {
                        lemma_place_all_push::<C>(start, done, m);
                        assert(done.push(m) =~= done + f(i as int));
                    }
                    to_fill.push(m);
                } else {
                    assert(done =~= done + f(i as int));
                }
            } else {
                assert(done =~= done + f(i as int));
            }
            i = i + 1;
        }
    }

    /// Pushes the moves that the walk has yet to yield.
    pub fn fill_move_container_with_iterator<C: MovesContainer>(
        &self,
        to_fill: &mut C,
        iter: &mut StepMotionIterator,
    )
        requires
            old(to_fill).well_formed(),
            old(iter).well_formed(),
            self.occupied(old(iter).origin()),
        ensures
            final(to_fill).well_formed(),
            final(to_fill).pending() == place_all::<C>(
                old(to_fill).pending(),
                old(iter).remaining(*self),
            ),
            final(to_fill).total() == old(to_fill).total() + old(iter).remaining(*self).len(),
    {
        let ghost all = iter.remaining(*self);
        let ghost start = to_fill.pending();
        let ghost count = to_fill.total();
        let ghost mut done: Seq<Move> = Seq::empty();
        assert(done + all =~= all);
        loop
            invariant_except_break
                iter.well_formed(),
                all == done + iter.remaining(*self),
                to_fill.pending() == place_all::<C>(start, done),
                to_fill.total() == count + done.len(),
            invariant
                iter.origin() == old(iter).origin(),
                self.occupied(iter.origin()),
                to_fill.well_formed(),
            ensures
                to_fill.pending() == place_all::<C>(start, all),
                to_fill.total() == count + all.len(),
            decreases iter.remaining(*self).len(),
        {
            let ghost rest = iter.remaining(*self);
            match iter.next(self) {
                Some(m) => {
                    proof {
                        lemma_place_all_push::<C>(start, done, m);
                        assert(done.push(m) + rest.drop_first() =~= done + rest);
                        done = done.push(m);
                    }
                    to_fill.push(m);
                },
                None => {
                    proof {
                        assert(done + rest =~= done);
                    }
                    break ;
                },
            }
        }
    }

    /// Pushes the moves of the four walks from `from` in steps of `a`, `-a`,
    /// `b` and `-b`.
    fn fill_slides<C: MovesContainer>(
        &self,
        container: &mut C,
        from: i8,
        a: i8,
        b: i8,
        is_white: bool,
        t: Type,
        Ghost(done): Ghost<Seq<Move>>,
    )
        requires
            filled(old(container), done),
            0 <= from < 64,
            self.occupied(from as int),
            0 < a <= 9,
            0 < b <= 9,
        ensures
            filled(
                final(container),
                done + self.slides(is_white, t, from as int, a as int, b as int),
            ),
    {
        let ghost s1 = self.slide(is_white, t, from as int, a as int, from as int);
        let ghost s2 = self.slide(is_white, t, from as int, -a, from as int);
        let ghost s3 = self.slide(is_white, t, from as int, b as int, from as int);
        let ghost s4 = self.slide(is_white, t, from as int, -b, from as int);
        let mut it = StepMotionIterator::new(from, a, is_white, t);
        self.fill_move_container_with_iterator(container, &mut it);
        let mut it = StepMotionIterator::new(from, -a, is_white, t);
        self.fill_move_container_with_iterator(container, &mut it);
        let mut it = StepMotionIterator::new(from, b, is_white, t);
        self.fill_move_container_with_iterator(container, &mut it);
        let mut it = StepMotionIterator::new(from, -b, is_white, t);
        self.fill_move_container_with_iterator(container, &mut it);
        proof {
            lemma_place_all_concat::<C>(Seq::empty(), done, s1);
            lemma_place_all_concat::<C>(Seq::empty(), done + s1, s2);
            lemma_place_all_concat::<C>(Seq::empty(), done + s1 + s2, s3);
            lemma_place_all_concat::<C>(Seq::empty(), done + s1 + s2 + s3, s4);
            assert(done + s1 + s2 + s3 + s4 =~= done + (s1 + s2 + s3 + s4));
        }
    }

    /// Pushes the moves from `from` by the offsets of `motions`.
    fn fill_offsets<C: MovesContainer>(
        &self,
        container: &mut C,
        from: i8,
        motions: &[i8],
        is_white: bool,
        t: Type,
        Ghost(done): Ghost<Seq<Move>>,
    )
        requires
            filled(old(container), done),
            0 <= from < 64,
            self.occupied(from as int),
            forall|i: int| 0 <= i < motions@.len() ==> -64 <= #[trigger] motions@[i] <= 64,
        ensures
            filled(
                final(container),
                done + self.tried_offsets(is_white, t, from as int, motions@),
            ),
    {
        self.fill_move_container_with_list_of_moves(container, from, motions, is_white, t);
        proof {
            lemma_place_all_concat::<C>(
                Seq::empty(),
                done,
                self.tried_offsets(is_white, t, from as int, motions@),
            );
        }
    }

    /// Empties the container and fills it with the moves of the given side
    /// found by trial.
    pub fn update_move_container_old<T: MovesContainer>(&self, container: &mut T, is_white: bool)
        ensures
            filled(final(container), self.tried_moves(is_white)),
    {
        container.reset();
        let occupancy = self.occupancy_mask();
        let all = pieces_for_color(self.whites, occupancy, is_white);
        let mut left = all;
        let ghost mut k: int = 0;
        let ghost src = self.tried_source(is_white);
        while left != 0
            invariant
                0 <= k <= 64,
                all == self.side(is_white),
                src == self.tried_source(is_white),
                forall|j: int| #[trigger] bit(left, j) == (bit(all, j) && j >= k),
                filled(container, collect(k, src)),
            decreases left,
        {
            let (i, rest) = take_lowest(left);
            let ghost base = collect(i as int, src);
            proof {
                assert forall|j: int| k <= j < i implies (#[trigger] src(j)).len() == 0 by {
                    assert(!bit(left, j));
                }
                lemma_collect_skip(k, i as int, src);
                assert(bit(all, i as int));
                assert(base =~= base + Seq::<Move>::empty());
            }
            match self.type_at_index(i) {
                Some(Type::Pawn) => {
                    if is_white {
                        self.fill_offsets(
                            container,
                            i,
                            WHITE_PAWN_MOVES.as_slice(),
                            is_white,
                            Type::Pawn,
                            Ghost(base),
                        );
                    } else {
                        self.fill_offsets(
                            container,
                            i,
                            BLACK_PAWN_MOVES.as_slice(),
                            is_white,
                            Type::Pawn,
                            Ghost(base),
                        );
                    }
                },
                Some(Type::Knight) => {
                    self.fill_offsets(
                        container,
                        i,
                        KNIGHT_MOVES.as_slice(),
                        is_white,
                        Type::Knight,
                        Ghost(base),
                    );
                },
                Some(Type::King) => {
                    self.fill_offsets(
                        container,
                        i,
                        KING_MOVES.as_slice(),
                        is_white,
                        Type::King,
                        Ghost(base),
                    );
                    self.fill_offsets(
                        container,
                        i,
                        KING_SPECIAL_MOVES.as_slice(),
                        is_white,
                        Type::King,
                        Ghost(
                            base + self.tried_offsets(
                                is_white,
                                Type::King,
                                i as int,
                                KING_MOVES@,
                            ),
                        ),
                    );
                    assert(base + self.tried_offsets(is_white, Type::King, i as int, KING_MOVES@)
                        + self.tried_offsets(is_white, Type::King, i as int, KING_SPECIAL_MOVES@)
                        =~= base + src(i as int));
                },
                Some(Type::Bishop) => {
                    self.fill_slides(container, i, 9, 7, is_white, Type::Bishop, Ghost(base));
                },
                Some(Type::Rook) => {
                    self.fill_slides(container, i, 1, 8, is_white, Type::Rook, Ghost(base));
                },
                Some(Type::Queen) => {
                    self.fill_slides(container, i, 9, 7, is_white, Type::Queen, Ghost(base));
                    self.fill_slides(
                        container,
                        i,
                        1,
                        8,
                        is_white,
                        Type::Queen,
                        Ghost(base + self.slides(is_white, Type::Queen, i as int, 9, 7)),
                    );
                    assert(base + self.slides(is_white, Type::Queen, i as int, 9, 7) + self.slides(
                        is_white,
                        Type::Queen,
                        i as int,
                        1,
                        8,
                    ) =~= base + src(i as int));
                },
                None => {},
            }
            proof {
                assert(filled(container, base + src(i as int)));
                k = i + 1;
            }
            left = rest;
        }
        proof {
            assert forall|j: int| k <= j < 64 implies (#[trigger] src(j)).len() == 0 by {
                assert(!bit(left, j));
            }
            lemma_collect_skip(k, 64, src);
        }
    }
}

} // verus!
