//! The squares that one side attacks.

use vstd::prelude::*;
use crate::bits::{bit, of_colour, pieces_for_color, take_lowest, set_at, is_set, group_bits};
use crate::game::ChessGame;
use crate::precomputation::{
    pawn_reaches, knight_reaches, king_reaches, ray_len, ray_square, rank_step, file_step,
    lemma_ray_square, pawn_attack_mask, knight_attack_mask, king_attack_mask, ray_length,
    ray_offset,
};
use crate::utils::ChessPosition;

verus! {

broadcast use group_bits;

impl ChessGame {
    /// The first `k` squares of the ray that leaves `from` in direction
    /// `dir` are empty.
    pub open spec fn clear_path(self, dir: int, from: int, k: int) -> bool {
        forall|j: int| 0 <= j < k ==> !self.occupied(#[trigger] ray_square(dir, from, j))
    }

    /// A sliding piece on `from` that looks in direction `dir` sees `to`: the
    /// square is on the ray and every square before it is empty.
    pub open spec fn slider_sees(self, dir: int, from: int, to: int) -> bool {
        exists|k: int|
            0 <= k < ray_len(dir, from) && #[trigger] ray_square(dir, from, k) == to
                && self.clear_path(dir, from, k)
    }

    /// A pawn of the given side attacks `to`.
    pub open spec fn pawn_attacked(self, white: bool, to: int) -> bool {
        exists|from: int|
            #[trigger] bit(of_colour(self.whites, self.pawns, white), from) && pawn_reaches(
                white,
                from,
                to,
            )
    }

    /// A knight of the given side attacks `to`.
    pub open spec fn knight_attacked(self, white: bool, to: int) -> bool {
        exists|from: int|
            #[trigger] bit(of_colour(self.whites, self.knights, white), from) && knight_reaches(
                from,
                to,
            )
    }

    /// A king of the given side attacks `to`.
    pub open spec fn king_attacked(self, white: bool, to: int) -> bool {
        exists|from: int|
            #[trigger] bit(of_colour(self.whites, self.kings, white), from) && king_reaches(
                from,
                to,
            )
    }

    /// One of the sliding pieces on the squares of `pieces` sees `to` in one
    /// of the directions from `first` up to, not including, `end`.
    pub open spec fn sliders_see(self, pieces: u64, first: int, end: int, to: int) -> bool {
        exists|from: int, dir: int|
            #![trigger bit(pieces, from), ray_len(dir, from)]
            bit(pieces, from) && first <= dir < end && self.slider_sees(dir, from, to)
    }

    /// A rook of the given side attacks `to`.
    pub open spec fn rook_attacked(self, white: bool, to: int) -> bool {
        self.sliders_see(of_colour(self.whites, self.rooks, white), 0, 4, to)
    }

    /// A bishop of the given side attacks `to`.
    pub open spec fn bishop_attacked(self, white: bool, to: int) -> bool {
        self.sliders_see(of_colour(self.whites, self.bishops, white), 4, 8, to)
    }

    /// A queen of the given side attacks `to`.
    pub open spec fn queen_attacked(self, white: bool, to: int) -> bool {
        self.sliders_see(of_colour(self.whites, self.queens, white), 0, 8, to)
    }

    /// A piece of the given side attacks `to`.
    pub open spec fn attacked(self, white: bool, to: int) -> bool {
        ||| self.pawn_attacked(white, to)
        ||| self.knight_attacked(white, to)
        ||| self.king_attacked(white, to)
        ||| self.rook_attacked(white, to)
        ||| self.bishop_attacked(white, to)
        ||| self.queen_attacked(white, to)
    }

    /// All squares attacked by the given side.
    pub fn get_attacked_squares(&self, white_playing: bool) -> (r: u64)
        ensures
            forall|to: int| #[trigger] bit(r, to) == self.attacked(white_playing, to),
    {
        self.get_attacked_squares_bishop(white_playing) | self.get_attacked_squares_knight(
            white_playing,
        ) | self.get_attacked_squares_king(white_playing) | self.get_attacked_squares_pawn(
            white_playing,
        ) | self.get_attacked_squares_queen(white_playing) | self.get_attacked_squares_rook(
            white_playing,
        )
    }

    /// The squares attacked by the pawns of the given side.
    pub fn get_attacked_squares_pawn(&self, white_playing: bool) -> (r: u64)
        ensures
            forall|to: int| #[trigger] bit(r, to) == self.pawn_attacked(white_playing, to),
    {
        let mut attacks: u64 = 0;
        let all = pieces_for_color(self.whites, self.pawns, white_playing);
        let mut left = all;
        while left != 0
            invariant
                all == of_colour(self.whites, self.pawns, white_playing),
                forall|j: int| #[trigger] bit(left, j) ==> bit(all, j),
                forall|to: int| #[trigger]
                    bit(attacks, to) == (exists|from: int|
                        #[trigger] bit(all, from) && !bit(left, from) && pawn_reaches(
                            white_playing,
                            from,
                            to,
                        )),
            decreases left,
        {
            let (sq, rest) = take_lowest(left);
            let mask = pawn_attack_mask(white_playing, sq);
            let ghost was = left;
            attacks = attacks | mask;
            left = rest;
            proof {

                assert forall|to: int| #[trigger]
                    bit(attacks, to) == (exists|from: int|
                        #[trigger] bit(all, from) && !bit(left, from) && pawn_reaches(
                            white_playing,
                            from,
                            to,
                        )) by {
                    if bit(attacks, to) {
                        if bit(mask, to) {
                            assert(bit(all, sq as int) && !bit(left, sq as int));
                        } else {
                            let f = choose|from: int|
                                #[trigger] bit(all, from) && !bit(was, from) && pawn_reaches(
                                    white_playing,
                                    from,
                                    to,
                                );
                            assert(bit(all, f) && !bit(left, f));
                        }
                    }
                }
            }
        }
        attacks
    }

    /// The squares attacked by the knights of the given side.
    pub fn get_attacked_squares_knight(&self, white_playing: bool) -> (r: u64)
        ensures
            forall|to: int| #[trigger] bit(r, to) == self.knight_attacked(white_playing, to),
    {
        let mut attacks: u64 = 0;
        let all = pieces_for_color(self.whites, self.knights, white_playing);
        let mut left = all;
        while left != 0
            invariant
                all == of_colour(self.whites, self.knights, white_playing),
                forall|j: int| #[trigger] bit(left, j) ==> bit(all, j),
                forall|to: int| #[trigger]
                    bit(attacks, to) == (exists|from: int|
                        #[trigger] bit(all, from) && !bit(left, from) && knight_reaches(from, to)),
            decreases left,
        {
            let (sq, rest) = take_lowest(left);
            let mask = knight_attack_mask(sq);
            let ghost was = left;
            attacks = attacks | mask;
            left = rest;
            proof {
                assert forall|to: int| #[trigger]
                    bit(attacks, to) == (exists|from: int|
                        #[trigger] bit(all, from) && !bit(left, from) && knight_reaches(
                            from,
                            to,
                        )) by {
                    if bit(attacks, to) {
                        if bit(mask, to) {
                            assert(bit(all, sq as int) && !bit(left, sq as int));
                        } else {
                            let f = choose|from: int|
                                #[trigger] bit(all, from) && !bit(was, from) && knight_reaches(
                                    from,
                                    to,
                                );
                            assert(bit(all, f) && !bit(left, f));
                        }
                    }
                }
            }
        }
        attacks
    }

    /// The squares attacked by the kings of the given side.
    pub fn get_attacked_squares_king(&self, white_playing: bool) -> (r: u64)
        ensures
            forall|to: int| #[trigger] bit(r, to) == self.king_attacked(white_playing, to),
    {
        let mut attacks: u64 = 0;
        let all = pieces_for_color(self.whites, self.kings, white_playing);
        let mut left = all;
        while left != 0
            invariant
                all == of_colour(self.whites, self.kings, white_playing),
                forall|j: int| #[trigger] bit(left, j) ==> bit(all, j),
                forall|to: int| #[trigger]
                    bit(attacks, to) == (exists|from: int|
                        #[trigger] bit(all, from) && !bit(left, from) && king_reaches(from, to)),
            decreases left,
        {
            let (sq, rest) = take_lowest(left);
            let mask = king_attack_mask(sq);
            let ghost was = left;
            attacks = attacks | mask;
            left = rest;
            proof {
                assert forall|to: int| #[trigger]
                    bit(attacks, to) == (exists|from: int|
                        #[trigger] bit(all, from) && !bit(left, from) && king_reaches(
                            from,
                            to,
                        )) by {
                    if bit(attacks, to) {
                        if bit(mask, to) {
                            assert(bit(all, sq as int) && !bit(left, sq as int));
                        } else {
                            let f = choose|from: int|
                                #[trigger] bit(all, from) && !bit(was, from) && king_reaches(
                                    from,
                                    to,
                                );
                            assert(bit(all, f) && !bit(left, f));
                        }
                    }
                }
            }
        }
        attacks
    }

    /// `attacks` together with the squares that a sliding piece on `from`
    /// sees in direction `dir`.
    fn add_ray_attacks(&self, attacks: u64, occupancy: u64, dir: usize, from: ChessPosition) -> (r:
        u64)
        requires
            dir < 8,
            0 <= from < 64,
            occupancy == self.occupancy(),
        ensures
            forall|to: int|
                #[trigger] bit(r, to) == (bit(attacks, to) || self.slider_sees(
                    dir as int,
                    from as int,
                    to,
                )),
    {
        let n = ray_length(dir, from);
        let step = ray_offset(dir);
        let mut acc = attacks;
        let mut k: i8 = 0;
        let mut pos: i8 = from;
        let mut blocked = false;
        while k < n && !blocked
            invariant
                dir < 8,
                0 <= from < 64,
                occupancy == self.occupancy(),
                0 <= k <= n,
                n == ray_len(dir as int, from as int),
                step == 8 * rank_step(dir as int) + file_step(dir as int),
                pos == from + k * step,
                0 <= pos < 64,
                !blocked ==> self.clear_path(dir as int, from as int, k as int),
                blocked ==> k > 0 && self.clear_path(dir as int, from as int, k - 1)
                    && self.occupied(ray_square(dir as int, from as int, k - 1)),
                forall|to: int|
                    #[trigger] bit(acc, to) == (bit(attacks, to) || exists|j: int|
                        0 <= j < k && #[trigger] ray_square(dir as int, from as int, j) == to
                            && self.clear_path(dir as int, from as int, j)),
            decreases n - k,
        {
            proof {
                lemma_ray_square(dir as int, from as int, k as int);
                assert(from + (k + 1) * step == from + k * step + step) by (nonlinear_arith);
            }
            pos = pos + step;
            acc = set_at(acc, pos);
            if is_set(occupancy, pos) {
                blocked = true;
            }
            proof {
                let d = dir as int;
                let f = from as int;
                assert(pos == ray_square(d, f, k as int));
                assert forall|to: int|
                    #[trigger] bit(acc, to) == (bit(attacks, to) || exists|j: int|
                        0 <= j < k + 1 && #[trigger] ray_square(d, f, j) == to && self.clear_path(
                            d,
                            f,
                            j,
                        )) by {
                    if bit(acc, to) && !bit(attacks, to) {
                        if to == pos {
                            assert(ray_square(d, f, k as int) == to && self.clear_path(
                                d,
                                f,
                                k as int,
                            ));
                        } else {
                            let j = choose|j: int|
                                0 <= j < k && #[trigger] ray_square(d, f, j) == to
                                    && self.clear_path(d, f, j);
                            assert(0 <= j < k + 1 && ray_square(d, f, j) == to && self.clear_path(
                                d,
                                f,
                                j,
                            ));
                        }
                    }
                }
                if !blocked {
                    assert forall|j: int| 0 <= j < k + 1 implies !self.occupied(
                        #[trigger] ray_square(d, f, j),
                    ) by {}
                }
            }
            k = k + 1;
        }
        proof {
            let d = dir as int;
            let f = from as int;
            assert forall|to: int|
                #[trigger] bit(acc, to) == (bit(attacks, to) || self.slider_sees(d, f, to)) by {
                if self.slider_sees(d, f, to) {
                    let j = choose|j: int|
                        0 <= j < ray_len(d, f) && #[trigger] ray_square(d, f, j) == to
                            && self.clear_path(d, f, j);
                    if j >= k {
                        assert(blocked);
                        assert(!self.occupied(ray_square(d, f, k - 1)));
                    }
                    assert(0 <= j < k && ray_square(d, f, j) == to && self.clear_path(d, f, j));
                }
                if bit(acc, to) && !bit(attacks, to) {
                    let j = choose|j: int|
                        0 <= j < k && #[trigger] ray_square(d, f, j) == to && self.clear_path(
                            d,
                            f,
                            j,
                        );
                    assert(0 <= j < ray_len(d, f) && ray_square(d, f, j) == to && self.clear_path(
                        d,
                        f,
                        j,
                    ));
                }
            }
        }
        acc
    }

    /// The squares that the sliding pieces on the squares of `pieces` see in
    /// the directions from `first` up to, not including, `end`. A piece sees
    /// along a ray up to and including the first occupied square.
    pub fn get_attacked_squares_from_sliding_piece(
        &self,
        pieces: u64,
        first: usize,
        end: usize,
    ) -> (r: u64)
        requires
            first <= end <= 8,
        ensures
            forall|to: int|
                #[trigger] bit(r, to) == self.sliders_see(pieces, first as int, end as int, to),
    {
        let occupancy = self.occupancy_mask();
        let mut attacks: u64 = 0;
        let mut left = pieces;
        while left != 0
            invariant
                first <= end <= 8,
                occupancy == self.occupancy(),
                forall|j: int| #[trigger] bit(left, j) ==> bit(pieces, j),
                forall|to: int| #[trigger]
                    bit(attacks, to) == (exists|from: int, dir: int|
                        #![trigger bit(pieces, from), ray_len(dir, from)]
                        bit(pieces, from) && !bit(left, from) && first <= dir < end
                            && self.slider_sees(dir, from, to)),
            decreases left,
        {
            let (sq, rest) = take_lowest(left);
            let ghost was = left;
            let ghost start = attacks;
            let mut dir = first;
            while dir < end
                invariant
                    first <= dir <= end <= 8,
                    0 <= sq < 64,
                    occupancy == self.occupancy(),
                    forall|to: int|
                        #[trigger] bit(attacks, to) == (bit(start, to) || exists|d: int|
                            first <= d < dir && self.slider_sees(
                                d,
                                sq as int,
                                to,
                            ) && #[trigger] ray_len(d, sq as int) >= 0),
                decreases end - dir,
            {
                attacks = self.add_ray_attacks(attacks, occupancy, dir, sq);
                proof {
                    assert forall|to: int|
                        #[trigger] bit(attacks, to) == (bit(start, to) || exists|d: int|
                            first <= d < dir + 1 && self.slider_sees(
                                d,
                                sq as int,
                                to,
                            ) && #[trigger] ray_len(d, sq as int) >= 0) by {
                        if bit(attacks, to) && !bit(start, to) {
                            if self.slider_sees(dir as int, sq as int, to) {
                                assert(ray_len(dir as int, sq as int) >= 0);
                            } else {
                                let d = choose|d: int|
                                    first <= d < dir && self.slider_sees(d, sq as int, to)
                                        && #[trigger] ray_len(d, sq as int) >= 0;
                                assert(first <= d < dir + 1 && self.slider_sees(d, sq as int, to)
                                    && ray_len(d, sq as int) >= 0);
                            }
                        }
                    }
                }
                dir = dir + 1;
            }
            left = rest;
            proof {
                assert forall|to: int| #[trigger]
                    bit(attacks, to) == (exists|from: int, dir: int|
                        #![trigger bit(pieces, from), ray_len(dir, from)]
                        bit(pieces, from) && !bit(left, from) && first <= dir < end
                            && self.slider_sees(dir, from, to)) by {
                    if bit(attacks, to) {
                        if bit(start, to) {
                            let (f, d) = choose|from: int, dir: int|
                                #![trigger bit(pieces, from), ray_len(dir, from)]
                                bit(pieces, from) && !bit(was, from) && first <= dir < end
                                    && self.slider_sees(dir, from, to);
                            assert(bit(pieces, f) && !bit(left, f) && first <= d < end
                                && self.slider_sees(d, f, to) && ray_len(d, f) == ray_len(d, f));
                        } else {
                            let d = choose|d: int|
                                first <= d < end && self.slider_sees(d, sq as int, to)
                                    && #[trigger] ray_len(d, sq as int) >= 0;
                            assert(bit(pieces, sq as int) && !bit(left, sq as int) && first <= d
                                < end && self.slider_sees(d, sq as int, to) && ray_len(
                                d,
                                sq as int,
                            ) == ray_len(d, sq as int));
                        }
                    }
                    if exists|from: int, dir: int|
                        #![trigger bit(pieces, from), ray_len(dir, from)]
                        bit(pieces, from) && !bit(left, from) && first <= dir < end
                            && self.slider_sees(dir, from, to) {
                        let (f, d) = choose|from: int, dir: int|
                            #![trigger bit(pieces, from), ray_len(dir, from)]
                            bit(pieces, from) && !bit(left, from) && first <= dir < end
                                && self.slider_sees(dir, from, to);
                        if f == sq {
                            assert(self.slider_sees(d, sq as int, to) && ray_len(d, sq as int)
                                >= 0) by {
                                let k = choose|k: int|
                                    0 <= k < ray_len(d, f) && #[trigger] ray_square(d, f, k) == to
                                        && self.clear_path(d, f, k);
                            }
                        } else {
                            assert(bit(pieces, f) && !bit(was, f) && first <= d < end
                                && self.slider_sees(d, f, to) && ray_len(d, f) == ray_len(d, f));
                        }
                    }
                }
            }
        }
        proof {
            assert forall|to: int|
                #[trigger] bit(attacks, to) == self.sliders_see(
                    pieces,
                    first as int,
                    end as int,
                    to,
                ) by {
                if self.sliders_see(pieces, first as int, end as int, to) {
                    let (f, d) = choose|from: int, dir: int|
                        #![trigger bit(pieces, from), ray_len(dir, from)]
                        bit(pieces, from) && first <= dir < end && self.slider_sees(dir, from, to);
                    assert(bit(pieces, f) && !bit(left, f) && first <= d < end && self.slider_sees(
                        d,
                        f,
                        to,
                    ) && ray_len(d, f) == ray_len(d, f));
                }
            }
        }
        attacks
    }

    /// The squares attacked by the rooks of the given side.
    pub fn get_attacked_squares_rook(&self, white_playing: bool) -> (r: u64)
        ensures
            forall|to: int| #[trigger] bit(r, to) == self.rook_attacked(white_playing, to),
    {
        let rooks = pieces_for_color(self.whites, self.rooks, white_playing);
        self.get_attacked_squares_from_sliding_piece(rooks, 0, 4)
    }

    /// The squares attacked by the bishops of the given side.
    pub fn get_attacked_squares_bishop(&self, white_playing: bool) -> (r: u64)
        ensures
            forall|to: int| #[trigger] bit(r, to) == self.bishop_attacked(white_playing, to),
    {
        let bishops = pieces_for_color(self.whites, self.bishops, white_playing);
        self.get_attacked_squares_from_sliding_piece(bishops, 4, 8)
    }

    /// The squares attacked by the queens of the given side.
    pub fn get_attacked_squares_queen(&self, white_playing: bool) -> (r: u64)
        ensures
            forall|to: int| #[trigger] bit(r, to) == self.queen_attacked(white_playing, to),
    {
        let queens = pieces_for_color(self.whites, self.queens, white_playing);
        self.get_attacked_squares_from_sliding_piece(queens, 0, 8)
    }
}

} // verus!
