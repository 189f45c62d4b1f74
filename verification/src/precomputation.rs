//! The geometry of the board: which squares each piece reaches from each
//! square, as bitboards, and the rays along which the sliding pieces travel.

use vstd::prelude::*;
use crate::bits::{bit, set_at, group_bits};
use crate::utils::ChessPosition;

verus! {

/// A pawn of the given colour standing on `from` attacks `to`: one rank
/// forward, one file to either side.
pub open spec fn pawn_reaches(white: bool, from: int, to: int) -> bool {
    &&& 0 <= from < 64
    &&& 0 <= to < 64
    &&& to / 8 == from / 8 + (if white { 1int } else { -1int })
    &&& (to % 8 == from % 8 + 1 || to % 8 == from % 8 - 1)
}

/// A knight standing on `from` attacks `to`: two squares one way and one
/// square the other.
pub open spec fn knight_reaches(from: int, to: int) -> bool {
    let dr = to / 8 - from / 8;
    let df = to % 8 - from % 8;
    &&& 0 <= from < 64
    &&& 0 <= to < 64
    &&& ((dr == 2 || dr == -2) && (df == 1 || df == -1) || (dr == 1 || dr == -1) && (df == 2
        || df == -2))
}

/// A king standing on `from` attacks `to`: a neighbouring square.
pub open spec fn king_reaches(from: int, to: int) -> bool {
    let dr = to / 8 - from / 8;
    let df = to % 8 - from % 8;
    &&& 0 <= from < 64
    &&& 0 <= to < 64
    &&& from != to
    &&& -1 <= dr <= 1
    &&& -1 <= df <= 1
}

/// Change of rank on one step in direction `dir`. The directions are, in
/// order, N, S, E, W, NE, NW, SE, SW.
pub open spec fn rank_step(dir: int) -> int {
    if dir == 0 || dir == 4 || dir == 5 {
        1
    } else if dir == 1 || dir == 6 || dir == 7 {
        -1
    } else {
        0
    }
}

/// Change of file on one step in direction `dir`.
pub open spec fn file_step(dir: int) -> int {
    if dir == 2 || dir == 4 || dir == 6 {
        1
    } else if dir == 3 || dir == 5 || dir == 7 {
        -1
    } else {
        0
    }
}

/// Number of steps from coordinate `c` to the edge when moving by `step`.
pub open spec fn room(c: int, step: int) -> int {
    if step > 0 {
        7 - c
    } else if step < 0 {
        c
    } else {
        7
    }
}

/// Number of squares on the ray that leaves `sq` in direction `dir`.
pub open spec fn ray_len(dir: int, sq: int) -> int {
    let a = room(sq / 8, rank_step(dir));
    let b = room(sq % 8, file_step(dir));
    if a <= b {
        a
    } else {
        b
    }
}

/// The `k`-th square of the ray that leaves `sq` in direction `dir`, the
/// neighbour of `sq` being number 0.
pub open spec fn ray_square(dir: int, sq: int, k: int) -> int {
    sq + (k + 1) * (8 * rank_step(dir) + file_step(dir))
}

/// The squares met when leaving `sq` in direction `dir` and stepping on to
/// the edge of the board, nearest first.
pub open spec fn ray(dir: int, sq: int) -> Seq<int> {
    Seq::new(ray_len(dir, sq) as nat, |k: int| ray_square(dir, sq, k))
}

/// Every square of a ray is on the board, on the rank and file that the
/// steps lead to.
pub proof fn lemma_ray_square(dir: int, sq: int, k: int)
    requires
        0 <= dir < 8,
        0 <= sq < 64,
        0 <= k < ray_len(dir, sq),
    ensures
        0 <= ray_square(dir, sq, k) < 64,
        ray_square(dir, sq, k) / 8 == sq / 8 + (k + 1) * rank_step(dir),
        ray_square(dir, sq, k) % 8 == sq % 8 + (k + 1) * file_step(dir),
{
    let r = sq / 8;
    let f = sq % 8;
    let dr = rank_step(dir);
    let df = file_step(dir);
    let nr = r + (k + 1) * dr;
    let nf = f + (k + 1) * df;
    assert(0 <= nr < 8 && 0 <= nf < 8) by (nonlinear_arith)
        requires
            0 <= r < 8,
            0 <= f < 8,
            -1 <= dr <= 1,
            -1 <= df <= 1,
            0 <= k,
            nr == r + (k + 1) * dr,
            nf == f + (k + 1) * df,
            dr > 0 ==> k < 7 - r,
            dr < 0 ==> k < r,
            df > 0 ==> k < 7 - f,
            df < 0 ==> k < f,
    ;
    assert(ray_square(dir, sq, k) == 8 * nr + nf) by (nonlinear_arith)
        requires
            ray_square(dir, sq, k) == sq + (k + 1) * (8 * dr + df),
            sq == 8 * r + f,
            nr == r + (k + 1) * dr,
            nf == f + (k + 1) * df,
    ;
}

/// `m` with the square at `(rank + dr, file + df)` added, if it is on the board.
fn with_offset(m: u64, rank: i8, file: i8, dr: i8, df: i8) -> (r: u64)
    requires
        0 <= rank < 8,
        0 <= file < 8,
        -2 <= dr <= 2,
        -2 <= df <= 2,
    ensures
        forall|t: int|
            #[trigger] bit(r, t) == (bit(m, t) || (0 <= t < 64 && t / 8 == rank + dr && t % 8
                == file + df)),
{
    broadcast use group_bits;

    let nr = rank + dr;
    let nf = file + df;
    if nr >= 0 && nr < 8 && nf >= 0 && nf < 8 {
        set_at(m, nr * 8 + nf)
    } else {
        m
    }
}

/// The squares that a pawn of the given colour attacks from `sq`.
pub fn pawn_attack_mask(white: bool, sq: ChessPosition) -> (m: u64)
    requires
        0 <= sq < 64,
    ensures
        forall|t: int| #[trigger] bit(m, t) == pawn_reaches(white, sq as int, t),
{
    broadcast use group_bits;

    let rank = sq / 8;
    let file = sq % 8;
    let dr: i8 = if white { 1 } else { -1 };
    let m = with_offset(0, rank, file, dr, -1);
    with_offset(m, rank, file, dr, 1)
}

/// The squares that a knight attacks from `sq`.
pub fn knight_attack_mask(sq: ChessPosition) -> (m: u64)
    requires
        0 <= sq < 64,
    ensures
        forall|t: int| #[trigger] bit(m, t) == knight_reaches(sq as int, t),
{
    broadcast use group_bits;

    let rank = sq / 8;
    let file = sq % 8;
    let m = with_offset(0, rank, file, 2, 1);
    let m = with_offset(m, rank, file, 2, -1);
    let m = with_offset(m, rank, file, -2, 1);
    let m = with_offset(m, rank, file, -2, -1);
    let m = with_offset(m, rank, file, 1, 2);
    let m = with_offset(m, rank, file, 1, -2);
    let m = with_offset(m, rank, file, -1, 2);
    with_offset(m, rank, file, -1, -2)
}

/// The squares that a king attacks from `sq`.
pub fn king_attack_mask(sq: ChessPosition) -> (m: u64)
    requires
        0 <= sq < 64,
    ensures
        forall|t: int| #[trigger] bit(m, t) == king_reaches(sq as int, t),
{
    broadcast use group_bits;

    let rank = sq / 8;
    let file = sq % 8;
    let m = with_offset(0, rank, file, 0, 1);
    let m = with_offset(m, rank, file, 1, 1);
    let m = with_offset(m, rank, file, 1, 0);
    let m = with_offset(m, rank, file, 1, -1);
    let m = with_offset(m, rank, file, 0, -1);
    let m = with_offset(m, rank, file, -1, -1);
    let m = with_offset(m, rank, file, -1, 0);
    with_offset(m, rank, file, -1, 1)
}

/// The offset between neighbouring squares of a ray in direction `dir`.
pub fn ray_offset(dir: usize) -> (d: i8)
    requires
        dir < 8,
    ensures
        d == 8 * rank_step(dir as int) + file_step(dir as int),
{
    if dir == 0 {
        8
    } else if dir == 1 {
        -8
    } else if dir == 2 {
        1
    } else if dir == 3 {
        -1
    } else if dir == 4 {
        9
    } else if dir == 5 {
        7
    } else if dir == 6 {
        -7
    } else {
        -9
    }
}

/// The number of squares on the ray that leaves `sq` in direction `dir`.
pub fn ray_length(dir: usize, sq: ChessPosition) -> (n: i8)
    requires
        dir < 8,
        0 <= sq < 64,
    ensures
        n == ray_len(dir as int, sq as int),
        0 <= n <= 7,
{
    let rank = sq / 8;
    let file = sq % 8;
    let a: i8 = if dir == 0 || dir == 4 || dir == 5 {
        7 - rank
    } else if dir == 1 || dir == 6 || dir == 7 {
        rank
    } else {
        7
    };
    let b: i8 = if dir == 2 || dir == 4 || dir == 6 {
        7 - file
    } else if dir == 3 || dir == 5 || dir == 7 {
        file
    } else {
        7
    };
    if a <= b {
        a
    } else {
        b
    }
}

/// The ray that leaves `sq` in direction `dir`, nearest square first.
pub fn sliding_ray(dir: usize, sq: ChessPosition) -> (v: Vec<ChessPosition>)
    requires
        dir < 8,
        0 <= sq < 64,
    ensures
        v@.len() == ray(dir as int, sq as int).len(),
        forall|k: int| 0 <= k < v@.len() ==> v@[k] as int == #[trigger] ray(dir as int, sq as int)[k],
{
    let n = ray_length(dir, sq);
    let step = ray_offset(dir);
    let mut v: Vec<ChessPosition> = Vec::new();
    let mut k: i8 = 0;
    let mut pos: i8 = sq;
    while k < n
        invariant
            dir < 8,
            0 <= sq < 64,
            0 <= k <= n,
            n == ray_len(dir as int, sq as int),
            step == 8 * rank_step(dir as int) + file_step(dir as int),
            pos == sq + k * step,
            0 <= pos < 64,
            v@.len() == k,
            forall|j: int| 0 <= j < k ==> v@[j] as int == ray_square(dir as int, sq as int, j),
        decreases n - k,
    {
        proof {
            lemma_ray_square(dir as int, sq as int, k as int);
            assert(sq + (k + 1) * step == sq + k * step + step) by (nonlinear_arith);
        }
        pos = pos + step;
        v.push(pos);
        k = k + 1;
    }
    v
}

/// The pawn attack masks of all squares, for white and for black.
pub fn pawn_attacks() -> (t: ([u64; 64], [u64; 64]))
    ensures
        forall|sq: int, to: int|
            0 <= sq < 64 ==> #[trigger] bit(t.0[sq], to) == pawn_reaches(true, sq, to),
        forall|sq: int, to: int|
            0 <= sq < 64 ==> #[trigger] bit(t.1[sq], to) == pawn_reaches(false, sq, to),
{
    let mut white_attacks = [0u64;64];
    let mut black_attacks = [0u64;64];
    let mut position: i8 = 0;
    while position < 64
        invariant
            0 <= position <= 64,
            forall|sq: int, to: int|
                0 <= sq < position ==> #[trigger] bit(white_attacks[sq], to) == pawn_reaches(
                    true,
                    sq,
                    to,
                ),
            forall|sq: int, to: int|
                0 <= sq < position ==> #[trigger] bit(black_attacks[sq], to) == pawn_reaches(
                    false,
                    sq,
                    to,
                ),
        decreases 64 - position,
    {
        white_attacks[position as usize] = pawn_attack_mask(true, position);
        black_attacks[position as usize] = pawn_attack_mask(false, position);
        position = position + 1;
    }
    (white_attacks, black_attacks)
}

/// The knight attack masks of all squares.
pub fn knight_attacks() -> (t: [u64; 64])
    ensures
        forall|sq: int, to: int| 0 <= sq < 64 ==> #[trigger] bit(t[sq], to) == knight_reaches(sq, to),
{
    let mut attacks = [0u64;64];
    let mut sq: i8 = 0;
    while sq < 64
        invariant
            0 <= sq <= 64,
            forall|s: int, to: int|
                0 <= s < sq ==> #[trigger] bit(attacks[s], to) == knight_reaches(s, to),
        decreases 64 - sq,
    {
        attacks[sq as usize] = knight_attack_mask(sq);
        sq = sq + 1;
    }
    attacks
}

/// The king attack masks of all squares.
pub fn king_attacks() -> (t: [u64; 64])
    ensures
        forall|sq: int, to: int| 0 <= sq < 64 ==> #[trigger] bit(t[sq], to) == king_reaches(sq, to),
{
    let mut attacks = [0u64;64];
    let mut sq: i8 = 0;
    while sq < 64
        invariant
            0 <= sq <= 64,
            forall|s: int, to: int|
                0 <= s < sq ==> #[trigger] bit(attacks[s], to) == king_reaches(s, to),
        decreases 64 - sq,
    {
        attacks[sq as usize] = king_attack_mask(sq);
        sq = sq + 1;
    }
    attacks
}

/// The rays of all squares in all eight directions: `t[dir][sq]` is the ray
/// that leaves `sq` in direction `dir`.
pub fn sliding_attacks() -> (t: Vec<Vec<Vec<ChessPosition>>>)
    ensures
        t@.len() == 8,
        forall|dir: int| 0 <= dir < 8 ==> (#[trigger] t@[dir])@.len() == 64,
        forall|dir: int, sq: int|
            0 <= dir < 8 && 0 <= sq < 64 ==> (#[trigger] t@[dir]@[sq])@.len() == ray(dir, sq).len(),
        forall|dir: int, sq: int, k: int|
            0 <= dir < 8 && 0 <= sq < 64 && 0 <= k < ray(dir, sq).len() ==> (
            #[trigger] t@[dir]@[sq]@[k]) as int == ray(dir, sq)[k],
{
    let mut table: Vec<Vec<Vec<ChessPosition>>> = Vec::new();
    let mut dir: usize = 0;
    while dir < 8
        invariant
            dir <= 8,
            table@.len() == dir,
            forall|d: int| 0 <= d < dir ==> (#[trigger] table@[d])@.len() == 64,
            forall|d: int, sq: int|
                0 <= d < dir && 0 <= sq < 64 ==> (#[trigger] table@[d]@[sq])@.len() == ray(
                    d,
                    sq,
                ).len(),
            forall|d: int, sq: int, k: int|
                0 <= d < dir && 0 <= sq < 64 && 0 <= k < ray(d, sq).len() ==> (
                #[trigger] table@[d]@[sq]@[k]) as int == ray(d, sq)[k],
        decreases 8 - dir,
    {
        let mut row: Vec<Vec<ChessPosition>> = Vec::new();
        let mut sq: i8 = 0;
        while sq < 64
            invariant
                dir < 8,
                0 <= sq <= 64,
                row@.len() == sq,
                forall|s: int| 0 <= s < sq ==> (#[trigger] row@[s])@.len() == ray(dir as int, s).len(),
                forall|s: int, k: int|
                    0 <= s < sq && 0 <= k < ray(dir as int, s).len() ==> (
                    #[trigger] row@[s]@[k]) as int == ray(dir as int, s)[k],
            decreases 64 - sq,
        {
            let r = sliding_ray(dir, sq);
            row.push(r);
            sq = sq + 1;
        }
        table.push(row);
        dir = dir + 1;
    }
    table
}

} // verus!
