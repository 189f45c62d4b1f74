//! Bitboards: 64-bit words read as sets of squares.

use vstd::prelude::*;

verus! {

/// Square `i` is a member of the bitboard `b`.
pub open spec fn bit(b: u64, i: int) -> bool {
    0 <= i < 64 && (b >> (i as u64)) & 1u64 == 1u64
}

/// The bitboard `b` with square `i` added.
pub open spec fn with_bit(b: u64, i: int) -> u64 {
    b | (1u64 << (i as u64))
}

/// The bitboard `b` with square `i` removed.
pub open spec fn without_bit(b: u64, i: int) -> u64 {
    b & !(1u64 << (i as u64))
}

/// Number of members of `b` among the squares below `n`.
pub open spec fn count_below(b: u64, n: int) -> nat
    decreases n,
{
    if n <= 0 {
        0
    } else {
        count_below(b, n - 1) + if bit(b, n - 1) { 1nat } else { 0nat }
    }
}

/// Number of squares in `b`.
pub open spec fn popcount(b: u64) -> nat {
    count_below(b, 64)
}

/// Membership after adding a square, stated on the bits of the word.
proof fn lemma_bv_with(b: u64, i: u64, j: u64)
    by (bit_vector)
    requires
        i < 64,
        j < 64,
    ensures
        ((b | (1u64 << i)) >> j) & 1u64 == 1u64 <==> (j == i || (b >> j) & 1u64 == 1u64),
{
}

/// Membership after removing a square, stated on the bits of the word.
proof fn lemma_bv_without(b: u64, i: u64, j: u64)
    by (bit_vector)
    requires
        i < 64,
        j < 64,
    ensures
        ((b & !(1u64 << i)) >> j) & 1u64 == 1u64 <==> (j != i && (b >> j) & 1u64 == 1u64),
{
}

/// Membership in a union, stated on the bits of the word.
proof fn lemma_bv_or(a: u64, b: u64, j: u64)
    by (bit_vector)
    requires
        j < 64,
    ensures
        ((a | b) >> j) & 1u64 == 1u64 <==> ((a >> j) & 1u64 == 1u64 || (b >> j) & 1u64 == 1u64),
{
}

/// Membership in an intersection, stated on the bits of the word.
proof fn lemma_bv_and(a: u64, b: u64, j: u64)
    by (bit_vector)
    requires
        j < 64,
    ensures
        ((a & b) >> j) & 1u64 == 1u64 <==> ((a >> j) & 1u64 == 1u64 && (b >> j) & 1u64 == 1u64),
{
}

/// Membership in a complement, stated on the bits of the word.
proof fn lemma_bv_not(a: u64, j: u64)
    by (bit_vector)
    requires
        j < 64,
    ensures
        ((!a) >> j) & 1u64 == 1u64 <==> !((a >> j) & 1u64 == 1u64),
{
}

/// The empty word has no member.
proof fn lemma_bv_zero(j: u64)
    by (bit_vector)
    requires
        j < 64,
    ensures
        (0u64 >> j) & 1u64 == 0u64,
{
}

/// A word that is not zero has a member.
proof fn lemma_bv_nonzero(a: u64) -> (j: u64)
    requires
        a != 0,
    ensures
        j < 64,
        (a >> j) & 1u64 == 1u64,
{
    let t = a.trailing_zeros();
    vstd::std_specs::bits::axiom_u64_trailing_zeros(a);
    t as u64
}

/// Clearing the lowest one of a word by `b & (b - 1)` removes the square of
/// that one, and makes the word smaller.
proof fn lemma_bv_drop_lowest(b: u64, t: u64)
    by (bit_vector)
    requires
        t < 64,
        (b >> t) & 1u64 == 1u64,
        t > 0 ==> b << ((64 - t) as u64) == 0,
    ensures
        b & ((b - 1) as u64) == b & !(1u64 << t),
        b & ((b - 1) as u64) < b,
{
}

/// Membership after adding a square.
pub broadcast proof fn lemma_with_bit(b: u64, i: int, j: int)
    requires
        0 <= i < 64,
    ensures
        #[trigger] bit(with_bit(b, i), j) == (j == i || bit(b, j)),
{
    if 0 <= j < 64 {
        lemma_bv_with(b, i as u64, j as u64);
    }
}

/// Membership after removing a square.
pub broadcast proof fn lemma_without_bit(b: u64, i: int, j: int)
    requires
        0 <= i < 64,
    ensures
        #[trigger] bit(without_bit(b, i), j) == (j != i && bit(b, j)),
{
    if 0 <= j < 64 {
        lemma_bv_without(b, i as u64, j as u64);
    }
}

/// Membership in a union.
pub broadcast proof fn lemma_bit_or(a: u64, b: u64, j: int)
    ensures
        #[trigger] bit(a | b, j) == (bit(a, j) || bit(b, j)),
{
    if 0 <= j < 64 {
        lemma_bv_or(a, b, j as u64);
    }
}

/// Membership in an intersection.
pub broadcast proof fn lemma_bit_and(a: u64, b: u64, j: int)
    ensures
        #[trigger] bit(a & b, j) == (bit(a, j) && bit(b, j)),
{
    if 0 <= j < 64 {
        lemma_bv_and(a, b, j as u64);
    }
}

/// Membership in a complement.
pub broadcast proof fn lemma_bit_not(a: u64, j: int)
    ensures
        #[trigger] bit(!a, j) == (0 <= j < 64 && !bit(a, j)),
{
    if 0 <= j < 64 {
        lemma_bv_not(a, j as u64);
    }
}

/// The empty bitboard has no member.
pub broadcast proof fn lemma_bit_zero(j: int)
    ensures
        !#[trigger] bit(0u64, j),
{
    if 0 <= j < 64 {
        lemma_bv_zero(j as u64);
    }
}

pub broadcast group group_bits {
    lemma_with_bit,
    lemma_without_bit,
    lemma_bit_or,
    lemma_bit_and,
    lemma_bit_not,
    lemma_bit_zero,
}

/// Two bitboards with the same members are the same word.
pub proof fn lemma_bits_extensional(a: u64, b: u64)
    requires
        forall|j: int| 0 <= j < 64 ==> bit(a, j) == bit(b, j),
    ensures
        a == b,
{
    if a != b {
        let x = a ^ b;
        assert(x != 0) by (bit_vector)
            requires
                x == a ^ b,
                a != b,
        ;
        let j = lemma_bv_nonzero(x);
        assert(((a >> j) & 1u64 == 1u64) != ((b >> j) & 1u64 == 1u64)) by (bit_vector)
            requires
                x == a ^ b,
                j < 64,
                (x >> j) & 1u64 == 1u64,
        ;
        assert(bit(a, j as int) != bit(b, j as int));
    }
}

/// A bitboard holds at most 64 squares.
pub proof fn lemma_count_below_bound(b: u64, n: int)
    requires
        0 <= n,
    ensures
        count_below(b, n) <= n,
    decreases n,
{
    if n > 0 {
        lemma_count_below_bound(b, n - 1);
    }
}

/// The pieces of `board` that are of the given colour, `whites` being the
/// squares marked white.
pub open spec fn of_colour(whites: u64, board: u64, white: bool) -> u64 {
    if white {
        board & whites
    } else {
        board & !whites
    }
}

/// The pieces of `board` that are of the given colour.
pub fn pieces_for_color(whites: u64, board: u64, white: bool) -> (r: u64)
    ensures
        r == of_colour(whites, board, white),
        forall|j: int| #[trigger] bit(r, j) == (bit(board, j) && bit(whites, j) == white),
{
    broadcast use group_bits;

    if white {
        board & whites
    } else {
        board & !whites
    }
}

/// Whether square `at` is set in `b`.
pub fn is_set(b: u64, at: i8) -> (r: bool)
    requires
        0 <= at < 64,
    ensures
        r == bit(b, at as int),
{
    (b >> (at as u64)) & 1u64 == 1u64
}

/// `b` with square `at` set.
pub fn set_at(b: u64, at: i8) -> (r: u64)
    requires
        0 <= at < 64,
    ensures
        r == with_bit(b, at as int),
{
    b | (1u64 << (at as u64))
}

/// `b` with square `at` cleared.
pub fn clear_at(b: u64, at: i8) -> (r: u64)
    requires
        0 <= at < 64,
    ensures
        r == without_bit(b, at as int),
{
    b & !(1u64 << (at as u64))
}

/// The lowest square of a non-empty bitboard, and the bitboard without it.
pub fn take_lowest(b: u64) -> (r: (i8, u64))
    requires
        b != 0,
    ensures
        0 <= r.0 < 64,
        bit(b, r.0 as int),
        forall|j: int| 0 <= j < r.0 ==> !bit(b, j),
        r.1 == without_bit(b, r.0 as int),
        r.1 < b,
{
    let t = b.trailing_zeros();
    proof {
        vstd::std_specs::bits::axiom_u64_trailing_zeros(b);
        lemma_bv_drop_lowest(b, t as u64);
        assert forall|j: int| 0 <= j < t implies !bit(b, j) by {
            let ju = j as u64;
            assert((b >> ju) & 1u64 == 0u64);
        }
    }
    (t as i8, b & (b - 1))
}

/// The number of squares in `b`.
pub fn count_squares(b: u64) -> (r: u32)
    ensures
        r == popcount(b),
        r <= 64,
{
    proof {
        lemma_count_below_bound(b, 64);
    }
    b.count_ones()
}

/// `u64::count_ones` returns how many bits of the word are one.
pub assume_specification[ u64::count_ones ](i: u64) -> (r: u32)
    ensures
        r == popcount(i),
;

} // verus!
