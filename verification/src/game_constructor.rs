//! Ways to make a position: empty, the standard opening, or from the
//! placement field of a FEN record.

use vstd::prelude::*;
use vstd::string::StrSliceExecFns;
use crate::bits::{bit, group_bits};
use crate::chess_type::Type;
use crate::game::ChessGame;

verus! {

broadcast use group_bits;

/// The position without any piece.
pub open spec fn empty_position() -> ChessGame {
    ChessGame {
        whites: 0,
        pawns: 0,
        bishops: 0,
        knights: 0,
        rooks: 0,
        queens: 0,
        kings: 0,
        flags: 0,
    }
}

/// The standard opening position.
pub open spec fn standard_position() -> ChessGame {
    ChessGame {
        whites: 0x0000_0000_0000_ffff,
        pawns: 0x00ff_0000_0000_ff00,
        bishops: 0x2400_0000_0000_0024,
        knights: 0x4200_0000_0000_0042,
        rooks: 0x8100_0000_0000_0081,
        queens: 0x0800_0000_0000_0008,
        kings: 0x1000_0000_0000_0010,
        flags: 0,
    }
}

/// The piece that stands on a square of the back rank of the standard
/// opening, given the file of the square.
pub open spec fn back_rank(file: int) -> Type {
    if file == 0 || file == 7 {
        Type::Rook
    } else if file == 1 || file == 6 {
        Type::Knight
    } else if file == 2 || file == 5 {
        Type::Bishop
    } else if file == 3 {
        Type::Queen
    } else {
        Type::King
    }
}

/// The squares of the words of the standard opening.
proof fn lemma_standard_words(sq: u64)
    by (bit_vector)
    requires
        sq < 64,
    ensures
        ((0x0000_0000_0000_ffffu64 >> sq) & 1 == 1) == (sq < 16),
        ((0x00ff_0000_0000_ff00u64 >> sq) & 1 == 1) == (8 <= sq < 16 || 48 <= sq < 56),
        ((0x2400_0000_0000_0024u64 >> sq) & 1 == 1) == (sq == 2 || sq == 5 || sq == 58 || sq
            == 61),
        ((0x4200_0000_0000_0042u64 >> sq) & 1 == 1) == (sq == 1 || sq == 6 || sq == 57 || sq
            == 62),
        ((0x8100_0000_0000_0081u64 >> sq) & 1 == 1) == (sq == 0 || sq == 7 || sq == 56 || sq
            == 63),
        ((0x0800_0000_0000_0008u64 >> sq) & 1 == 1) == (sq == 3 || sq == 59),
        ((0x1000_0000_0000_0010u64 >> sq) & 1 == 1) == (sq == 4 || sq == 60),
{
}

/// What stands where in the standard opening: pawns on the second and on
/// the seventh rank, the pieces behind them, white on the first two ranks.
pub proof fn lemma_standard_position(sq: int)
    requires
        0 <= sq < 64,
    ensures
        standard_position().white_at(sq) == (sq < 16),
        standard_position().piece_at(sq) == if sq / 8 == 1 || sq / 8 == 6 {
            Some(Type::Pawn)
        } else if sq / 8 == 0 || sq / 8 == 7 {
            Some(back_rank(sq % 8))
        } else {
            None::<Type>
        },
{
    lemma_standard_words(sq as u64);
}

/// The standard opening position meets the invariants of a position.
pub proof fn lemma_standard_valid()
    ensures
        standard_position().valid(),
{
    let g = standard_position();
    assert forall|sq: int, a: Type, b: Type|
        #![trigger bit(g.board(a), sq), bit(g.board(b), sq)]
        a != b implies !(bit(g.board(a), sq) && bit(g.board(b), sq)) by {
        if 0 <= sq < 64 {
            lemma_standard_words(sq as u64);
        }
    }
    assert forall|sq: int| #[trigger] bit(g.whites, sq) implies g.occupied(sq) by {
        if 0 <= sq < 64 {
            lemma_standard_words(sq as u64);
        }
    }
    assert forall|sq: int| #[trigger] bit(g.pawns, sq) implies 8 <= sq < 56 by {
        if 0 <= sq < 64 {
            lemma_standard_words(sq as u64);
        }
    }
}

/// The position without any piece meets the invariants of a position.
pub proof fn lemma_empty_valid()
    ensures
        empty_position().valid(),
{
}

/// A character that separates the fields of a FEN record.
pub open spec fn is_blank(c: char) -> bool {
    c == ' ' || c == '\t' || c == '\n' || c == '\r'
}

/// The first index from `i` on at which `s` holds no blank, or the length
/// of `s`.
pub open spec fn skip_blanks(s: Seq<char>, i: int) -> int
    decreases s.len() - i,
{
    if 0 <= i < s.len() && is_blank(s[i]) {
        skip_blanks(s, i + 1)
    } else {
        i
    }
}

/// The first index from `i` on at which `s` holds a blank, or the length
/// of `s`.
pub open spec fn field_end(s: Seq<char>, i: int) -> int
    decreases s.len() - i,
{
    if 0 <= i < s.len() && !is_blank(s[i]) {
        field_end(s, i + 1)
    } else {
        i
    }
}

/// A field of `s` begins at `j`: a character that is no blank, at the start
/// of `s` or behind a blank.
pub open spec fn field_start(s: Seq<char>, j: int) -> bool {
    0 <= j < s.len() && !is_blank(s[j]) && (j == 0 || is_blank(s[j - 1]))
}

/// The number of fields of `s` that begin before `n`.
pub open spec fn fields_below(s: Seq<char>, n: int) -> nat
    decreases n,
{
    if n <= 0 {
        0
    } else {
        fields_below(s, n - 1) + if field_start(s, n - 1) { 1nat } else { 0nat }
    }
}

/// The number of fields of `s`.
pub open spec fn count_fields(s: Seq<char>) -> nat {
    fields_below(s, s.len() as int)
}

/// The piece that a letter of a FEN record names, and whether it is white.
pub open spec fn piece_of_char(c: char) -> Option<(Type, bool)> {
    if c == 'p' {
        Some((Type::Pawn, false))
    } else if c == 'P' {
        Some((Type::Pawn, true))
    } else if c == 'r' {
        Some((Type::Rook, false))
    } else if c == 'R' {
        Some((Type::Rook, true))
    } else if c == 'n' {
        Some((Type::Knight, false))
    } else if c == 'N' {
        Some((Type::Knight, true))
    } else if c == 'b' {
        Some((Type::Bishop, false))
    } else if c == 'B' {
        Some((Type::Bishop, true))
    } else if c == 'q' {
        Some((Type::Queen, false))
    } else if c == 'Q' {
        Some((Type::Queen, true))
    } else if c == 'k' {
        Some((Type::King, false))
    } else if c == 'K' {
        Some((Type::King, true))
    } else {
        None
    }
}

/// The number of empty squares that a digit of a FEN record stands for.
pub open spec fn gap_of_char(c: char) -> Option<int> {
    if c == '1' {
        Some(1)
    } else if c == '2' {
        Some(2)
    } else if c == '3' {
        Some(3)
    } else if c == '4' {
        Some(4)
    } else if c == '5' {
        Some(5)
    } else if c == '6' {
        Some(6)
    } else if c == '7' {
        Some(7)
    } else if c == '8' {
        Some(8)
    } else {
        None
    }
}

/// The position that results from reading the placement `s` from index `i`
/// on, the reading having reached column `col` of rank `row` with the
/// pieces of `g` placed.
///
/// A `/` goes down one rank, to column 0. A digit moves the column on. A
/// letter places its piece on the square of the column and moves the column
/// on by one. The placement is refused where it goes below the first rank,
/// where a piece falls on no square of the board, where the column grows
/// beyond 127, and where it holds any other character.
pub open spec fn place_from(s: Seq<char>, i: int, row: int, col: int, g: ChessGame) -> Option<
    ChessGame,
>
    decreases s.len() - i,
{
    if i < 0 || i >= s.len() {
        Some(g)
    } else if s[i] == '/' {
        if row == 0 {
            None
        } else {
            place_from(s, i + 1, row - 1, 0, g)
        }
    } else if gap_of_char(s[i]) is Some {
        if col + gap_of_char(s[i])->0 > 127 {
            None
        } else {
            place_from(s, i + 1, row, col + gap_of_char(s[i])->0, g)
        }
    } else if piece_of_char(s[i]) is Some {
        if col + 8 * row >= 64 {
            None
        } else {
            let p = piece_of_char(s[i])->0;
            place_from(s, i + 1, row, col + 1, g.with_piece(p.0, p.1, col + 8 * row))
        }
    } else {
        None
    }
}

/// The position that a FEN record describes: the one placed by its first
/// field, with all flags clear. The other fields are not read, but a record
/// of fewer than four fields describes nothing.
pub open spec fn fen_position(s: Seq<char>) -> Option<ChessGame> {
    if count_fields(s) < 4 {
        None
    } else {
        let a = skip_blanks(s, 0);
        let e = field_end(s, a);
        place_from(s.subrange(a, e), 0, 7, 0, empty_position())
    }
}

/// Whether the character separates fields.
fn blank(c: char) -> (r: bool)
    ensures
        r == is_blank(c),
{
    c == ' ' || c == '\t' || c == '\n' || c == '\r'
}

/// The piece that a letter names, and whether it is white.
fn piece_of(c: char) -> (r: Option<(Type, bool)>)
    ensures
        r == piece_of_char(c),
{
    if c == 'p' {
        Some((Type::Pawn, false))
    } else if c == 'P' {
        Some((Type::Pawn, true))
    } else if c == 'r' {
        Some((Type::Rook, false))
    } else if c == 'R' {
        Some((Type::Rook, true))
    } else if c == 'n' {
        Some((Type::Knight, false))
    } else if c == 'N' {
        Some((Type::Knight, true))
    } else if c == 'b' {
        Some((Type::Bishop, false))
    } else if c == 'B' {
        Some((Type::Bishop, true))
    } else if c == 'q' {
        Some((Type::Queen, false))
    } else if c == 'Q' {
        Some((Type::Queen, true))
    } else if c == 'k' {
        Some((Type::King, false))
    } else if c == 'K' {
        Some((Type::King, true))
    } else {
        None
    }
}

/// The number of empty squares that a digit stands for.
fn gap_of(c: char) -> (r: Option<i8>)
    ensures
        r is Some == gap_of_char(c) is Some,
        r is Some ==> r->0 == gap_of_char(c)->0,
{
    if c == '1' {
        Some(1)
    } else if c == '2' {
        Some(2)
    } else if c == '3' {
        Some(3)
    } else if c == '4' {
        Some(4)
    } else if c == '5' {
        Some(5)
    } else if c == '6' {
        Some(6)
    } else if c == '7' {
        Some(7)
    } else if c == '8' {
        Some(8)
    } else {
        None
    }
}

/// The first index from `start` on at which the record holds no blank.
fn skip_blanks_from(fen: &str, n: usize, start: usize) -> (r: usize)
    requires
        n == fen@.len(),
        start <= n,
    ensures
        r == skip_blanks(fen@, start as int),
        start <= r <= n,
{
    let mut i = start;
    while i < n && blank(fen.get_char(i))
        invariant
            n == fen@.len(),
            start <= i <= n,
            skip_blanks(fen@, start as int) == skip_blanks(fen@, i as int),
        decreases n - i,
    {
        i = i + 1;
    }
    i
}

/// The first index from `start` on at which the record holds a blank.
fn field_end_from(fen: &str, n: usize, start: usize) -> (r: usize)
    requires
        n == fen@.len(),
        start <= n,
    ensures
        r == field_end(fen@, start as int),
        start <= r <= n,
{
    let mut i = start;
    while i < n && !blank(fen.get_char(i))
        invariant
            n == fen@.len(),
            start <= i <= n,
            field_end(fen@, start as int) == field_end(fen@, i as int),
        decreases n - i,
    {
        i = i + 1;
    }
    i
}

/// Whether the record has four fields or more.
fn has_four_fields(fen: &str, n: usize) -> (r: bool)
    requires
        n == fen@.len(),
    ensures
        r == (count_fields(fen@) >= 4),
{
    let mut i: usize = 0;
    let mut found: usize = 0;
    let mut after_blank = true;
    while i < n
        invariant
            n == fen@.len(),
            i <= n,
            found <= i,
            found == fields_below(fen@, i as int),
            after_blank == (i == 0 || is_blank(fen@[i - 1])),
        decreases n - i,
    {
        let b = blank(fen.get_char(i));
        if !b && after_blank {
            found = found + 1;
        }
        after_blank = b;
        i = i + 1;
    }
    found >= 4
}

/// A shape with no data of its own, under which the ways to make a position
/// are gathered.
pub struct GameConstructor;

impl GameConstructor {
    /// The position without any piece.
    pub fn empty() -> (g: ChessGame)
        ensures
            g == empty_position(),
            g.valid(),
    {
        proof {
            lemma_empty_valid();
        }
        ChessGame {
            whites: 0,
            pawns: 0,
            bishops: 0,
            knights: 0,
            rooks: 0,
            queens: 0,
            kings: 0,
            flags: 0,
        }
    }

    /// The standard opening position.
    pub fn standard_game() -> (g: ChessGame)
        ensures
            g == standard_position(),
            g.valid(),
    {
        proof {
            lemma_standard_valid();
        }
        ChessGame {
            whites: 0x0000_0000_0000_ffff,
            pawns: 0x00ff_0000_0000_ff00,
            bishops: 0x2400_0000_0000_0024,
            knights: 0x4200_0000_0000_0042,
            rooks: 0x8100_0000_0000_0081,
            queens: 0x0800_0000_0000_0008,
            kings: 0x1000_0000_0000_0010,
            flags: 0,
        }
    }

    /// Reads a FEN record. Gives nothing where the record describes no
    /// position.
    pub fn try_from_fen(fen: &str) -> (r: Option<ChessGame>)
        ensures
            r == fen_position(fen@),
    {
        let n = fen.unicode_len();
        if !has_four_fields(fen, n) {
            return None;
        }
        let a = skip_blanks_from(fen, n, 0);
        let e = field_end_from(fen, n, a);
        let ghost board = fen@.subrange(a as int, e as int);
        let mut game = GameConstructor::empty();
        let mut row: i8 = 7;
        let mut col: i8 = 0;
        let mut i = a;
        while i < e
            invariant
                n == fen@.len(),
                a <= i <= e <= n,
                board == fen@.subrange(a as int, e as int),
                0 <= row <= 7,
                0 <= col <= 127,
                fen_position(fen@) == place_from(board, 0, 7, 0, empty_position()),
                place_from(board, 0, 7, 0, empty_position()) == place_from(
                    board,
                    i - a,
                    row as int,
                    col as int,
                    game,
                ),
            decreases e - i,
        {
            let c = fen.get_char(i);
            assert(board.len() == e - a);
            assert(board[i - a] == c);
            if c == '/' {
                if row == 0 {
                    return None;
                }
                row = row - 1;
                col = 0;
            } else if let Some(gap) = gap_of(c) {
                if gap > 127 - col {
                    return None;
                }
                col = col + gap;
            } else if let Some((piece, white)) = piece_of(c) {
                if col >= 64 - 8 * row {
                    return None;
                }
                game.set_piece(piece, white, col + 8 * row);
                col = col + 1;
            } else {
                return None;
            }
            i = i + 1;
        }
        Some(game)
    }

    /// Reads a FEN record that describes a position.
    pub fn from_fen(fen: &str) -> (g: ChessGame)
        requires
            fen_position(fen@) is Some,
        ensures
            g == fen_position(fen@)->0,
    {
        GameConstructor::try_from_fen(fen).unwrap()
    }
}

impl ChessGame {
    /// The position without any piece.
    pub fn empty() -> (g: ChessGame)
        ensures
            g == empty_position(),
            g.valid(),
    {
        GameConstructor::empty()
    }

    /// The standard opening position.
    pub fn standard_game() -> (g: ChessGame)
        ensures
            g == standard_position(),
            g.valid(),
    {
        GameConstructor::standard_game()
    }

    /// Reads a FEN record. Gives nothing where the record describes no
    /// position.
    pub fn try_from_fen(fen: &str) -> (r: Option<ChessGame>)
        ensures
            r == fen_position(fen@),
    {
        GameConstructor::try_from_fen(fen)
    }

    /// Reads a FEN record that describes a position.
    pub fn from_fen(fen: &str) -> (g: ChessGame)
        requires
            fen_position(fen@) is Some,
        ensures
            g == fen_position(fen@)->0,
    {
        GameConstructor::from_fen(fen)
    }
}

impl Default for ChessGame {
    fn default() -> (g: ChessGame)
        ensures
            g == standard_position(),
    {
        GameConstructor::standard_game()
    }
}

} // verus!
