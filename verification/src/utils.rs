//! Squares, and their algebraic notation.

use vstd::prelude::*;
use vstd::string::StrSliceExecFns;
use vstd::string::StringExecFns;

verus! {

/// A square of the board, `file + 8 * rank`, from 0 (a1) to 63 (h8).
pub type ChessPosition = i8;

/// The file that a letter names: 0 for `a` up to 7 for `h`.
pub open spec fn file_of_char(c: char) -> Option<int> {
    if c == 'a' {
        Some(0)
    } else if c == 'b' {
        Some(1)
    } else if c == 'c' {
        Some(2)
    } else if c == 'd' {
        Some(3)
    } else if c == 'e' {
        Some(4)
    } else if c == 'f' {
        Some(5)
    } else if c == 'g' {
        Some(6)
    } else if c == 'h' {
        Some(7)
    } else {
        None
    }
}

/// The value of a decimal digit.
pub open spec fn digit_of_char(c: char) -> Option<int> {
    if c == '0' {
        Some(0)
    } else if c == '1' {
        Some(1)
    } else if c == '2' {
        Some(2)
    } else if c == '3' {
        Some(3)
    } else if c == '4' {
        Some(4)
    } else if c == '5' {
        Some(5)
    } else if c == '6' {
        Some(6)
    } else if c == '7' {
        Some(7)
    } else if c == '8' {
        Some(8)
    } else if c == '9' {
        Some(9)
    } else {
        None
    }
}

/// The square that a text names by a file letter followed by a rank digit.
/// Rank digit `1` is rank 0. Characters after the first two are not read.
pub open spec fn square_of_text(s: Seq<char>) -> Option<int> {
    if s.len() >= 2 && file_of_char(s[0]) is Some && digit_of_char(s[1]) is Some {
        Some(file_of_char(s[0])->0 + 8 * (digit_of_char(s[1])->0 - 1))
    } else {
        None
    }
}

/// The letter of a file.
pub open spec fn char_of_file(f: int) -> char {
    if f == 0 {
        'a'
    } else if f == 1 {
        'b'
    } else if f == 2 {
        'c'
    } else if f == 3 {
        'd'
    } else if f == 4 {
        'e'
    } else if f == 5 {
        'f'
    } else if f == 6 {
        'g'
    } else {
        'h'
    }
}

/// The digit of a rank: `1` for rank 0 up to `8` for rank 7.
pub open spec fn char_of_rank(r: int) -> char {
    if r == 0 {
        '1'
    } else if r == 1 {
        '2'
    } else if r == 2 {
        '3'
    } else if r == 3 {
        '4'
    } else if r == 4 {
        '5'
    } else if r == 5 {
        '6'
    } else if r == 6 {
        '7'
    } else {
        '8'
    }
}

/// The two characters that name a square.
pub open spec fn text_of_square(index: int) -> Seq<char> {
    seq![char_of_file(index % 8), char_of_rank(index / 8)]
}

/// Reading the name of a square gives the square back.
pub proof fn lemma_square_text_round_trip(index: int)
    requires
        0 <= index < 64,
    ensures
        square_of_text(text_of_square(index)) == Some(index),
{
}

/// The square at a rank and a file.
pub fn from_rank_file(rank: usize, file: usize) -> (p: ChessPosition)
    requires
        rank < 8,
        file < 8,
    ensures
        p == rank * 8 + file,
{
    (rank * 8 + file) as ChessPosition
}

/// The square at file `x` and rank `y`.
pub fn pos_to_index(x: ChessPosition, y: ChessPosition) -> (p: ChessPosition)
    requires
        -16 <= y <= 15,
        -128 <= x + 8 * y <= 127,
    ensures
        p == x + 8 * y,
{
    x + 8 * y
}

/// The file that a letter names.
fn file_of(c: char) -> (r: Option<ChessPosition>)
    ensures
        r is Some == file_of_char(c) is Some,
        r is Some ==> r->0 == file_of_char(c)->0,
{
    if c == 'a' {
        Some(0)
    } else if c == 'b' {
        Some(1)
    } else if c == 'c' {
        Some(2)
    } else if c == 'd' {
        Some(3)
    } else if c == 'e' {
        Some(4)
    } else if c == 'f' {
        Some(5)
    } else if c == 'g' {
        Some(6)
    } else if c == 'h' {
        Some(7)
    } else {
        None
    }
}

/// The value of a decimal digit.
fn digit_of(c: char) -> (r: Option<ChessPosition>)
    ensures
        r is Some == digit_of_char(c) is Some,
        r is Some ==> r->0 == digit_of_char(c)->0,
{
    if c == '0' {
        Some(0)
    } else if c == '1' {
        Some(1)
    } else if c == '2' {
        Some(2)
    } else if c == '3' {
        Some(3)
    } else if c == '4' {
        Some(4)
    } else if c == '5' {
        Some(5)
    } else if c == '6' {
        Some(6)
    } else if c == '7' {
        Some(7)
    } else if c == '8' {
        Some(8)
    } else if c == '9' {
        Some(9)
    } else {
        None
    }
}

/// Whether the text names a square by a file letter and a rank digit.
pub fn names_square(text: &str) -> (r: bool)
    ensures
        r == square_of_text(text@) is Some,
{
    let n = text.unicode_len();
    if n < 2 {
        return false;
    }
    file_of(text.get_char(0)).is_some() && digit_of(text.get_char(1)).is_some()
}

/// Reads a square written as a file letter and a rank digit.
/// A text of fewer than two characters names no square.
pub fn chesspos_to_index(text: &str) -> (r: Option<ChessPosition>)
    requires
        text@.len() >= 2 ==> square_of_text(text@) is Some,
    ensures
        r is Some <==> text@.len() >= 2,
        r is Some ==> r->0 == square_of_text(text@)->0,
{
    let n = text.unicode_len();
    if n < 2 {
        return None;
    }
    let first_char = text.get_char(0);
    let second_char = text.get_char(1);
    let col = file_of(first_char);
    let row = digit_of(second_char);
    Some(pos_to_index(col.unwrap(), row.unwrap() - 1))
}

/// Writes a square as its file letter and rank digit.
pub fn index_to_chesspos(index: ChessPosition) -> (s: String)
    requires
        0 <= index < 64,
    ensures
        s@ == text_of_square(index as int),
{
    let x = index % 8;
    let y = index / 8;
    proof {
        reveal_strlit("a");
        reveal_strlit("b");
        reveal_strlit("c");
        reveal_strlit("d");
        reveal_strlit("e");
        reveal_strlit("f");
        reveal_strlit("g");
        reveal_strlit("h");
        reveal_strlit("1");
        reveal_strlit("2");
        reveal_strlit("3");
        reveal_strlit("4");
        reveal_strlit("5");
        reveal_strlit("6");
        reveal_strlit("7");
        reveal_strlit("8");
    }
    let s = if x == 0 {
        String::from_str("a")
    } else if x == 1 {
        String::from_str("b")
    } else if x == 2 {
        String::from_str("c")
    } else if x == 3 {
        String::from_str("d")
    } else if x == 4 {
        String::from_str("e")
    } else if x == 5 {
        String::from_str("f")
    } else if x == 6 {
        String::from_str("g")
    } else {
        String::from_str("h")
    };
    let r = if y == 0 {
        s.concat("1")
    } else if y == 1 {
        s.concat("2")
    } else if y == 2 {
        s.concat("3")
    } else if y == 3 {
        s.concat("4")
    } else if y == 4 {
        s.concat("5")
    } else if y == 5 {
        s.concat("6")
    } else if y == 6 {
        s.concat("7")
    } else {
        s.concat("8")
    };
    assert(r@ =~= text_of_square(index as int));
    r
}

/// Values that name a square of the board.
pub trait IntoChessPosition {
    /// The square that the value names, if it names one.
    spec fn position(&self) -> Option<int>;

    /// The square that the value names.
    fn as_chess_position(&self) -> (p: ChessPosition)
        requires
            self.position() is Some,
        ensures
            p == self.position()->0,
    ;
}

impl IntoChessPosition for &str {
    open spec fn position(&self) -> Option<int> {
        square_of_text(self@)
    }

    fn as_chess_position(&self) -> (p: ChessPosition) {
        chesspos_to_index(self).unwrap()
    }
}

impl IntoChessPosition for i8 {
    open spec fn position(&self) -> Option<int> {
        Some(*self as int)
    }

    fn as_chess_position(&self) -> (p: ChessPosition) {
        *self
    }
}

impl IntoChessPosition for u8 {
    open spec fn position(&self) -> Option<int> {
        if *self < 128 {
            Some(*self as int)
        } else {
            None
        }
    }

    fn as_chess_position(&self) -> (p: ChessPosition) {
        *self as i8
    }
}

} // verus!
