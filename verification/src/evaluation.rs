//! The static score of a position: material, with mobility as a tiebreaker.

use vstd::prelude::*;
use crate::bits::{popcount, of_colour, count_squares, lemma_count_below_bound};
use crate::chess_type::{ScoreType, Type};
use crate::game::ChessGame;
use crate::moves_container::{MovesContainer, SimpleMovesContainer};
use crate::precomputation::ray_len;
use crate::sequences::lemma_collect_bound;

verus! {

/// How many more squares of `board` are marked white than are not.
pub open spec fn balance(whites: u64, board: u64) -> int {
    popcount(board & whites) - popcount(board & !whites)
}

/// A balance lies between -64 and 64.
pub proof fn lemma_balance_bound(whites: u64, board: u64)
    ensures
        -64 <= balance(whites, board) <= 64,
{
    lemma_count_below_bound(board & whites, 64);
    lemma_count_below_bound(board & !whites, 64);
}

/// How many more squares of `board` are marked white than are not.
fn balance_of(whites: u64, board: u64) -> (r: ScoreType)
    ensures
        r == balance(whites, board),
        -64 <= r <= 64,
{
    let w = count_squares(board & whites);
    let b = count_squares(board & !whites);
    (w as ScoreType) - (b as ScoreType)
}

impl ChessGame {
    /// Material of white less material of black: a pawn counts 1, a bishop
    /// or a knight 3, a rook 5, a queen 10, a king 1000.
    pub open spec fn material(self) -> int {
        balance(self.whites, self.pawns) + 3 * balance(self.whites, self.bishops | self.knights) + 5
            * balance(self.whites, self.rooks) + 10 * balance(self.whites, self.queens) + 1000
            * balance(self.whites, self.kings)
    }

    /// The score of the position: twenty times the material, plus the number
    /// of moves of white, less the number of moves of black.
    pub open spec fn score_spec(self) -> int {
        20 * self.material() + self.moves(true).len() - self.moves(false).len()
    }

    /// The score of any position lies within two million of zero.
    pub proof fn lemma_score_bound(self)
        ensures
            -2000000 <= self.score_spec() <= 2000000,
    {
        self.lemma_moves_bound(true);
        self.lemma_moves_bound(false);
        lemma_balance_bound(self.whites, self.pawns);
        lemma_balance_bound(self.whites, self.bishops | self.knights);
        lemma_balance_bound(self.whites, self.rooks);
        lemma_balance_bound(self.whites, self.queens);
        lemma_balance_bound(self.whites, self.kings);
    }

    /// No side has more than 32768 moves.
    pub proof fn lemma_moves_bound(self, white: bool)
        ensures
            self.moves(white).len() <= 32768,
    {
        self.lemma_stepper_bound(white, Type::Knight);
        self.lemma_stepper_bound(white, Type::King);
        let psrc = self.pawn_capture_source(white);
        assert forall|from: int| 0 <= from < 64 implies (#[trigger] psrc(from)).len() <= 64 by {
            let tgt = self.pawn_target(white, from);
            assert forall|to: int| 0 <= to < 64 implies (#[trigger] tgt(to)).len() <= 1 by {}
            lemma_collect_bound(64, tgt, 1);
        }
        lemma_collect_bound(64, psrc, 64);
        let push = self.pawn_push_source(white);
        assert forall|from: int| 0 <= from < 64 implies (#[trigger] push(from)).len() <= 2 by {}
        lemma_collect_bound(64, push, 2);
        self.lemma_slider_bound(white, Type::Rook, of_colour(self.whites, self.rooks, white), 0, 4);
        self.lemma_slider_bound(
            white,
            Type::Bishop,
            of_colour(self.whites, self.bishops, white),
            4,
            8,
        );
        self.lemma_slider_bound(
            white,
            Type::Queen,
            of_colour(self.whites, self.queens, white),
            0,
            8,
        );
    }

    /// Knights, and kings, have no more than 4096 moves.
    proof fn lemma_stepper_bound(self, white: bool, mover: Type)
        ensures
            self.stepper_moves(white, mover).len() <= 4096,
    {
        let src = self.stepper_source(white, mover);
        assert forall|from: int| 0 <= from < 64 implies (#[trigger] src(from)).len() <= 64 by {
            let tgt = self.stepper_target(white, mover, from);
            assert forall|to: int| 0 <= to < 64 implies (#[trigger] tgt(to)).len() <= 1 by {}
            lemma_collect_bound(64, tgt, 1);
        }
        lemma_collect_bound(64, src, 64);
    }

    /// Sliding pieces of one type have no more than 4096 moves.
    proof fn lemma_slider_bound(self, white: bool, mover: Type, pieces: u64, first: int, end: int)
        requires
            0 <= first <= end <= 8,
        ensures
            self.slider_moves(white, mover, pieces, first, end).len() <= 4096,
    {
        let src = self.slider_source(white, mover, pieces, first, end);
        assert forall|from: int| 0 <= from < 64 implies (#[trigger] src(from)).len() <= 64 by {
            let dirs = self.slider_direction(white, mover, first, from);
            assert forall|dir: int| 0 <= dir < end implies (#[trigger] dirs(dir)).len() <= 7 by {
                let tgt = self.ray_target(white, mover, dir, from);
                if ray_len(dir, from) >= 0 {
                    assert forall|k: int| 0 <= k < ray_len(dir, from) implies (#[trigger] tgt(
                        k,
                    )).len() <= 1 by {}
                    lemma_collect_bound(ray_len(dir, from), tgt, 1);
                }
            }
            lemma_collect_bound(end, dirs, 7);
        }
        lemma_collect_bound(64, src, 64);
    }

    /// The score of the position, positive when white is ahead.
    pub fn score(&self) -> (s: ScoreType)
        requires
            self.pawns_inside(),
        ensures
            s == self.score_spec(),
    {
        let mut score: ScoreType = 0;
        score = score + balance_of(self.whites, self.pawns);
        score = score + balance_of(self.whites, self.bishops | self.knights) * 3;
        score = score + balance_of(self.whites, self.rooks) * 5;
        score = score + balance_of(self.whites, self.queens) * 10;
        score = score + balance_of(self.whites, self.kings) * 1000;
        score = score * 20;
        let mut container = SimpleMovesContainer::new();
        proof {
            self.lemma_moves_bound(true);
            self.lemma_moves_bound(false);
        }
        self.update_move_container(&mut container, true);
        score = score + container.count() as ScoreType;
        self.update_move_container(&mut container, false);
        score = score - container.count() as ScoreType;
        score
    }
}

} // verus!
