//! A walk over the board in steps of one fixed offset, yielding the moves
//! of a piece for as long as the test of its moves lets them pass.

use vstd::prelude::*;
use crate::chess_type::Type;
use crate::game::ChessGame;
use crate::generation::move_of;
use crate::moves::{Move, MoveQuality};

verus! {

impl ChessGame {
    /// The tag of a move that passed the test: quiet onto an empty square,
    /// else a capture classed by the values of the piece that moves and of
    /// the piece that is taken.
    pub open spec fn tried_tag(self, from: int, to: int) -> MoveQuality {
        if self.occupied(to) {
            MoveQuality::of_capture(self.piece_at(from)->0.value(), self.piece_at(to)->0.value())
        } else {
            MoveQuality::Motion
        }
    }

    /// The move from `from` to `to` under its tag, if both squares are on
    /// the board and a piece of type `t` may make the move.
    pub open spec fn tried(self, white: bool, t: Type, from: int, to: int) -> Seq<Move> {
        if 0 <= to < 64 && self.move_valid_for(move_of(white, from, to, MoveQuality::Motion), t) {
            seq![move_of(white, from, to, self.tried_tag(from, to))]
        } else {
            Seq::empty()
        }
    }

    /// The moves that a walk from `pos` in steps of `inc` yields: each
    /// square in turn for as long as the move from `from` onto it passes the
    /// test, up to and including the first square that holds a piece.
    pub open spec fn slide(self, white: bool, t: Type, from: int, inc: int, pos: int) -> Seq<Move>
        decreases
            (if inc > 0 {
                64 - pos
            } else {
                pos + 1
            }),
    {
        let next = pos + inc;
        if inc == 0 || next < 0 || next >= 64 {
            Seq::empty()
        } else {
            let here = self.tried(white, t, from, next);
            if here.len() == 0 || self.occupied(next) {
                here
            } else {
                here + self.slide(white, t, from, inc, next)
            }
        }
    }
}

/// A source of the moves of one piece on a position, one move at a time.
pub trait MotionIterator {
    /// The source can be asked for its next move on the position.
    spec fn ready(&self, game: ChessGame) -> bool;

    /// The moves that the source has yet to yield on the position.
    spec fn moves_left(&self, game: ChessGame) -> Seq<Move>;

    /// The next move, if there is one.
    fn next(&mut self, game: &ChessGame) -> (r: Option<Move>)
        requires
            old(self).ready(*game),
        ensures
            match r {
                Some(m) => {
                    &&& final(self).ready(*game)
                    &&& old(self).moves_left(*game).len() > 0
                    &&& m == old(self).moves_left(*game)[0]
                    &&& final(self).moves_left(*game) == old(self).moves_left(*game).drop_first()
                },
                None => old(self).moves_left(*game).len() == 0,
            },
    ;
}

/// A walk from a square in steps of one offset.
pub struct StepMotionIterator {
    /// The square from which the piece moves.
    from: i8,
    /// The offset of one step.
    inc: i8,
    /// The side that moves.
    is_white: bool,
    /// The type of the piece that moves.
    t: Type,
    /// The walk has met a piece.
    found_capture: bool,
    /// The square that the walk has reached.
    pos: i8,
}

impl StepMotionIterator {
    /// The walk starts on the board, has not left it, and steps by an
    /// offset that a board can hold.
    pub closed spec fn well_formed(&self) -> bool {
        &&& 0 <= self.from < 64
        &&& 0 <= self.pos < 64
        &&& -64 <= self.inc <= 64
        &&& self.inc == 0 ==> self.pos == self.from
    }

    /// The square from which the piece moves.
    pub closed spec fn origin(&self) -> int {
        self.from as int
    }

    /// The moves that the walk has yet to yield on the position `game`.
    pub closed spec fn remaining(&self, game: ChessGame) -> Seq<Move> {
        if self.found_capture {
            Seq::empty()
        } else {
            game.slide(self.is_white, self.t, self.from as int, self.inc as int, self.pos as int)
        }
    }

    /// A walk of a piece of type `t` from `from` in steps of `inc`.
    pub fn new(from: i8, inc: i8, is_white: bool, t: Type) -> (it: StepMotionIterator)
        ensures
            it.origin() == from,
            0 <= from < 64 && -64 <= inc <= 64 ==> it.well_formed(),
            forall|game: ChessGame|
                #[trigger] it.remaining(game) == game.slide(
                    is_white,
                    t,
                    from as int,
                    inc as int,
                    from as int,
                ),
    {
        StepMotionIterator { from, pos: from, inc, is_white, found_capture: false, t }
    }

    /// The next move of the walk, if there is one.
    pub fn next(&mut self, game: &ChessGame) -> (r: Option<Move>)
        requires
            old(self).well_formed(),
            game.occupied(old(self).origin()),
        ensures
            final(self).origin() == old(self).origin(),
            match r {
                Some(m) => {
                    &&& final(self).well_formed()
                    &&& old(self).remaining(*game).len() > 0
                    &&& m == old(self).remaining(*game)[0]
                    &&& final(self).remaining(*game) == old(self).remaining(*game).drop_first()
                },
                None => old(self).remaining(*game).len() == 0,
            },
    {
        if self.found_capture {
            return None;
        }
        self.pos = self.pos + self.inc;
        if self.pos < 0 || self.pos >= 64 {
            return None;
        }
        let mut m = Move::new(self.from, self.pos, self.is_white);
        if !game.is_move_valid_for_type(&m, self.t) {
            return None;
        }
        if let Some(captured) = game.type_at_index(m.to) {
            self.found_capture = true;
            let piece = game.type_at_index(m.from).unwrap();
            m.set_quality_from_scores(piece, captured);
        }
        proof {
            let before = old(self).remaining(*game);
            let here = game.tried(self.is_white, self.t, self.from as int, self.pos as int);
            assert(here =~= seq![m]);
            assert(self.remaining(*game) =~= before.drop_first());
        }
        Some(m)
    }
}

impl MotionIterator for StepMotionIterator {
    open spec fn ready(&self, game: ChessGame) -> bool {
        self.well_formed() && game.occupied(self.origin())
    }

    open spec fn moves_left(&self, game: ChessGame) -> Seq<Move> {
        self.remaining(game)
    }

    fn next(&mut self, game: &ChessGame) -> (r: Option<Move>) {
        StepMotionIterator::next(self, game)
    }
}

} // verus!
