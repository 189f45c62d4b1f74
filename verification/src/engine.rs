//! What every search engine offers.

use vstd::prelude::*;
use crate::chess_type::ScoreType;
use crate::game::ChessGame;
use crate::moves::Move;

verus! {

/// The outcome of a search: the score of the position, positive when white
/// is ahead, and the move that leads to it, if the search tried any.
#[derive(Clone, Copy, Debug)]
pub struct SearchResult {
    pub score: ScoreType,
    pub best_move: Option<Move>,
}

/// A search engine: given a position and the side to move, it finds a move.
pub trait Engine {
    /// The engine is set up for a search.
    spec fn ready(&self) -> bool;

    /// The score and the move that the engine finds for a position. They
    /// depend on the settings of the engine alone, not on what it searched
    /// before.
    spec fn answer(&self, game: ChessGame, white_to_play: bool) -> (int, Option<Move>);

    /// Searches the position for the best move of the side to play.
    fn find_best_move(&mut self, game: ChessGame, white_to_play: bool) -> (r: SearchResult)
        requires
            old(self).ready(),
            game.pawns_inside(),
        ensures
            final(self).ready(),
            r.score == old(self).answer(game, white_to_play).0,
            r.best_move == old(self).answer(game, white_to_play).1,
            r.best_move matches Some(m) ==> m.on_board(),
            forall|g: ChessGame, w: bool| #[trigger]
                final(self).answer(g, w) == old(self).answer(g, w),
    ;
}

} // verus!
