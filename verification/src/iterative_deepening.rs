//! Iterative deepening: search to depth 1, 2, and so on up to the final
//! depth, each search trying the best move of the search before it first.

use vstd::prelude::*;
use crate::alpha_beta::{
    AlphaBetaEngine, Outcome, search, candidates, no_killers, lowest_bound, highest_bound,
    lemma_search_best,
};
use crate::moves_container::{
    MovesContainer, SmartMoveContainer, place_all, lemma_placed_by_rank_keeps,
    lemma_all_placed_by_rank_keep,
};
use crate::chess_type::ScoreType;
use crate::engine::{Engine, SearchResult};
use crate::game::ChessGame;
use crate::moves::{Move, MoveQuality};

verus! {

/// The outcome of a search from the root to depth `depth`, with `seed` as
/// the move to try first.
pub open spec fn root_search(
    depth: int,
    extra: int,
    game: ChessGame,
    white: bool,
    seed: Option<Move>,
) -> Outcome {
    search(
        depth,
        extra,
        game,
        white,
        0,
        lowest_bound(),
        highest_bound(),
        false,
        seed,
        no_killers(depth + extra),
    )
}

/// The outcome of the searches from depth `depth` up to depth `last`, the
/// first of them seeded with `seed` and each later one with the best move of
/// the search before it.
pub open spec fn deepen(
    depth: int,
    last: int,
    extra: int,
    game: ChessGame,
    white: bool,
    seed: Option<Move>,
) -> Outcome
    decreases last - depth,
{
    let o = root_search(depth, extra, game, white, seed);
    if depth >= last {
        o
    } else {
        deepen(depth + 1, last, extra, game, white, o.best_move)
    }
}

/// The move is a move of the given side that obeys the geometry of its
/// piece, whatever its tag.
pub open spec fn playable(game: ChessGame, white: bool, m: Move) -> bool {
    exists|q: MoveQuality| game.pseudo_legal(white, #[trigger] m.retagged(q))
}

/// `playable` as a predicate on moves.
pub open spec fn is_playable(game: ChessGame, white: bool) -> spec_fn(Move) -> bool {
    |m: Move| playable(game, white, m)
}

/// The move that a seeded search from the root finds is a move of the side
/// to move that obeys the geometry of its piece, if the seed is one.
pub proof fn lemma_root_search_playable(
    depth: int,
    extra: int,
    game: ChessGame,
    white: bool,
    seed: Option<Move>,
)
    requires
        game.pawns_inside(),
        seed matches Some(s) ==> playable(game, white, s),
    ensures
        root_search(depth, extra, game, white, seed).best_move matches Some(m) ==> playable(
            game,
            white,
            m,
        ),
{
    let killers = no_killers(depth + extra);
    let found = root_search(depth, extra, game, white, seed).best_move;
    lemma_search_best(
        depth,
        extra,
        game,
        white,
        0,
        lowest_bound(),
        highest_bound(),
        false,
        seed,
        killers,
    );
    if found is Some {
        let p = is_playable(game, white);
        let generated = place_all::<SmartMoveContainer>(Seq::empty(), game.moves(white));
        game.lemma_moves_sound(white);
        assert forall|i: int| 0 <= i < game.moves(white).len() implies p(
            #[trigger] game.moves(white)[i],
        ) by {
            let m = game.moves(white)[i];
            assert(m.retagged(m.quality) == m);
        }
        lemma_all_placed_by_rank_keep(Seq::empty(), game.moves(white), p);
        let tried = candidates(game, white, seed, killers[0]);
        if seed is Some {
            let s = seed->0;
            let first = s.retagged(MoveQuality::Principal);
            assert(p(first)) by {
                let q = choose|q: MoveQuality| game.pseudo_legal(white, #[trigger] s.retagged(q));
                assert(first.retagged(q) == s.retagged(q));
            }
            lemma_placed_by_rank_keeps(generated, first, p);
        }
        let i = choose|i: int| 0 <= i < tried.len() && tried[i] == found->0;
        assert(p(tried[i]));
    }
}

/// The move that iterative deepening finds is a move of the side to move
/// that obeys the geometry of its piece.
pub proof fn lemma_deepen_playable(
    depth: int,
    last: int,
    extra: int,
    game: ChessGame,
    white: bool,
    seed: Option<Move>,
)
    requires
        game.pawns_inside(),
        seed matches Some(s) ==> playable(game, white, s),
    ensures
        deepen(depth, last, extra, game, white, seed).best_move matches Some(m) ==> playable(
            game,
            white,
            m,
        ),
    decreases last - depth,
{
    lemma_root_search_playable(depth, extra, game, white, seed);
    if depth < last {
        let o = root_search(depth, extra, game, white, seed);
        lemma_deepen_playable(depth + 1, last, extra, game, white, o.best_move);
    }
}

/// An engine that searches by iterative deepening.
pub struct IterativeDeepeningEngine {
    depth: usize,
    extra_depth: usize,
    initial_depth: usize,
}

impl IterativeDeepeningEngine {
    /// The depth of the last search.
    pub closed spec fn last_depth(&self) -> int {
        self.depth as int
    }

    /// The depth of the first search.
    pub closed spec fn first_depth(&self) -> int {
        self.initial_depth as int
    }

    /// By how many plies each search goes on behind a capture.
    pub closed spec fn extra(&self) -> int {
        self.extra_depth as int
    }

    /// An engine whose last search goes `depth` plies deep, and up to
    /// `extra_depth` plies more behind captures. The first search goes one
    /// ply deep.
    pub fn new(depth: usize, extra_depth: usize) -> (e: IterativeDeepeningEngine)
        ensures
            e.last_depth() == depth,
            e.extra() == extra_depth,
            e.first_depth() == 1,
    {
        IterativeDeepeningEngine { depth, extra_depth, initial_depth: 1 }
    }
}

impl Engine for IterativeDeepeningEngine {
    /// The last search is no shallower than the first, and its deepest ply
    /// fits in a machine word.
    open spec fn ready(&self) -> bool {
        &&& self.first_depth() <= self.last_depth()
        &&& self.last_depth() + self.extra() <= usize::MAX
    }

    open spec fn answer(&self, game: ChessGame, white_to_play: bool) -> (int, Option<Move>) {
        let o = deepen(
            self.first_depth(),
            self.last_depth(),
            self.extra(),
            game,
            white_to_play,
            None,
        );
        (o.score, o.best_move)
    }

    fn find_best_move(&mut self, game: ChessGame, white_to_play: bool) -> (r: SearchResult) {
        let mut search_engine = AlphaBetaEngine::new(self.initial_depth, self.extra_depth);
        let mut first_move: Option<Move> = None;
        let mut depth = self.initial_depth;
        loop
            invariant
                self.initial_depth <= depth <= self.depth,
                self.depth + self.extra_depth <= usize::MAX,
                *self == *old(self),
                game.pawns_inside(),
                search_engine.well_formed(),
                first_move matches Some(m) ==> m.on_board(),
                deepen(
                    self.first_depth(),
                    self.last_depth(),
                    self.extra(),
                    game,
                    white_to_play,
                    None,
                ) == deepen(
                    depth as int,
                    self.last_depth(),
                    self.extra(),
                    game,
                    white_to_play,
                    first_move,
                ),
            decreases self.depth - depth,
        {
            search_engine.set_engine_depth(depth, self.extra_depth);
            let result = search_engine.alpha_beta_search(
                game,
                white_to_play,
                0,
                i32::MIN as ScoreType,
                i32::MAX as ScoreType,
                false,
                first_move,
            );
            if depth == self.depth {
                return result;
            }
            first_move = result.best_move;
            depth = depth + 1;
        }
    }
}

} // verus!
