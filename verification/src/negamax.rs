//! Alpha-beta search in its negamax form: every node scores the position
//! for the side to move, and a node takes the negated score of its children.

use vstd::prelude::*;
use crate::cache::ScoreCache;
use crate::chess_type::ScoreType;
use crate::engine::SearchResult;
use crate::game::ChessGame;
use crate::generation::joins_board;
use crate::alpha_beta::is_leaf;
use crate::moves::Move;
use crate::moves_container::{
    MovesContainer, SmartMoveContainer, place_all, lemma_all_placed_by_rank_keep,
};

verus! {

/// What a negamax search gives: the score for the side to move, the best
/// move, and the number of leaves that it scored.
pub struct Tally {
    pub score: int,
    pub best_move: Option<Move>,
    pub leaves: nat,
}

/// The score below which no search falls.
pub open spec fn floor_score() -> int {
    -2147483648
}

/// The outcome of the negamax search of a node.
///
/// A leaf scores the position for the side to move. Any other node tries
/// the generated moves in the order of their rank, see `negamax_explore`.
pub open spec fn negamax(
    limit: int,
    extra: int,
    game: ChessGame,
    white: bool,
    ply: int,
    alpha: int,
    beta: int,
    last_capture: bool,
) -> Tally
    decreases limit + extra - ply, 1int, 0int,
{
    if is_leaf(game, limit, extra, ply, last_capture) {
        Tally {
            score: if white {
                game.score_spec()
            } else {
                -game.score_spec()
            },
            best_move: None,
            leaves: 1,
        }
    } else {
        negamax_explore(
            limit,
            extra,
            game,
            white,
            ply,
            alpha,
            beta,
            place_all::<SmartMoveContainer>(Seq::empty(), game.moves(white)),
            floor_score(),
            None,
            0,
        )
    }
}

/// The outcome of trying the moves of `pending` at a node, `best_score` and
/// `best_move` being the best found so far and `leaves` the leaves scored.
///
/// Each move is played on a copy of the position, and the position that
/// results is searched one ply deeper for the other side, in the window
/// turned round. The node keeps a move whose negated score is higher than
/// the best so far, raises `alpha` to the best score, and cuts the rest off
/// once `alpha` has reached `beta`.
pub open spec fn negamax_explore(
    limit: int,
    extra: int,
    game: ChessGame,
    white: bool,
    ply: int,
    alpha: int,
    beta: int,
    pending: Seq<Move>,
    best_score: int,
    best_move: Option<Move>,
    leaves: nat,
) -> Tally
    decreases limit + extra - ply, 0int, pending.len(),
{
    if pending.len() == 0 || ply >= limit + extra {
        Tally { score: best_score, best_move, leaves }
    } else {
        let m = pending[0];
        let child = negamax(
            limit,
            extra,
            game.after_move(m),
            !white,
            ply + 1,
            -beta,
            -alpha,
            m.capture(),
        );
        let s = -child.score;
        let score = if s > best_score {
            s
        } else {
            best_score
        };
        let best = if s > best_score {
            Some(m)
        } else {
            best_move
        };
        let raised = if score > alpha {
            score
        } else {
            alpha
        };
        if raised >= beta {
            Tally { score, best_move: best, leaves: leaves + child.leaves }
        } else {
            negamax_explore(
                limit,
                extra,
                game,
                white,
                ply,
                raised,
                beta,
                pending.drop_first(),
                score,
                best,
                leaves + child.leaves,
            )
        }
    }
}

/// The score of a negamax search lies between the floor and its negation.
pub proof fn lemma_negamax_bounds(
    limit: int,
    extra: int,
    game: ChessGame,
    white: bool,
    ply: int,
    alpha: int,
    beta: int,
    last_capture: bool,
)
    ensures
        floor_score() <= negamax(
            limit,
            extra,
            game,
            white,
            ply,
            alpha,
            beta,
            last_capture,
        ).score <= -floor_score(),
    decreases limit + extra - ply, 1int, 0int,
{
    game.lemma_score_bound();
    if !is_leaf(game, limit, extra, ply, last_capture) {
        lemma_explore_bounds(
            limit,
            extra,
            game,
            white,
            ply,
            alpha,
            beta,
            place_all::<SmartMoveContainer>(Seq::empty(), game.moves(white)),
            floor_score(),
            None,
            0,
        );
    }
}

/// The score of the rest of a node lies between the floor and its negation
/// if the best score so far does.
pub proof fn lemma_explore_bounds(
    limit: int,
    extra: int,
    game: ChessGame,
    white: bool,
    ply: int,
    alpha: int,
    beta: int,
    pending: Seq<Move>,
    best_score: int,
    best_move: Option<Move>,
    leaves: nat,
)
    requires
        floor_score() <= best_score <= -floor_score(),
    ensures
        floor_score() <= negamax_explore(
            limit,
            extra,
            game,
            white,
            ply,
            alpha,
            beta,
            pending,
            best_score,
            best_move,
            leaves,
        ).score <= -floor_score(),
    decreases limit + extra - ply, 0int, pending.len(),
{
    if !(pending.len() == 0 || ply >= limit + extra) {
        let m = pending[0];
        lemma_negamax_bounds(
            limit,
            extra,
            game.after_move(m),
            !white,
            ply + 1,
            -beta,
            -alpha,
            m.capture(),
        );
        let child = negamax(
            limit,
            extra,
            game.after_move(m),
            !white,
            ply + 1,
            -beta,
            -alpha,
            m.capture(),
        );
        let s = -child.score;
        let score = if s > best_score { s } else { best_score };
        let best = if s > best_score { Some(m) } else { best_move };
        let raised = if score > alpha { score } else { alpha };
        if raised < beta {
            lemma_explore_bounds(
                limit,
                extra,
                game,
                white,
                ply,
                raised,
                beta,
                pending.drop_first(),
                score,
                best,
                leaves + child.leaves,
            );
        }
    }
}

/// An engine that searches to a fixed depth by negamax.
pub struct Engine {
    depth: usize,
    extra_depth: usize,
    iter: u64,
    transposition_table: ScoreCache,
}

impl Engine {
    /// The depth limit of the search, in plies.
    pub closed spec fn limit(&self) -> int {
        self.depth as int
    }

    /// By how many plies the limit is pushed back behind a capture.
    pub closed spec fn extra(&self) -> int {
        self.extra_depth as int
    }

    /// The number of leaves counted, which stops at the greatest number
    /// that the counter holds.
    pub closed spec fn counted(&self) -> nat {
        self.iter as nat
    }

    /// The cache of the engine holds the score of the position.
    pub closed spec fn cached(&self, game: ChessGame) -> bool {
        self.transposition_table.holds(game)
    }

    /// The deepest ply fits in a machine word and the cache holds true
    /// scores.
    pub closed spec fn well_formed(&self) -> bool {
        &&& self.depth + self.extra_depth <= usize::MAX
        &&& self.transposition_table.sound()
    }

    /// An engine that searches six plies deep.
    pub fn new() -> (e: Engine)
        ensures
            e.well_formed(),
            e.limit() == 6,
            e.extra() == 0,
            e.counted() == 0,
            forall|g: ChessGame| !#[trigger] e.cached(g),
    {
        Engine { depth: 6, extra_depth: 0, iter: 0, transposition_table: ScoreCache::new() }
    }

    /// Sets the depth of the search.
    pub fn set_engine_depth(&mut self, depth: usize, extra: usize)
        requires
            old(self).well_formed(),
            depth + extra <= usize::MAX,
        ensures
            final(self).well_formed(),
            final(self).limit() == depth,
            final(self).extra() == extra,
            final(self).counted() == old(self).counted(),
            forall|g: ChessGame| #[trigger] final(self).cached(g) == old(self).cached(g),
    {
        self.depth = depth;
        self.extra_depth = extra;
    }

    /// Searches the position from the root in the widest window. Gives the
    /// outcome and the number of leaves scored.
    pub fn find_best_move(&mut self, game: ChessGame, white_to_play: bool) -> (r: (
        SearchResult,
        u64,
    ))
        requires
            old(self).well_formed(),
            game.pawns_inside(),
        ensures
            final(self).well_formed(),
            final(self).limit() == old(self).limit(),
            final(self).extra() == old(self).extra(),
            ({
                let t = negamax(
                    old(self).limit(),
                    old(self).extra(),
                    game,
                    white_to_play,
                    0,
                    floor_score(),
                    -floor_score() - 1,
                    false,
                );
                &&& r.0.score == t.score
                &&& r.0.best_move == t.best_move
                &&& r.1 == if t.leaves <= u64::MAX { t.leaves } else { u64::MAX as nat }
            }),
            forall|g: ChessGame| old(self).cached(g) ==> #[trigger] final(self).cached(g),
    {
        self.iter = 0;
        let result = self.alpha_beta_search(
            game,
            white_to_play,
            0,
            i32::MIN as ScoreType,
            i32::MAX as ScoreType,
            false,
        );
        (result, self.iter)
    }

    /// Searches the node `game` at ply `depth` within the window from
    /// `alpha` to `beta`, for the side to move.
    pub fn alpha_beta_search(
        &mut self,
        game: ChessGame,
        white_to_play: bool,
        depth: usize,
        alpha: ScoreType,
        beta: ScoreType,
        last_move_capture: bool,
    ) -> (r: SearchResult)
        requires
            old(self).well_formed(),
            game.pawns_inside(),
            floor_score() <= alpha <= -floor_score(),
            floor_score() <= beta <= -floor_score(),
        ensures
            final(self).well_formed(),
            final(self).limit() == old(self).limit(),
            final(self).extra() == old(self).extra(),
            ({
                let t = negamax(
                    old(self).limit(),
                    old(self).extra(),
                    game,
                    white_to_play,
                    depth as int,
                    alpha as int,
                    beta as int,
                    last_move_capture,
                );
                let sum = old(self).counted() + t.leaves;
                &&& r.score == t.score
                &&& r.best_move == t.best_move
                &&& final(self).counted() == if sum <= u64::MAX { sum } else { u64::MAX as nat }
            }),
            forall|g: ChessGame| old(self).cached(g) ==> #[trigger] final(self).cached(g),
        decreases old(self).limit() + old(self).extra() - depth,
    {
        let ghost limit = self.limit();
        let ghost extra = self.extra();
        let ghost counted = self.counted();
        let ghost goal = negamax(
            limit,
            extra,
            game,
            white_to_play,
            depth as int,
            alpha as int,
            beta as int,
            last_move_capture,
        );
        if (!last_move_capture && depth >= self.depth) || (last_move_capture && depth >= self.depth
            + self.extra_depth) || game.is_finished() {
            if self.iter < u64::MAX {
                self.iter = self.iter + 1;
            }
            let s = self.transposition_table.entry_or_compute(&game);
            proof {
                game.lemma_score_bound();
            }
            return SearchResult { score: if white_to_play { s } else { -s }, best_move: None };
        }
        let mut lower = alpha;
        let mut container = SmartMoveContainer::new();
        game.update_move_container(&mut container, white_to_play);
        proof {
            game.lemma_moves_on_board(white_to_play);
            lemma_all_placed_by_rank_keep(
                Seq::empty(),
                game.moves(white_to_play),
                joins_board(),
            );
        }
        let mut current_score: ScoreType = i32::MIN as ScoreType;
        let mut best_move: Option<Move> = None;
        let ghost mut leaves: nat = 0;
        while container.has_next()
            invariant
                self.well_formed(),
                self.limit() == limit,
                self.extra() == extra,
                limit == old(self).limit(),
                extra == old(self).extra(),
                counted == old(self).counted(),
                forall|g: ChessGame| old(self).cached(g) ==> #[trigger] self.cached(g),
                depth < limit + extra,
                game.pawns_inside(),
                container.well_formed(),
                forall|i: int|
                    0 <= i < container.pending().len() ==> (#[trigger] container.pending()[i]).on_board(),
                floor_score() <= alpha <= -floor_score(),
                floor_score() <= lower <= -floor_score(),
                floor_score() <= beta <= -floor_score(),
                floor_score() <= current_score <= -floor_score(),
                self.counted() == if counted + leaves <= u64::MAX {
                    counted + leaves
                } else {
                    u64::MAX as nat
                },
                goal == negamax(
                    limit,
                    extra,
                    game,
                    white_to_play,
                    depth as int,
                    alpha as int,
                    beta as int,
                    last_move_capture,
                ),
                goal == negamax_explore(
                    limit,
                    extra,
                    game,
                    white_to_play,
                    depth as int,
                    lower as int,
                    beta as int,
                    container.pending(),
                    current_score as int,
                    best_move,
                    leaves,
                ),
            decreases container.pending().len(),
        {
            let ghost pending = container.pending();
            let m = container.get_next();
            assert(m == pending[0] && m.on_board());
            let new_game = game.played(&m);
            proof {
                lemma_negamax_bounds(
                    limit,
                    extra,
                    game.after_move(m),
                    !white_to_play,
                    depth + 1,
                    -(beta as int),
                    -(lower as int),
                    m.capture(),
                );
            }
            let result = self.alpha_beta_search(
                new_game,
                !white_to_play,
                depth + 1,
                -beta,
                -lower,
                m.is_capture(),
            );
            let ghost child = negamax(
                limit,
                extra,
                game.after_move(m),
                !white_to_play,
                depth + 1,
                -(beta as int),
                -(lower as int),
                m.capture(),
            );
            let ghost was_score = current_score as int;
            let ghost was_best = best_move;
            let ghost was_alpha = lower as int;
            let s = -result.score;
            if s > current_score {
                best_move = Some(m);
                current_score = s;
            }
            if current_score > lower {
                lower = current_score;
            }
            proof {
                assert(goal == negamax_explore(
                    limit,
                    extra,
                    game,
                    white_to_play,
                    depth as int,
                    was_alpha,
                    beta as int,
                    pending,
                    was_score,
                    was_best,
                    leaves,
                ));
                assert(goal == if lower >= beta {
                    Tally {
                        score: current_score as int,
                        best_move,
                        leaves: leaves + child.leaves,
                    }
                } else {
                    negamax_explore(
                        limit,
                        extra,
                        game,
                        white_to_play,
                        depth as int,
                        lower as int,
                        beta as int,
                        pending.drop_first(),
                        current_score as int,
                        best_move,
                        leaves + child.leaves,
                    )
                });
                leaves = leaves + child.leaves;
                assert(self.counted() == if counted + leaves <= u64::MAX {
                    counted + leaves
                } else {
                    u64::MAX as nat
                });
                assert(lower >= beta ==> goal == Tally {
                    score: current_score as int,
                    best_move,
                    leaves,
                });
            }
            if lower >= beta {
                return SearchResult { score: current_score, best_move };
            }
            assert forall|i: int| 0 <= i < container.pending().len() implies (
            #[trigger] container.pending()[i]).on_board() by {
                assert(container.pending()[i] == pending[i + 1]);
            }
        }
        SearchResult { score: current_score, best_move }
    }
}

} // verus!
