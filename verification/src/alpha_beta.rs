//! Fail-soft alpha-beta search over absolute scores, with ordered moves,
//! killer moves, an extension of the horizon behind captures, and a cache of
//! the scores of the leaves.

use vstd::prelude::*;
use crate::cache::ScoreCache;
use crate::chess_type::ScoreType;
use crate::engine::{Engine, SearchResult};
use crate::game::ChessGame;
use crate::generation::joins_board;
use crate::moves::{Move, MoveQuality};
use crate::moves_container::{
    MovesContainer, SmartMoveContainer, place_all, slot, lemma_slot, lemma_placed_by_rank,
    lemma_placed_by_rank_keeps, lemma_all_placed_by_rank_keep, lemma_all_placed_by_rank_ordered,
    lemma_principal_first,
};

verus! {

/// What a search gives: the score, the best move, and the killer moves
/// remembered at each ply when the search ends.
pub struct Outcome {
    pub score: int,
    pub best_move: Option<Move>,
    pub killers: Seq<Seq<Move>>,
}

/// The lower end of the window in which a search starts.
pub open spec fn lowest_bound() -> int {
    -2147483648
}

/// The upper end of the window in which a search starts.
pub open spec fn highest_bound() -> int {
    2147483647
}

/// The score from which the side to move starts: the worst for it.
pub open spec fn worst_score(white: bool) -> int {
    if white {
        -9223372036854775808
    } else {
        9223372036854775807
    }
}

/// A table of killer moves with no move at any of its `n` plies.
pub open spec fn no_killers(n: int) -> Seq<Seq<Move>> {
    Seq::new(n as nat, |i: int| Seq::<Move>::empty())
}

/// The search stops at this node: a king is gone, or the ply has reached
/// the depth limit, pushed back by `extra` when the last move was a capture.
pub open spec fn is_leaf(game: ChessGame, limit: int, extra: int, ply: int, last_capture: bool) -> bool {
    ||| !last_capture && ply >= limit
    ||| last_capture && ply >= limit + extra
    ||| game.finished()
}

/// The moves tried at a node, in the order in which they are tried: the
/// generated moves, the seed as principal move, and the first two killer
/// moves of the ply, ordered by rank.
pub open spec fn candidates(
    game: ChessGame,
    white: bool,
    seed: Option<Move>,
    killers: Seq<Move>,
) -> Seq<Move> {
    let generated = place_all::<SmartMoveContainer>(Seq::empty(), game.moves(white));
    let seeded = match seed {
        Some(m) => SmartMoveContainer::place(generated, m.retagged(MoveQuality::Principal)),
        None => generated,
    };
    let one = if killers.len() >= 1 {
        SmartMoveContainer::place(seeded, killers[0].retagged(MoveQuality::KillerMove))
    } else {
        seeded
    };
    if killers.len() >= 2 {
        SmartMoveContainer::place(one, killers[1].retagged(MoveQuality::KillerMove))
    } else {
        one
    }
}

/// A tag below that of a killer move.
pub open spec fn plain() -> spec_fn(Move) -> bool {
    |m: Move| m.quality.rank_spec() <= 3
}

/// The seed of a node is the first move that the node tries.
pub proof fn lemma_seed_is_tried_first(
    game: ChessGame,
    white: bool,
    seed: Move,
    killers: Seq<Move>,
)
    requires
        game.pawns_inside(),
    ensures
        candidates(game, white, Some(seed), killers)[0] == seed.retagged(MoveQuality::Principal),
{
    let generated = place_all::<SmartMoveContainer>(Seq::empty(), game.moves(white));
    let first = seed.retagged(MoveQuality::Principal);
    game.lemma_moves_are_untagged(white);
    lemma_all_placed_by_rank_keep(Seq::empty(), game.moves(white), plain());
    lemma_all_placed_by_rank_ordered(game.moves(white));
    assert forall|i: int| 0 <= i < generated.len() implies (#[trigger] generated[i]).quality
        != MoveQuality::Principal by {
        assert(plain()(generated[i]));
    }
    lemma_principal_first(generated, seed);
    let seeded = SmartMoveContainer::place(generated, first);
    lemma_placed_by_rank(generated, first);
    if killers.len() >= 1 {
        let k0 = killers[0].retagged(MoveQuality::KillerMove);
        lemma_placed_by_rank(seeded, k0);
        let one = SmartMoveContainer::place(seeded, k0);
        assert(slot(seeded, 4) >= 1) by {
            lemma_slot(seeded, 4);
        }
        assert(one[0] == first);
        if killers.len() >= 2 {
            let k1 = killers[1].retagged(MoveQuality::KillerMove);
            lemma_placed_by_rank(one, k1);
            assert(slot(one, 4) >= 1) by {
                lemma_slot(one, 4);
            }
        }
    }
}

/// The table of killer moves after `m` has caused a cutoff at `ply`: the
/// move is remembered unless the ply already holds two.
pub open spec fn remember(killers: Seq<Seq<Move>>, ply: int, m: Move) -> Seq<Seq<Move>> {
    if 0 <= ply < killers.len() && killers[ply].len() < 2 {
        killers.update(ply, killers[ply].push(m))
    } else {
        killers
    }
}

/// The outcome of the search of a node.
///
/// A leaf gives its static score and no move, and so does a node at a ply
/// for which the table of killer moves has no entry. Any other node tries
/// its candidates in order, see `explore`.
pub open spec fn search(
    limit: int,
    extra: int,
    game: ChessGame,
    white: bool,
    ply: int,
    alpha: int,
    beta: int,
    last_capture: bool,
    seed: Option<Move>,
    killers: Seq<Seq<Move>>,
) -> Outcome
    decreases limit + extra - ply, 1int, 0int,
{
    if is_leaf(game, limit, extra, ply, last_capture) || ply < 0 || ply >= killers.len() {
        Outcome { score: game.score_spec(), best_move: None, killers }
    } else {
        explore(
            limit,
            extra,
            game,
            white,
            ply,
            alpha,
            beta,
            candidates(game, white, seed, killers[ply]),
            worst_score(white),
            None,
            killers,
        )
    }
}

/// Where a node stands after some of its moves were tried.
pub struct Verdict {
    /// The best score found so far.
    pub score: int,
    /// The move that gave the best score.
    pub best_move: Option<Move>,
    /// The lower end of the window.
    pub alpha: int,
    /// The upper end of the window.
    pub beta: int,
    /// The rest of the moves is cut off.
    pub cutoff: bool,
}

/// Where a node stands after the move `m` was found to score `child`.
///
/// White keeps a move that scores higher than the best so far and raises
/// `alpha` to the best score; the rest is cut off once the best score
/// reaches `beta`. Black keeps a move that scores lower and lowers `beta`;
/// the rest is cut off once the best score is down to `alpha`.
pub open spec fn judge(
    white: bool,
    alpha: int,
    beta: int,
    best_score: int,
    best_move: Option<Move>,
    m: Move,
    child: int,
) -> Verdict {
    let improved = if white {
        child > best_score
    } else {
        child < best_score
    };
    let score = if improved {
        child
    } else {
        best_score
    };
    let best = if improved {
        Some(m)
    } else {
        best_move
    };
    if white {
        Verdict {
            score,
            best_move: best,
            alpha: if score > alpha { score } else { alpha },
            beta,
            cutoff: score >= beta,
        }
    } else {
        Verdict {
            score,
            best_move: best,
            alpha,
            beta: if score < beta { score } else { beta },
            cutoff: score <= alpha,
        }
    }
}

/// The outcome of trying the moves of `pending` at a node, `best_score` and
/// `best_move` being the best found so far.
///
/// Each move is played on a copy of the position, and the position that
/// results is searched one ply deeper within the window. What the node
/// makes of the score is told by `judge`. A move of white that cuts the
/// rest off is remembered as a killer move of the ply.
pub open spec fn explore(
    limit: int,
    extra: int,
    game: ChessGame,
    white: bool,
    ply: int,
    alpha: int,
    beta: int,
    pending: Seq<Move>,
    best_score: int,
    best_move: Option<Move>,
    killers: Seq<Seq<Move>>,
) -> Outcome
    decreases limit + extra - ply, 0int, pending.len(),
{
    if pending.len() == 0 || ply >= limit + extra {
        Outcome { score: best_score, best_move, killers }
    } else {
        let m = pending[0];
        let child = search(
            limit,
            extra,
            game.after_move(m),
            !white,
            ply + 1,
            alpha,
            beta,
            m.capture(),
            None,
            killers,
        );
        let v = judge(white, alpha, beta, best_score, best_move, m, child.score);
        if v.cutoff {
            Outcome {
                score: v.score,
                best_move: v.best_move,
                killers: if white {
                    remember(child.killers, ply, m)
                } else {
                    child.killers
                },
            }
        } else {
            explore(
                limit,
                extra,
                game,
                white,
                ply,
                v.alpha,
                v.beta,
                pending.drop_first(),
                v.score,
                v.best_move,
                child.killers,
            )
        }
    }
}

/// Where a node stands, in machine integers.
#[derive(Clone, Copy)]
pub struct Progress {
    pub score: ScoreType,
    pub best_move: Option<Move>,
    pub alpha: ScoreType,
    pub beta: ScoreType,
}

/// Takes the score `child` of the move `m` into account. The boolean tells
/// whether the rest of the moves is cut off.
pub fn absorb(white: bool, p: Progress, m: Move, child: ScoreType) -> (r: (Progress, bool))
    ensures
        ({
            let v = judge(
                white,
                p.alpha as int,
                p.beta as int,
                p.score as int,
                p.best_move,
                m,
                child as int,
            );
            &&& r.0.score == v.score
            &&& r.0.best_move == v.best_move
            &&& r.0.alpha == v.alpha
            &&& r.0.beta == v.beta
            &&& r.1 == v.cutoff
        }),
{
    let mut score = p.score;
    let mut best_move = p.best_move;
    let mut alpha = p.alpha;
    let mut beta = p.beta;
    if white {
        if child > score {
            best_move = Some(m);
            score = child;
        }
        if score > alpha {
            alpha = score;
        }
        (Progress { score, best_move, alpha, beta }, score >= beta)
    } else {
        if child < score {
            best_move = Some(m);
            score = child;
        }
        if score < beta {
            beta = score;
        }
        (Progress { score, best_move, alpha, beta }, score <= alpha)
    }
}

/// The best move of the rest of a node is the best move so far or one of
/// the moves yet to try.
pub proof fn lemma_explore_best(
    limit: int,
    extra: int,
    game: ChessGame,
    white: bool,
    ply: int,
    alpha: int,
    beta: int,
    pending: Seq<Move>,
    best_score: int,
    best_move: Option<Move>,
    killers: Seq<Seq<Move>>,
)
    ensures
        ({
            let found = explore(
                limit,
                extra,
                game,
                white,
                ply,
                alpha,
                beta,
                pending,
                best_score,
                best_move,
                killers,
            ).best_move;
            found == best_move || (found is Some && pending.contains(found->0))
        }),
    decreases pending.len(),
{
    if !(pending.len() == 0 || ply >= limit + extra) {
        let m = pending[0];
        let child = search(
            limit,
            extra,
            game.after_move(m),
            !white,
            ply + 1,
            alpha,
            beta,
            m.capture(),
            None,
            killers,
        );
        let v = judge(white, alpha, beta, best_score, best_move, m, child.score);
        if !v.cutoff {
            lemma_explore_best(
                limit,
                extra,
                game,
                white,
                ply,
                v.alpha,
                v.beta,
                pending.drop_first(),
                v.score,
                v.best_move,
                child.killers,
            );
            let found = explore(
                limit,
                extra,
                game,
                white,
                ply,
                v.alpha,
                v.beta,
                pending.drop_first(),
                v.score,
                v.best_move,
                child.killers,
            ).best_move;
            if found is Some && pending.drop_first().contains(found->0) {
                let i = choose|i: int|
                    0 <= i < pending.drop_first().len() && pending.drop_first()[i] == found->0;
                assert(pending[i + 1] == found->0);
            }
        }
    }
}

/// The best move of a node is one of the moves that the node tries.
pub proof fn lemma_search_best(
    limit: int,
    extra: int,
    game: ChessGame,
    white: bool,
    ply: int,
    alpha: int,
    beta: int,
    last_capture: bool,
    seed: Option<Move>,
    killers: Seq<Seq<Move>>,
)
    ensures
        search(
            limit,
            extra,
            game,
            white,
            ply,
            alpha,
            beta,
            last_capture,
            seed,
            killers,
        ).best_move matches Some(m) ==> 0 <= ply < killers.len() && candidates(
            game,
            white,
            seed,
            killers[ply],
        ).contains(m),
{
    if !(is_leaf(game, limit, extra, ply, last_capture) || ply < 0 || ply >= killers.len()) {
        lemma_explore_best(
            limit,
            extra,
            game,
            white,
            ply,
            alpha,
            beta,
            candidates(game, white, seed, killers[ply]),
            worst_score(white),
            None,
            killers,
        );
    }
}

/// The move that a search from the root finds is a move of the side to
/// move that obeys the geometry of its piece.
pub proof fn lemma_found_move_is_pseudo_legal(limit: int, extra: int, game: ChessGame, white: bool)
    requires
        game.pawns_inside(),
    ensures
        search(
            limit,
            extra,
            game,
            white,
            0,
            lowest_bound(),
            highest_bound(),
            false,
            None,
            no_killers(limit + extra),
        ).best_move matches Some(m) ==> game.pseudo_legal(white, m),
{
    let killers = no_killers(limit + extra);
    let found = search(
        limit,
        extra,
        game,
        white,
        0,
        lowest_bound(),
        highest_bound(),
        false,
        None,
        killers,
    ).best_move;
    lemma_search_best(
        limit,
        extra,
        game,
        white,
        0,
        lowest_bound(),
        highest_bound(),
        false,
        None,
        killers,
    );
    if found is Some {
        let tried = candidates(game, white, None, killers[0]);
        game.lemma_moves_sound(white);
        lemma_all_placed_by_rank_keep(Seq::empty(), game.moves(white), game.is_pseudo_legal(white));
        let i = choose|i: int| 0 <= i < tried.len() && tried[i] == found->0;
        assert(game.is_pseudo_legal(white)(tried[i]));
    }
}

/// Every killer move of the table joins two squares of the board.
pub open spec fn killers_on_board(killers: Seq<Seq<Move>>) -> bool {
    forall|i: int, j: int|
        0 <= i < killers.len() && 0 <= j < killers[i].len() ==> (#[trigger] killers[i][j]).on_board()
}

/// The killer moves of a table of vectors, as a sequence of sequences.
pub open spec fn killer_view(table: Seq<Vec<Move>>) -> Seq<Seq<Move>> {
    Seq::new(table.len(), |i: int| table[i]@)
}

/// An engine that searches to a fixed depth by alpha-beta pruning.
pub struct AlphaBetaEngine {
    depth: usize,
    extra_depth: usize,
    transposition_table: ScoreCache,
    killer_moves: Vec<Vec<Move>>,
}

impl AlphaBetaEngine {
    /// The depth limit of the search, in plies.
    pub closed spec fn limit(&self) -> int {
        self.depth as int
    }

    /// By how many plies the limit is pushed back behind a capture.
    pub closed spec fn extra(&self) -> int {
        self.extra_depth as int
    }

    /// The killer moves remembered at each ply.
    pub closed spec fn killers(&self) -> Seq<Seq<Move>> {
        killer_view(self.killer_moves@)
    }

    /// The cache of the engine holds the score of the position.
    pub closed spec fn cached(&self, game: ChessGame) -> bool {
        self.transposition_table.holds(game)
    }

    /// The settings of the engine are sound, whatever its killer moves: the
    /// deepest ply fits in a machine word and the cache holds true scores.
    pub closed spec fn configured(&self) -> bool {
        &&& self.depth + self.extra_depth <= usize::MAX
        &&& self.transposition_table.sound()
    }

    /// The invariant of the engine: the table of killer moves has one entry
    /// for each ply that a search may reach, its moves join squares of the
    /// board, and the cache holds true scores.
    pub closed spec fn well_formed(&self) -> bool {
        &&& self.depth + self.extra_depth <= usize::MAX
        &&& self.killer_moves@.len() == self.depth + self.extra_depth
        &&& killers_on_board(self.killers())
        &&& self.transposition_table.sound()
    }

    /// An engine that searches `depth` plies, and up to `extra_depth` plies
    /// more behind captures.
    pub fn new(depth: usize, extra_depth: usize) -> (e: AlphaBetaEngine)
        requires
            depth + extra_depth <= usize::MAX,
        ensures
            e.well_formed(),
            e.limit() == depth,
            e.extra() == extra_depth,
            e.killers() == no_killers(depth + extra_depth),
            forall|g: ChessGame| !#[trigger] e.cached(g),
    {
        let mut e = AlphaBetaEngine {
            depth,
            extra_depth,
            transposition_table: ScoreCache::new(),
            killer_moves: Vec::new(),
        };
        e.reset_killer_moves();
        e
    }

    /// Sets the depth of the search and forgets the killer moves.
    pub fn set_engine_depth(&mut self, depth: usize, extra: usize)
        requires
            old(self).well_formed(),
            depth + extra <= usize::MAX,
        ensures
            final(self).well_formed(),
            final(self).limit() == depth,
            final(self).extra() == extra,
            final(self).killers() == no_killers(depth + extra),
            forall|g: ChessGame| #[trigger] final(self).cached(g) == old(self).cached(g),
    {
        self.depth = depth;
        self.extra_depth = extra;
        self.reset_killer_moves();
    }

    /// Forgets the killer moves of all plies.
    pub fn reset_killer_moves(&mut self)
        requires
            old(self).configured(),
        ensures
            final(self).well_formed(),
            final(self).limit() == old(self).limit(),
            final(self).extra() == old(self).extra(),
            final(self).killers() == no_killers(old(self).limit() + old(self).extra()),
            forall|g: ChessGame| #[trigger] final(self).cached(g) == old(self).cached(g),
    {
        self.killer_moves.clear();
        let n = self.depth + self.extra_depth;
        let mut i: usize = 0;
        while i < n
            invariant
                i <= n,
                n == self.depth + self.extra_depth,
                self.depth == old(self).depth,
                self.extra_depth == old(self).extra_depth,
                self.transposition_table == old(self).transposition_table,
                self.killer_moves@.len() == i,
                forall|j: int| 0 <= j < i ==> (#[trigger] self.killer_moves@[j])@.len() == 0,
            decreases n - i,
        {
            self.killer_moves.push(Vec::new());
            i = i + 1;
        }
        assert(self.killers() =~~= no_killers(n as int));
    }

    /// Whether the search stops at this node.
    fn at_leaf(&self, game: &ChessGame, depth: usize, is_last_move_a_capture: bool) -> (r: bool)
        requires
            self.well_formed(),
        ensures
            r == (is_leaf(
                *game,
                self.limit(),
                self.extra(),
                depth as int,
                is_last_move_a_capture,
            ) || depth >= self.killers().len()),
            !r ==> depth < self.limit() + self.extra(),
    {
        (!is_last_move_a_capture && depth >= self.depth) || (is_last_move_a_capture && depth
            >= self.depth + self.extra_depth) || game.is_finished()
    }

    /// The moves to try at a node, ordered.
    fn gather_candidates(
        &self,
        game: &ChessGame,
        white_to_play: bool,
        depth: usize,
        first_move_to_evaluate: Option<Move>,
    ) -> (container: SmartMoveContainer)
        requires
            self.well_formed(),
            depth < self.killers().len(),
            game.pawns_inside(),
            first_move_to_evaluate matches Some(m) ==> m.on_board(),
        ensures
            container.well_formed(),
            container.pending() == candidates(
                *game,
                white_to_play,
                first_move_to_evaluate,
                self.killers()[depth as int],
            ),
            forall|i: int|
                0 <= i < container.pending().len() ==> (#[trigger] container.pending()[i]).on_board(),
    {
        let mut container = SmartMoveContainer::new();
        game.update_move_container(&mut container, white_to_play);
        proof {
            game.lemma_moves_on_board(white_to_play);
            lemma_all_placed_by_rank_keep(
                Seq::empty(),
                game.moves(white_to_play),
                joins_board(),
            );
        }
        if let Some(first_move) = first_move_to_evaluate {
            proof {
                lemma_placed_by_rank_keeps(
                    container.pending(),
                    first_move.retagged(MoveQuality::Principal),
                    joins_board(),
                );
            }
            container.set_first_move(first_move);
        }
        let known = self.killer_moves[depth].len();
        if known >= 1 {
            let k = self.killer_moves[depth][0];
            proof {
                assert(self.killers()[depth as int][0] == k);
                lemma_placed_by_rank_keeps(
                    container.pending(),
                    k.retagged(MoveQuality::KillerMove),
                    joins_board(),
                );
            }
            container.add_killer_move(k);
        }
        if known >= 2 {
            let k = self.killer_moves[depth][1];
            proof {
                assert(self.killers()[depth as int][1] == k);
                lemma_placed_by_rank_keeps(
                    container.pending(),
                    k.retagged(MoveQuality::KillerMove),
                    joins_board(),
                );
            }
            container.add_killer_move(k);
        }
        container
    }

    /// Remembers `m` as a killer move of the ply, unless the ply holds two.
    fn remember_killer(&mut self, depth: usize, m: Move)
        requires
            old(self).well_formed(),
            m.on_board(),
        ensures
            final(self).well_formed(),
            final(self).limit() == old(self).limit(),
            final(self).extra() == old(self).extra(),
            final(self).killers() == remember(old(self).killers(), depth as int, m),
            forall|g: ChessGame| #[trigger] final(self).cached(g) == old(self).cached(g),
    {
        if depth < self.killer_moves.len() {
            if self.killer_moves[depth].len() < 2 {
                self.killer_moves[depth].push(m);
                assert(self.killers() =~~= remember(old(self).killers(), depth as int, m));
            }
        }
    }

    /// Searches the node `game` at ply `depth` within the window from
    /// `alpha` to `beta`.
    pub fn alpha_beta_search(
        &mut self,
        game: ChessGame,
        white_to_play: bool,
        depth: usize,
        alpha: ScoreType,
        beta: ScoreType,
        is_last_move_a_capture: bool,
        first_move_to_evaluate: Option<Move>,
    ) -> (r: SearchResult)
        requires
            old(self).well_formed(),
            game.pawns_inside(),
            first_move_to_evaluate matches Some(m) ==> m.on_board(),
        ensures
            final(self).well_formed(),
            final(self).limit() == old(self).limit(),
            final(self).extra() == old(self).extra(),
            ({
                let o = search(
                    old(self).limit(),
                    old(self).extra(),
                    game,
                    white_to_play,
                    depth as int,
                    alpha as int,
                    beta as int,
                    is_last_move_a_capture,
                    first_move_to_evaluate,
                    old(self).killers(),
                );
                &&& r.score == o.score
                &&& r.best_move == o.best_move
                &&& final(self).killers() == o.killers
            }),
            r.best_move matches Some(m) ==> m.on_board(),
            forall|g: ChessGame| old(self).cached(g) ==> #[trigger] final(self).cached(g),
            is_leaf(
                game,
                old(self).limit(),
                old(self).extra(),
                depth as int,
                is_last_move_a_capture,
            ) ==> forall|g: ChessGame|
                #[trigger] final(self).cached(g) == (old(self).cached(g) || g == game),
        decreases old(self).limit() + old(self).extra() - depth,
    {
        if self.at_leaf(&game, depth, is_last_move_a_capture) {
            let s = self.transposition_table.entry_or_compute(&game);
            return SearchResult { score: s, best_move: None };
        }
        let ghost limit = self.limit();
        let ghost extra = self.extra();
        let ghost goal = search(
            limit,
            extra,
            game,
            white_to_play,
            depth as int,
            alpha as int,
            beta as int,
            is_last_move_a_capture,
            first_move_to_evaluate,
            self.killers(),
        );
        let mut container = self.gather_candidates(
            &game,
            white_to_play,
            depth,
            first_move_to_evaluate,
        );
        let mut p = Progress {
            score: if white_to_play { ScoreType::MIN } else { ScoreType::MAX },
            best_move: None,
            alpha,
            beta,
        };
        while container.has_next()
            invariant
                self.well_formed(),
                self.limit() == limit,
                self.extra() == extra,
                depth < limit + extra,
                game.pawns_inside(),
                container.well_formed(),
                forall|i: int|
                    0 <= i < container.pending().len() ==> (#[trigger] container.pending()[i]).on_board(),
                p.best_move matches Some(m) ==> m.on_board(),
                forall|g: ChessGame| old(self).cached(g) ==> #[trigger] self.cached(g),
                !is_leaf(game, limit, extra, depth as int, is_last_move_a_capture),
                limit == old(self).limit(),
                extra == old(self).extra(),
                goal == search(
                    limit,
                    extra,
                    game,
                    white_to_play,
                    depth as int,
                    alpha as int,
                    beta as int,
                    is_last_move_a_capture,
                    first_move_to_evaluate,
                    old(self).killers(),
                ),
                goal == explore(
                    limit,
                    extra,
                    game,
                    white_to_play,
                    depth as int,
                    p.alpha as int,
                    p.beta as int,
                    container.pending(),
                    p.score as int,
                    p.best_move,
                    self.killers(),
                ),
            decreases container.pending().len(),
        {
            let ghost pending = container.pending();
            let ghost known = self.killers();
            let m = container.get_next();
            assert(m == pending[0] && m.on_board());
            let new_game = game.played(&m);
            let result = self.alpha_beta_search(
                new_game,
                !white_to_play,
                depth + 1,
                p.alpha,
                p.beta,
                m.is_capture(),
                None,
            );
            let ghost child = search(
                limit,
                extra,
                game.after_move(m),
                !white_to_play,
                depth + 1,
                p.alpha as int,
                p.beta as int,
                m.capture(),
                None,
                known,
            );
            let ghost was = p;
            let ghost v = judge(
                white_to_play,
                was.alpha as int,
                was.beta as int,
                was.score as int,
                was.best_move,
                m,
                child.score,
            );
            let (next, cutoff) = absorb(white_to_play, p, m, result.score);
            p = next;
            assert(goal == if v.cutoff {
                Outcome {
                    score: v.score,
                    best_move: v.best_move,
                    killers: if white_to_play {
                        remember(child.killers, depth as int, m)
                    } else {
                        child.killers
                    },
                }
            } else {
                explore(
                    limit,
                    extra,
                    game,
                    white_to_play,
                    depth as int,
                    v.alpha,
                    v.beta,
                    pending.drop_first(),
                    v.score,
                    v.best_move,
                    child.killers,
                )
            });
            if cutoff {
                if white_to_play {
                    self.remember_killer(depth, m);
                }
                return SearchResult { score: p.score, best_move: p.best_move };
            }
            assert forall|i: int| 0 <= i < container.pending().len() implies (
            #[trigger] container.pending()[i]).on_board() by {
                assert(container.pending()[i] == pending[i + 1]);
            }
        }
        SearchResult { score: p.score, best_move: p.best_move }
    }
}

impl Engine for AlphaBetaEngine {
    open spec fn ready(&self) -> bool {
        self.well_formed()
    }

    open spec fn answer(&self, game: ChessGame, white_to_play: bool) -> (int, Option<Move>) {
        let o = search(
            self.limit(),
            self.extra(),
            game,
            white_to_play,
            0,
            lowest_bound(),
            highest_bound(),
            false,
            None,
            no_killers(self.limit() + self.extra()),
        );
        (o.score, o.best_move)
    }

    /// Forgets the killer moves and searches from the root in the widest
    /// window.
    fn find_best_move(&mut self, game: ChessGame, white_to_play: bool) -> (r: SearchResult)
        ensures
            forall|g: ChessGame| old(self).cached(g) ==> #[trigger] final(self).cached(g),
    {
        self.reset_killer_moves();
        self.alpha_beta_search(
            game,
            white_to_play,
            0,
            i32::MIN as ScoreType,
            i32::MAX as ScoreType,
            false,
            None,
        )
    }
}

} // verus!
