//! The engine behind the Universal Chess Interface: what to answer to each
//! command, and how each command changes the game that is being played.

use vstd::prelude::*;
use vstd::string::StringExecFns;
use crate::engine::Engine;
use crate::game::ChessGame;
use crate::game_constructor::{fen_position, standard_position};
use crate::iterative_deepening::{IterativeDeepeningEngine, deepen};
use crate::moves::{Move, MoveQuality};
use crate::utils::{ChessPosition, index_to_chesspos, text_of_square};

verus! {

/// A move as the interface writes it: the file letter and the rank number
/// of the square that it leaves and of the square that it reaches.
#[derive(Clone, Copy, Debug)]
pub struct UciStep {
    pub from_file: char,
    pub from_rank: u8,
    pub to_file: char,
    pub to_rank: u8,
}

/// A command of the interface.
#[derive(Debug)]
pub enum UciCommand {
    /// `uci`: the engine is asked to present itself.
    Uci,
    /// `isready`: the engine is asked whether it is ready.
    IsReady,
    /// `quit`: the engine is asked to stop.
    Quit,
    /// `ucinewgame`: a new game begins.
    UciNewGame,
    /// `position`: the position to search, given by the standard opening or
    /// by a FEN record, and by the moves played from there.
    Position { startpos: bool, fen: Option<String>, moves: Vec<UciStep> },
    /// `go`: the engine is asked to search.
    Go,
    /// Any other command, in the words in which to log it.
    Other(String),
}

/// What the engine does in answer to a command.
#[derive(Debug)]
pub enum UciAnswer {
    /// Nothing.
    Nothing,
    /// It presents itself.
    Initialize,
    /// It logs a line and sends nothing.
    Debug(String),
    /// It says that it is ready.
    EngineReady,
    /// It sends its best move.
    BestMove(Move),
    /// It stops.
    Quit,
}

/// The index of a file letter among `a` to `h`.
pub open spec fn file_index(file: char) -> Option<int> {
    crate::utils::file_of_char(file)
}

/// The square of a file letter and a rank number, if the letter is one of
/// `a` to `h` and the number one of 1 to 8.
pub open spec fn uci_square(file: char, rank: u8) -> Option<int> {
    if file_index(file) is Some && 1 <= rank <= 8 {
        Some((rank - 1) * 8 + file_index(file)->0)
    } else {
        None
    }
}

/// The move that a step stands for when the given side plays it, if both
/// of its squares are squares of the board.
pub open spec fn step_move(step: UciStep, white: bool) -> Option<Move> {
    if uci_square(step.from_file, step.from_rank) is Some && uci_square(
        step.to_file,
        step.to_rank,
    ) is Some {
        Some(
            Move {
                from: uci_square(step.from_file, step.from_rank)->0 as i8,
                to: uci_square(step.to_file, step.to_rank)->0 as i8,
                is_white: white,
                quality: MoveQuality::Motion,
            },
        )
    } else {
        None
    }
}

/// Every step of the sequence stands for a move.
pub open spec fn steps_valid(steps: Seq<UciStep>) -> bool {
    forall|i: int| 0 <= i < steps.len() ==> step_move(#[trigger] steps[i], true) is Some
}

/// The game and the side to move after the steps of `steps` were played in
/// turn, the side changing with every step.
pub open spec fn play_steps(game: ChessGame, white: bool, steps: Seq<UciStep>) -> (ChessGame, bool)
    decreases steps.len(),
{
    if steps.len() == 0 {
        (game, white)
    } else {
        let before = play_steps(game, white, steps.drop_last());
        (before.0.after_move(step_move(steps.last(), before.1)->0), !before.1)
    }
}

/// The square of a file letter and a rank number.
pub fn uci_square_to_chess_position(file: char, rank: u8) -> (r: Option<ChessPosition>)
    ensures
        r is Some == uci_square(file, rank) is Some,
        r is Some ==> r->0 == uci_square(file, rank)->0,
{
    let file_index: i8 = if file == 'a' {
        0
    } else if file == 'b' {
        1
    } else if file == 'c' {
        2
    } else if file == 'd' {
        3
    } else if file == 'e' {
        4
    } else if file == 'f' {
        5
    } else if file == 'g' {
        6
    } else if file == 'h' {
        7
    } else {
        return None;
    };
    if rank < 1 || rank > 8 {
        return None;
    }
    let rank_index = (rank - 1) as i8;
    Some(rank_index * 8 + file_index)
}

/// The move that a step stands for when the given side plays it.
pub fn uci_move_to_move(step: &UciStep, is_white: bool) -> (r: Option<Move>)
    ensures
        r == step_move(*step, is_white),
{
    let from = uci_square_to_chess_position(step.from_file, step.from_rank);
    let to = uci_square_to_chess_position(step.to_file, step.to_rank);
    match (from, to) {
        (Some(from), Some(to)) => Some(
            Move { from, to, is_white, quality: MoveQuality::Motion },
        ),
        _ => None,
    }
}

/// Whether every step stands for a move.
fn all_steps_valid(moves: &Vec<UciStep>) -> (r: bool)
    ensures
        r == steps_valid(moves@),
{
    let mut i: usize = 0;
    while i < moves.len()
        invariant
            i <= moves@.len(),
            forall|j: int| 0 <= j < i ==> step_move(#[trigger] moves@[j], true) is Some,
        decreases moves@.len() - i,
    {
        if uci_move_to_move(&moves[i], true).is_none() {
            return false;
        }
        i = i + 1;
    }
    true
}

impl UciAnswer {
    /// The line to send and the line to log that the answer stands for.
    pub fn into_formatted(self) -> (r: (Option<String>, Option<String>))
        requires
            self matches UciAnswer::BestMove(m) ==> m.on_board(),
        ensures
            match self {
                UciAnswer::Nothing => r.0 is None && r.1 is None,
                UciAnswer::Quit => r.0 is None && r.1 is None,
                UciAnswer::Initialize => r.0 is Some && r.0->0@
                    == "id name Chessean \n id author Arthur Bricq \nuciok"@ && r.1 is None,
                UciAnswer::Debug(message) => r.0 is None && r.1 == Some(message),
                UciAnswer::EngineReady => r.0 is Some && r.0->0@ == "readyok"@ && r.1 is None,
                UciAnswer::BestMove(m) => r.0 is Some && r.0->0@ == "bestmove "@ + text_of_square(
                    m.from as int,
                ) + text_of_square(m.to as int) && r.1 is None,
            },
    {
        match self {
            UciAnswer::Nothing => (None, None),
            UciAnswer::Quit => (None, None),
            UciAnswer::Initialize => (
                Some(String::from_str("id name Chessean \n id author Arthur Bricq \nuciok")),
                None,
            ),
            UciAnswer::Debug(message) => (None, Some(message)),
            UciAnswer::EngineReady => (Some(String::from_str("readyok")), None),
            UciAnswer::BestMove(mv) => {
                let from = index_to_chesspos(mv.from);
                let to = index_to_chesspos(mv.to);
                let line = String::from_str("bestmove ").concat(from.as_str()).concat(to.as_str());
                (Some(line), None)
            },
        }
    }
}

/// The engine and the game that it plays through the interface.
pub struct UciPlayer {
    game: ChessGame,
    solver: IterativeDeepeningEngine,
    white_to_move: bool,
}

impl UciPlayer {
    /// The position of the game.
    pub closed spec fn position(&self) -> ChessGame {
        self.game
    }

    /// White is to move.
    pub closed spec fn white_to_play(&self) -> bool {
        self.white_to_move
    }

    /// What the engine of the player answers for a position.
    pub closed spec fn engine_answer(&self, game: ChessGame, white: bool) -> (int, Option<Move>) {
        self.solver.answer(game, white)
    }

    /// The invariant of the player: the engine is ready and no pawn of the
    /// game stands on the first or on the last rank.
    pub closed spec fn well_formed(&self) -> bool {
        &&& self.solver.ready()
        &&& self.game.pawns_inside()
    }

    /// A player at the standard opening, with an engine that deepens its
    /// search step by step to seven plies.
    pub fn new() -> (p: UciPlayer)
        ensures
            p.well_formed(),
            p.position() == standard_position(),
            p.white_to_play(),
            forall|g: ChessGame, w: bool|
                #[trigger] p.engine_answer(g, w) == (
                    deepen(1, 7, 0, g, w, None).score,
                    deepen(1, 7, 0, g, w, None).best_move,
                ),
    {
        UciPlayer {
            game: ChessGame::standard_game(),
            solver: IterativeDeepeningEngine::new(7, 0),
            white_to_move: true,
        }
    }

    /// The position of the game.
    pub fn game(&self) -> (g: ChessGame)
        ensures
            g == self.position(),
    {
        self.game
    }

    /// Goes back to the standard opening, white to move.
    pub fn set_game_to_default(&mut self)
        requires
            old(self).well_formed(),
        ensures
            final(self).well_formed(),
            final(self).position() == standard_position(),
            final(self).white_to_play(),
            forall|g: ChessGame, w: bool| #[trigger]
                final(self).engine_answer(g, w) == old(self).engine_answer(g, w),
    {
        self.game = ChessGame::standard_game();
        self.white_to_move = true;
    }

    /// Installs the standard opening, white to move.
    pub fn new_game(&mut self)
        requires
            old(self).well_formed(),
        ensures
            final(self).well_formed(),
            final(self).position() == standard_position(),
            final(self).white_to_play(),
            forall|g: ChessGame, w: bool| #[trigger]
                final(self).engine_answer(g, w) == old(self).engine_answer(g, w),
    {
        self.set_game_to_default();
    }

    /// Installs the position that a FEN record describes; the side to move
    /// stays. Tells whether it did: a record that describes no position, or
    /// one with a pawn on the first or last rank, leaves the game as it is.
    pub fn set_position_from_fen(&mut self, fen: &str) -> (r: bool)
        requires
            old(self).well_formed(),
        ensures
            final(self).well_formed(),
            r == (fen_position(fen@) is Some && fen_position(fen@)->0.pawns_inside()),
            final(self).position() == if r {
                fen_position(fen@)->0
            } else {
                old(self).position()
            },
            final(self).white_to_play() == old(self).white_to_play(),
            forall|g: ChessGame, w: bool| #[trigger]
                final(self).engine_answer(g, w) == old(self).engine_answer(g, w),
    {
        match ChessGame::try_from_fen(fen) {
            Some(game) => {
                if game.has_pawns_inside() {
                    self.game = game;
                    true
                } else {
                    false
                }
            },
            None => false,
        }
    }

    /// Plays the move of the side to move that the step stands for, and
    /// passes the turn to the other side. Tells whether it did: a step that
    /// stands for no move leaves the game as it is.
    pub fn apply_uci_move(&mut self, step: &UciStep) -> (r: bool)
        requires
            old(self).well_formed(),
        ensures
            final(self).well_formed(),
            r == step_move(*step, old(self).white_to_play()) is Some,
            final(self).position() == if r {
                old(self).position().after_move(step_move(*step, old(self).white_to_play())->0)
            } else {
                old(self).position()
            },
            final(self).white_to_play() == (old(self).white_to_play() != r),
            forall|g: ChessGame, w: bool| #[trigger]
                final(self).engine_answer(g, w) == old(self).engine_answer(g, w),
    {
        match uci_move_to_move(step, self.white_to_move) {
            Some(mv) => {
                self.game.apply_move_unsafe(&mv);
                self.white_to_move = !self.white_to_move;
                true
            },
            None => false,
        }
    }

    /// Plays the moves in turn, the side changing with every move.
    pub fn play_moves(&mut self, moves: &Vec<UciStep>)
        requires
            old(self).well_formed(),
            steps_valid(moves@),
        ensures
            final(self).well_formed(),
            (final(self).position(), final(self).white_to_play()) == play_steps(
                old(self).position(),
                old(self).white_to_play(),
                moves@,
            ),
            forall|g: ChessGame, w: bool| #[trigger]
                final(self).engine_answer(g, w) == old(self).engine_answer(g, w),
    {
        let mut i: usize = 0;
        while i < moves.len()
            invariant
                i <= moves@.len(),
                steps_valid(moves@),
                self.well_formed(),
                forall|g: ChessGame, w: bool| #[trigger]
                    self.engine_answer(g, w) == old(self).engine_answer(g, w),
                (self.game, self.white_to_move) == play_steps(
                    old(self).game,
                    old(self).white_to_move,
                    moves@.subrange(0, i as int),
                ),
            decreases moves@.len() - i,
        {
            proof {
                assert(moves@.subrange(0, i + 1).drop_last() =~= moves@.subrange(0, i as int));
                assert(step_move(moves@[i as int], true) is Some);
            }
            self.apply_uci_move(&moves[i]);
            i = i + 1;
        }
        assert(moves@.subrange(0, i as int) =~= moves@);
    }

    /// The move that the engine finds for the side to move, if it finds one.
    pub fn find_best_move(&mut self) -> (r: Option<Move>)
        requires
            old(self).well_formed(),
        ensures
            final(self).well_formed(),
            final(self).position() == old(self).position(),
            final(self).white_to_play() == old(self).white_to_play(),
            r == old(self).engine_answer(old(self).position(), old(self).white_to_play()).1,
            r matches Some(m) ==> m.on_board(),
            forall|g: ChessGame, w: bool| #[trigger]
                final(self).engine_answer(g, w) == old(self).engine_answer(g, w),
    {
        let result = self.solver.find_best_move(self.game, self.white_to_move);
        result.best_move
    }

    /// Takes a command and gives the answer to it.
    ///
    /// `uci` and `isready` are answered and change nothing. `ucinewgame`
    /// goes back to the standard opening. `position` sets the game up and
    /// plays the moves; a record or a move that cannot be read, and a
    /// position with a pawn on the first or last rank, are answered by a line
    /// to log and leave the game as it was. `go` is answered by the best move
    /// of the side to move, or by a line to log where there is none. `quit`
    /// is answered by the order to stop, any other command by a line to log.
    pub fn handle_message(&mut self, m: UciCommand) -> (r: UciAnswer)
        requires
            old(self).well_formed(),
        ensures
            final(self).well_formed(),
            forall|g: ChessGame, w: bool| #[trigger]
                final(self).engine_answer(g, w) == old(self).engine_answer(g, w),
            match m {
                UciCommand::Uci => r is Initialize && final(self).position() == old(
                    self,
                ).position() && final(self).white_to_play() == old(self).white_to_play(),
                UciCommand::IsReady => r is EngineReady && final(self).position() == old(
                    self,
                ).position() && final(self).white_to_play() == old(self).white_to_play(),
                UciCommand::Quit => r is Quit && final(self).position() == old(self).position()
                    && final(self).white_to_play() == old(self).white_to_play(),
                UciCommand::UciNewGame => r is Nothing && final(self).position()
                    == standard_position() && final(self).white_to_play(),
                UciCommand::Go => {
                    &&& final(self).position() == old(self).position()
                    &&& final(self).white_to_play() == old(self).white_to_play()
                    &&& match old(self).engine_answer(
                        old(self).position(),
                        old(self).white_to_play(),
                    ).1 {
                        Some(best) => r == UciAnswer::BestMove(best) && best.on_board(),
                        None => r matches UciAnswer::Debug(text) && text@ == "no move was found"@,
                    }
                },
                UciCommand::Other(text) => r == UciAnswer::Debug(text) && final(self).position()
                    == old(self).position() && final(self).white_to_play() == old(
                    self,
                ).white_to_play(),
                UciCommand::Position { startpos, fen, moves } => {
                    let white = if startpos {
                        true
                    } else {
                        old(self).white_to_play()
                    };
                    let start = match fen {
                        Some(text) => fen_position(text@),
                        None => Some(
                            if startpos {
                                standard_position()
                            } else {
                                old(self).position()
                            },
                        ),
                    };
                    if start is Some && start->0.pawns_inside() && steps_valid(moves@) {
                        let reached = play_steps(start->0, white, moves@);
                        &&& r is Nothing
                        &&& final(self).position() == reached.0
                        &&& final(self).white_to_play() == reached.1
                    } else {
                        &&& r matches UciAnswer::Debug(text) && text@ == if start is None {
                            "the record cannot be read"@
                        } else if !start->0.pawns_inside() {
                            "a pawn stands on the first or on the last rank"@
                        } else {
                            "a move cannot be read"@
                        }
                        &&& final(self).position() == old(self).position()
                        &&& final(self).white_to_play() == old(self).white_to_play()
                    }
                },
            },
    {
        match m {
            UciCommand::Uci => UciAnswer::Initialize,
            UciCommand::IsReady => UciAnswer::EngineReady,
            UciCommand::Quit => UciAnswer::Quit,
            UciCommand::UciNewGame => {
                self.set_game_to_default();
                UciAnswer::Nothing
            },
            UciCommand::Position { startpos, fen, moves } => {
                let white = if startpos { true } else { self.white_to_move };
                let start = match fen {
                    Some(text) => ChessGame::try_from_fen(text.as_str()),
                    None => Some(if startpos { ChessGame::standard_game() } else { self.game }),
                };
                match start {
                    Some(game) => {
                        if !game.has_pawns_inside() {
                            return UciAnswer::Debug(
                                String::from_str("a pawn stands on the first or on the last rank"),
                            );
                        }
                        if !all_steps_valid(&moves) {
                            return UciAnswer::Debug(String::from_str("a move cannot be read"));
                        }
                        self.game = game;
                        self.white_to_move = white;
                        self.play_moves(&moves);
                        UciAnswer::Nothing
                    },
                    None => UciAnswer::Debug(String::from_str("the record cannot be read")),
                }
            },
            UciCommand::Go => match self.find_best_move() {
                Some(best) => UciAnswer::BestMove(best),
                None => UciAnswer::Debug(String::from_str("no move was found")),
            },
            UciCommand::Other(text) => UciAnswer::Debug(text),
        }
    }
}

} // verus!
