//! What a board view shows and how it reacts: the state behind the views,
//! without any drawing.

use vstd::prelude::*;
use vstd::string::StringExecFns;
use crate::chess_type::Type;
use crate::engine::Engine;
use crate::game::ChessGame;
use crate::game_constructor::standard_position;
use crate::iterative_deepening::{IterativeDeepeningEngine, deepen};
use crate::moves::{Move, MoveQuality};
use crate::moves_container::{MovesContainer, SimpleMovesContainer, lemma_simple_place_all};
use crate::utils::{pos_to_index, digit_of_char};
use vstd::string::StrSliceExecFns;

verus! {

/// What a view tells its state.
#[derive(Copy, Clone, Debug)]
pub enum Msg {
    /// The game is to start again.
    RestartGame,
    /// A square was tapped.
    SquareTapped(i8),
    /// A key was pressed.
    KeyPressed(char),
}

/// How a square is to be drawn.
#[derive(Copy, Clone, Debug, PartialEq, Eq, Structural)]
pub enum SquareType {
    /// A square that the selected piece can reach.
    Attacked,
    /// A square like any other.
    Idle,
    /// A square of the last move of the engine.
    LastEngineMove,
}

/// What draws a game and lets a player play it. The library promises
/// nothing of a view; it is the view that calls the library.
pub trait ChessView {
    /// Draws the game again.
    fn refresh(&mut self);

    /// Lets the player make one move.
    fn play(&mut self);
}

/// The chess symbol of a white piece.
pub open spec fn white_symbol(t: Type) -> Seq<char> {
    match t {
        Type::Pawn => "♙"@,
        Type::Bishop => "♗"@,
        Type::Knight => "♘"@,
        Type::Rook => "♖"@,
        Type::Queen => "♕"@,
        Type::King => "♔"@,
    }
}

/// The chess symbol of a black piece.
pub open spec fn black_symbol(t: Type) -> Seq<char> {
    match t {
        Type::Pawn => "♟"@,
        Type::Bishop => "♝"@,
        Type::Knight => "♞"@,
        Type::Rook => "♜"@,
        Type::Queen => "♛"@,
        Type::King => "♚"@,
    }
}

/// The name of a piece in the names of the image files.
pub open spec fn piece_name(t: Type) -> Seq<char> {
    match t {
        Type::Pawn => "pawn"@,
        Type::Bishop => "bishop"@,
        Type::Knight => "knight"@,
        Type::Rook => "rook"@,
        Type::Queen => "queen"@,
        Type::King => "king"@,
    }
}

/// The squares reached by the moves of `moves` that leave `from`, in the
/// order of the moves.
pub open spec fn targets_from(moves: Seq<Move>, from: i8) -> Seq<i8>
    decreases moves.len(),
{
    if moves.len() == 0 {
        Seq::empty()
    } else if moves.last().from == from {
        targets_from(moves.drop_last(), from).push(moves.last().to)
    } else {
        targets_from(moves.drop_last(), from)
    }
}

/// The chess symbol of a white piece.
fn white_symbol_of(t: Type) -> (s: String)
    ensures
        s@ == white_symbol(t),
{
    match t {
        Type::Pawn => String::from_str("♙"),
        Type::Bishop => String::from_str("♗"),
        Type::Knight => String::from_str("♘"),
        Type::Rook => String::from_str("♖"),
        Type::Queen => String::from_str("♕"),
        Type::King => String::from_str("♔"),
    }
}

/// The chess symbol of a black piece.
fn black_symbol_of(t: Type) -> (s: String)
    ensures
        s@ == black_symbol(t),
{
    match t {
        Type::Pawn => String::from_str("♟"),
        Type::Bishop => String::from_str("♝"),
        Type::Knight => String::from_str("♞"),
        Type::Rook => String::from_str("♜"),
        Type::Queen => String::from_str("♛"),
        Type::King => String::from_str("♚"),
    }
}

impl ChessGame {
    /// The symbol to print for the square at file `i` and rank `j`: the
    /// chess symbol of its piece, or a blank.
    pub fn get_char_at(&self, i: i8, j: i8) -> (s: String)
        requires
            -16 <= j <= 15,
            0 <= i + 8 * j < 64,
        ensures
            s@ == match self.piece_at(i + 8 * j) {
                Some(t) => if self.white_at(i + 8 * j) {
                    white_symbol(t)
                } else {
                    black_symbol(t)
                },
                None => " "@,
            },
    {
        if let Some(t) = self.type_at_xy(i, j) {
            if self.is_white_at_xy(i, j) {
                white_symbol_of(t)
            } else {
                black_symbol_of(t)
            }
        } else {
            String::from_str(" ")
        }
    }
}

/// The state behind a view of the board: the game, the engine that answers
/// the moves of the player, the square that the player has selected, the
/// squares that the selected piece can reach, and the last move of the
/// engine.
pub struct ChessViewModel {
    game: ChessGame,
    solver: IterativeDeepeningEngine,
    selected_pos: Option<i8>,
    attacked_positions: Vec<i8>,
    engine_move: Option<(i8, i8)>,
}

impl ChessViewModel {
    /// The position of the game.
    pub closed spec fn position(&self) -> ChessGame {
        self.game
    }

    /// The square that the player has selected.
    pub closed spec fn selected(&self) -> Option<i8> {
        self.selected_pos
    }

    /// The squares that the selected piece can reach.
    pub closed spec fn reachable(&self) -> Seq<i8> {
        self.attacked_positions@
    }

    /// The two squares of the last move of the engine.
    pub closed spec fn last_engine_move(&self) -> Option<(i8, i8)> {
        self.engine_move
    }

    /// What the engine of the view answers for a position.
    pub closed spec fn engine_answer(&self, game: ChessGame, white: bool) -> (int, Option<Move>) {
        self.solver.answer(game, white)
    }

    /// The invariant of the state: the engine is ready, no pawn stands on
    /// the first or on the last rank, and the selected square is on the
    /// board.
    pub closed spec fn well_formed(&self) -> bool {
        &&& self.solver.ready()
        &&& self.game.pawns_inside()
        &&& self.selected_pos matches Some(p) ==> 0 <= p < 64
    }

    /// The state at the start of a game.
    pub fn new() -> (v: ChessViewModel)
        ensures
            v.well_formed(),
            v.position() == standard_position(),
            v.selected() is None,
            v.reachable() == Seq::<i8>::empty(),
            v.last_engine_move() is None,
            forall|g: ChessGame, w: bool|
                #[trigger] v.engine_answer(g, w) == (
                    deepen(1, 6, 2, g, w, None).score,
                    deepen(1, 6, 2, g, w, None).best_move,
                ),
    {
        ChessViewModel {
            game: ChessGame::standard_game(),
            solver: IterativeDeepeningEngine::new(6, 2),
            selected_pos: None,
            attacked_positions: Vec::new(),
            engine_move: None,
        }
    }

    /// The position of the game.
    pub fn game(&self) -> (g: ChessGame)
        ensures
            g == self.position(),
    {
        self.game
    }

    /// The name of the image of the piece on the square at file `i` and
    /// rank `j`, if a piece stands there.
    pub fn get_image_name_at(&self, i: i8, j: i8) -> (r: Option<String>)
        requires
            -16 <= j <= 15,
            0 <= i + 8 * j < 64,
        ensures
            match self.position().piece_at(i + 8 * j) {
                Some(t) => r is Some && r->0@ == piece_name(t) + (if self.position().white_at(
                    i + 8 * j,
                ) {
                    "_white.svg"@
                } else {
                    "_dark.svg"@
                }),
                None => r is None,
            },
    {
        if let Some(t) = self.game.type_at_xy(i, j) {
            let name = match t {
                Type::Pawn => String::from_str("pawn"),
                Type::Bishop => String::from_str("bishop"),
                Type::Knight => String::from_str("knight"),
                Type::Rook => String::from_str("rook"),
                Type::Queen => String::from_str("queen"),
                Type::King => String::from_str("king"),
            };
            if self.game.is_white_at_xy(i, j) {
                Some(name.concat("_white.svg"))
            } else {
                Some(name.concat("_dark.svg"))
            }
        } else {
            None
        }
    }

    /// The symbol to print for the square at file `i` and rank `j`. A black
    /// pawn is printed with the selector of its text form behind it.
    pub fn get_char_at(&self, i: i8, j: i8) -> (s: String)
        requires
            -16 <= j <= 15,
            0 <= i + 8 * j < 64,
        ensures
            s@ == match self.position().piece_at(i + 8 * j) {
                Some(t) => if self.position().white_at(i + 8 * j) {
                    white_symbol(t)
                } else if t == Type::Pawn {
                    "♟︎"@
                } else {
                    black_symbol(t)
                },
                None => " "@,
            },
    {
        if let Some(t) = self.game.type_at_xy(i, j) {
            if self.game.is_white_at_xy(i, j) {
                white_symbol_of(t)
            } else {
                match t {
                    Type::Pawn => String::from_str("♟︎"),
                    _ => black_symbol_of(t),
                }
            }
        } else {
            String::from_str(" ")
        }
    }

    /// Whether the selected piece can reach the square at file `i` and
    /// rank `j`.
    pub fn is_attacked_at(&self, i: i8, j: i8) -> (r: bool)
        requires
            -16 <= j <= 15,
            -128 <= i + 8 * j <= 127,
        ensures
            r == self.reachable().contains((i + 8 * j) as i8),
    {
        let pos = pos_to_index(i, j);
        let mut k: usize = 0;
        while k < self.attacked_positions.len()
            invariant
                k <= self.attacked_positions@.len(),
                pos == i + 8 * j,
                forall|x: int| 0 <= x < k ==> self.attacked_positions@[x] != pos,
            decreases self.attacked_positions@.len() - k,
        {
            if self.attacked_positions[k] == pos {
                assert(self.reachable()[k as int] == pos);
                return true;
            }
            k = k + 1;
        }
        false
    }

    /// The name of the class under which the square is drawn.
    pub fn get_class_name(&self, i: i8, j: i8) -> (s: String)
        requires
            -16 <= j <= 15,
            -128 <= i + 8 * j <= 127,
        ensures
            s@ == if self.reachable().contains((i + 8 * j) as i8) {
                "attacked"@
            } else {
                "idle"@
            },
    {
        if self.is_attacked_at(i, j) {
            String::from_str("attacked")
        } else {
            String::from_str("idle")
        }
    }

    /// How the square is to be drawn.
    pub fn get_square_type(&self, i: i8, j: i8) -> (r: SquareType)
        requires
            -16 <= j <= 15,
            -128 <= i + 8 * j <= 127,
        ensures
            r == if self.reachable().contains((i + 8 * j) as i8) {
                SquareType::Attacked
            } else if self.last_engine_move() matches Some(mv) && (mv.0 == i + 8 * j || mv.1 == i
                + 8 * j) {
                SquareType::LastEngineMove
            } else {
                SquareType::Idle
            },
    {
        if self.is_attacked_at(i, j) {
            return SquareType::Attacked;
        } else {
            if let Some((from, to)) = self.engine_move {
                let pos = pos_to_index(i, j);
                if pos == from || pos == to {
                    return SquareType::LastEngineMove;
                }
            }
        }
        SquareType::Idle
    }

    /// Lets the engine play for black. Tells whether a move was found and
    /// passed the test of its piece.
    pub fn play_with_engine(&mut self) -> (r: bool)
        requires
            old(self).well_formed(),
        ensures
            final(self).well_formed(),
            final(self).selected() == old(self).selected(),
            final(self).reachable() == old(self).reachable(),
            forall|g: ChessGame, w: bool| #[trigger]
                final(self).engine_answer(g, w) == old(self).engine_answer(g, w),
            match old(self).engine_answer(old(self).position(), false).1 {
                Some(best) => {
                    let m = Move {
                        from: best.from,
                        to: best.to,
                        is_white: false,
                        quality: MoveQuality::Motion,
                    };
                    &&& final(self).last_engine_move() == Some((best.from, best.to))
                    &&& r == old(self).position().move_valid(m)
                    &&& final(self).position() == if r {
                        old(self).position().after_move(m)
                    } else {
                        old(self).position()
                    }
                },
                None => {
                    &&& !r
                    &&& final(self).position() == old(self).position()
                    &&& final(self).last_engine_move() == old(self).last_engine_move()
                },
            },
    {
        let search_result = self.solver.find_best_move(self.game, false);
        if let Some(best_move) = search_result.best_move {
            self.engine_move = Some((best_move.from, best_move.to));
            self.game.apply_move_safe(Move::new(best_move.from, best_move.to, false))
        } else {
            false
        }
    }

    /// Finds the squares that the white piece on the selected square can
    /// reach.
    pub fn compute_attacked_positions(&mut self)
        requires
            old(self).well_formed(),
        ensures
            final(self).well_formed(),
            final(self).position() == old(self).position(),
            final(self).selected() == old(self).selected(),
            final(self).last_engine_move() == old(self).last_engine_move(),
            forall|g: ChessGame, w: bool| #[trigger]
                final(self).engine_answer(g, w) == old(self).engine_answer(g, w),
            final(self).reachable() == match old(self).selected() {
                Some(pos) => targets_from(old(self).position().moves(true), pos),
                None => old(self).reachable(),
            },
    {
        if let Some(pos) = self.selected_pos {
            let mut container = SimpleMovesContainer::new();
            self.game.update_move_container(&mut container, true);
            proof {
                container.lemma_pending();
                lemma_simple_place_all(Seq::empty(), self.game.moves(true));
                assert(Seq::<Move>::empty() + self.game.moves(true) =~= self.game.moves(true));
                assert(container.stored() =~= container.pending());
            }
            let moves = container.stored_moves();
            let mut found: Vec<i8> = Vec::new();
            let mut k: usize = 0;
            while k < moves.len()
                invariant
                    k <= moves@.len(),
                    found@ == targets_from(moves@.subrange(0, k as int), pos),
                decreases moves@.len() - k,
            {
                proof {
                    assert(moves@.subrange(0, k + 1).drop_last() =~= moves@.subrange(0, k as int));
                }
                if moves[k].from == pos {
                    found.push(moves[k].to);
                }
                k = k + 1;
            }
            assert(moves@.subrange(0, k as int) =~= moves@);
            self.attacked_positions = found;
        }
    }

    /// Takes what the view tells and changes the state. Always asks the
    /// view to draw again.
    ///
    /// A restart puts the standard opening on the board. A tap on a square
    /// while a square is selected tries the move of white from the selected
    /// square to the tapped one; if it passes, the selection is dropped and
    /// the engine plays for black; if not, the tapped square is selected. A
    /// tap while no square is selected selects the square. A key changes
    /// nothing.
    pub fn message_received(&mut self, msg: &Msg) -> (r: bool)
        requires
            old(self).well_formed(),
            *msg matches Msg::SquareTapped(pos) ==> 0 <= pos < 64,
        ensures
            r,
            final(self).well_formed(),
            forall|g: ChessGame, w: bool| #[trigger]
                final(self).engine_answer(g, w) == old(self).engine_answer(g, w),
            match *msg {
                Msg::RestartGame => {
                    &&& final(self).position() == standard_position()
                    &&& final(self).selected() == old(self).selected()
                    &&& final(self).reachable() == old(self).reachable()
                    &&& final(self).last_engine_move() == old(self).last_engine_move()
                },
                Msg::KeyPressed(key) => {
                    &&& final(self).position() == old(self).position()
                    &&& final(self).selected() == old(self).selected()
                    &&& final(self).reachable() == old(self).reachable()
                    &&& final(self).last_engine_move() == old(self).last_engine_move()
                },
                Msg::SquareTapped(pos) => {
                    let m = Move {
                        from: old(self).selected()->0,
                        to: pos,
                        is_white: true,
                        quality: MoveQuality::Motion,
                    };
                    if old(self).selected() is Some && old(self).position().move_valid(m) {
                        let played = old(self).position().after_move(m);
                        &&& final(self).selected() is None
                        &&& final(self).reachable() == Seq::<i8>::empty()
                        &&& match old(self).engine_answer(played, false).1 {
                            Some(best) => {
                                let reply = Move {
                                    from: best.from,
                                    to: best.to,
                                    is_white: false,
                                    quality: MoveQuality::Motion,
                                };
                                &&& final(self).last_engine_move() == Some((best.from, best.to))
                                &&& final(self).position() == if played.move_valid(reply) {
                                    played.after_move(reply)
                                } else {
                                    played
                                }
                            },
                            None => {
                                &&& final(self).last_engine_move() is None
                                &&& final(self).position() == played
                            },
                        }
                    } else {
                        &&& final(self).selected() == Some(pos)
                        &&& final(self).position() == old(self).position()
                        &&& final(self).reachable() == targets_from(
                            old(self).position().moves(true),
                            pos,
                        )
                        &&& final(self).last_engine_move() == if old(self).selected() is Some {
                            None
                        } else {
                            old(self).last_engine_move()
                        }
                    }
                },
            },
    {
        match msg {
            Msg::RestartGame => {
                self.game = ChessGame::standard_game();
                true
            },
            Msg::SquareTapped(pos) => {
                if let Some(previous_pos) = self.selected_pos {
                    self.engine_move = None;
                    if self.game.apply_move_safe(Move::new(previous_pos, *pos, true)) {
                        self.selected_pos = None;
                        self.attacked_positions = Vec::new();
                        self.play_with_engine();
                    } else {
                        self.selected_pos = Some(*pos);
                        self.compute_attacked_positions();
                    }
                } else {
                    self.selected_pos = Some(*pos);
                    self.compute_attacked_positions();
                }
                true
            },
            Msg::KeyPressed(_key) => true,
        }
    }
}

/// What a regular expression finds in a text: the texts of its groups in
/// the leftmost match, the whole match being group 0 and a group that took
/// no part in the match having no text; or nothing, where the expression
/// does not match the text or is no valid expression.
pub uninterp spec fn regex_groups(pattern: Seq<char>, text: Seq<char>) -> Option<
    Seq<Option<Seq<char>>>,
>;

/// The view of the text of a group.
pub open spec fn group_view(group: Option<String>) -> Option<Seq<char>> {
    match group {
        Some(s) => Some(s@),
        None => None,
    }
}

/// The views of the texts of the groups of a match.
pub open spec fn groups_view(groups: Option<Vec<Option<String>>>) -> Option<
    Seq<Option<Seq<char>>>,
> {
    match groups {
        Some(v) => Some(Seq::new(v@.len(), |i: int| group_view(v@[i]))),
        None => None,
    }
}

/// `regex::Regex::new` on `pattern`, then `Regex::captures` on `text`: the
/// texts of the groups of the leftmost match, or nothing where there is no
/// match or the pattern is refused. The result depends on the two texts
/// alone. The one pattern that the library hands over is asked for, so that
/// nothing is claimed of patterns whose size a machine may refuse.
#[verifier::external_body]
fn regex_captures(pattern: &str, text: &str) -> (r: Option<Vec<Option<String>>>)
    requires
        pattern@ == move_pattern(),
    ensures
        groups_view(r) == regex_groups(pattern@, text@),
{
    match regex::Regex::new(pattern) {
        Ok(re) => match re.captures(text) {
            Some(c) => Some(c.iter().map(|g| g.map(|m| m.as_str().to_string())).collect()),
            None => None,
        },
        Err(_) => None,
    }
}

/// The expression of a move typed as `x,y to x,y`, each number one digit.
pub open spec fn move_pattern() -> Seq<char> {
    "(\\d),(\\d) to (\\d),(\\d)"@
}

/// The number that a text of one decimal digit writes.
pub open spec fn digit_of_text(s: Option<Seq<char>>) -> Option<int> {
    match s {
        Some(s) => if s.len() == 1 {
            digit_of_char(s[0])
        } else {
            None
        },
        None => None,
    }
}

/// The four numbers that the groups of a match write: there are five
/// groups, and each of the last four is one of the digits `0` to `9`.
pub open spec fn numbers_of(groups: Option<Seq<Option<Seq<char>>>>) -> Option<
    (int, int, int, int),
> {
    match groups {
        Some(g) => if g.len() == 5 && digit_of_text(g[1]) is Some && digit_of_text(g[2]) is Some
            && digit_of_text(g[3]) is Some && digit_of_text(g[4]) is Some {
            Some(
                (
                    digit_of_text(g[1])->0,
                    digit_of_text(g[2])->0,
                    digit_of_text(g[3])->0,
                    digit_of_text(g[4])->0,
                ),
            )
        } else {
            None
        },
        None => None,
    }
}

/// The number that a text of one decimal digit writes.
fn digit_of(group: &Option<String>) -> (r: Option<i8>)
    ensures
        r is Some == digit_of_text(group_view(*group)) is Some,
        r is Some ==> r->0 == digit_of_text(group_view(*group))->0,
{
    match group {
        Some(text) => {
            if text.as_str().unicode_len() != 1 {
                return None;
            }
            let c = text.as_str().get_char(0);
            if c == '0' {
                Some(0)
            } else if c == '1' {
                Some(1)
            } else if c == '2' {
                Some(2)
            } else if c == '3' {
                Some(3)
            } else if c == '4' {
                Some(4)
            } else if c == '5' {
                Some(5)
            } else if c == '6' {
                Some(6)
            } else if c == '7' {
                Some(7)
            } else if c == '8' {
                Some(8)
            } else if c == '9' {
                Some(9)
            } else {
                None
            }
        },
        None => None,
    }
}

/// The four numbers that the groups of a match write.
pub fn read_numbers(groups: &Option<Vec<Option<String>>>) -> (r: Option<(i8, i8, i8, i8)>)
    ensures
        r is Some == numbers_of(groups_view(*groups)) is Some,
        r matches Some(n) ==> (n.0 as int, n.1 as int, n.2 as int, n.3 as int) == numbers_of(
            groups_view(*groups),
        )->0,
{
    match groups {
        Some(g) => {
            if g.len() != 5 {
                return None;
            }
            match (digit_of(&g[1]), digit_of(&g[2]), digit_of(&g[3]), digit_of(&g[4])) {
                (Some(x1), Some(y1), Some(x2), Some(y2)) => Some((x1, y1, x2, y2)),
                _ => None,
            }
        },
        None => None,
    }
}

/// Reads the first move that the text writes as `x,y to x,y`: file and
/// rank of the square that it leaves, file and rank of the square that it
/// reaches.
pub fn parse_move_text(text: &str) -> (r: Option<(i8, i8, i8, i8)>)
    ensures
        r is Some == numbers_of(regex_groups(move_pattern(), text@)) is Some,
        r matches Some(n) ==> (n.0 as int, n.1 as int, n.2 as int, n.3 as int) == numbers_of(
            regex_groups(move_pattern(), text@),
        )->0,
{
    let groups = regex_captures("(\\d),(\\d) to (\\d),(\\d)", text);
    read_numbers(&groups)
}

/// A view of a game for a text terminal.
pub struct TerminalChessView<'a> {
    game: &'a mut ChessGame,
}

impl<'a> TerminalChessView<'a> {
    /// The position that the view shows.
    pub closed spec fn position(&self) -> ChessGame {
        *self.game
    }

    /// A view of the game.
    pub fn new(game: &'a mut ChessGame) -> (v: TerminalChessView<'a>)
        ensures
            v.position() == *old(game),
    {
        TerminalChessView { game }
    }

    /// The move of white that four numbers stand for, if both of its
    /// squares are on the board.
    pub open spec fn typed_move(n: (int, int, int, int)) -> Option<Move> {
        if n.0 + 8 * n.1 < 64 && n.2 + 8 * n.3 < 64 {
            Some(
                Move {
                    from: (n.0 + 8 * n.1) as i8,
                    to: (n.2 + 8 * n.3) as i8,
                    is_white: true,
                    quality: MoveQuality::Motion,
                },
            )
        } else {
            None
        }
    }

    /// Plays the move of white that the four numbers stand for, if it
    /// passes the test of its piece. Tells whether it was played.
    pub fn play_numbers(&mut self, n: (i8, i8, i8, i8)) -> (r: bool)
        requires
            0 <= n.0 <= 9,
            0 <= n.1 <= 9,
            0 <= n.2 <= 9,
            0 <= n.3 <= 9,
        ensures
            match TerminalChessView::typed_move((n.0 as int, n.1 as int, n.2 as int, n.3 as int)) {
                Some(m) => r == old(self).position().move_valid(m) && final(self).position() == if r {
                    old(self).position().after_move(m)
                } else {
                    old(self).position()
                },
                None => !r && final(self).position() == old(self).position(),
            },
    {
        let from = pos_to_index(n.0, n.1);
        let to = pos_to_index(n.2, n.3);
        if from >= 64 || to >= 64 {
            return false;
        }
        self.game.apply_move_safe(Move::new(from, to, true))
    }

    /// The symbol to print for the square at file `i` and rank `j`. A
    /// black pawn is printed with the symbol of a white one.
    pub fn get_char_at(&self, i: i8, j: i8) -> (s: String)
        requires
            -16 <= j <= 15,
            0 <= i + 8 * j < 64,
        ensures
            s@ == match self.position().piece_at(i + 8 * j) {
                Some(t) => if self.position().white_at(i + 8 * j) || t == Type::Pawn {
                    white_symbol(t)
                } else {
                    black_symbol(t)
                },
                None => " "@,
            },
    {
        if let Some(t) = self.game.type_at(i, j) {
            if self.game.is_white_at(i, j) {
                white_symbol_of(t)
            } else {
                match t {
                    Type::Pawn => String::from_str("♙"),
                    _ => black_symbol_of(t),
                }
            }
        } else {
            String::from_str(" ")
        }
    }
}

} // verus!
