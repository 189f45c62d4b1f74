//! What the generated moves are: exactly the moves that obey the geometry
//! of their piece and do not land on a piece of the same side. And what they
//! keep: the invariants of the position.

use vstd::prelude::*;
use crate::bits::{bit, of_colour, group_bits};
use crate::chess_type::Type;
use crate::game::ChessGame;
use crate::moves::{Move, MoveQuality};
use crate::precomputation::{
    pawn_reaches, ray_len, ray_square, rank_step, file_step, lemma_ray_square,
};
use crate::sequences::{collect, lemma_collect_all, lemma_collect_contains};

verus! {

broadcast use group_bits;

impl ChessGame {
    /// A piece of the given side stands on `sq`.
    pub open spec fn own_at(self, white: bool, sq: int) -> bool {
        self.occupied(sq) && self.white_at(sq) == white
    }

    /// The tag of a move of a piece of type `mover` that lands on `to`:
    /// quiet onto an empty square, else a capture classed by `capture_tag`.
    pub open spec fn landing_tag(self, mover: Type, to: int) -> MoveQuality {
        if !self.occupied(to) {
            MoveQuality::Motion
        } else {
            ChessGame::capture_tag(mover, self.piece_at(to)->0)
        }
    }

    /// `m` is a move of a knight or a king of the given side.
    pub open spec fn stepper_move(self, white: bool, mover: Type, m: Move) -> bool {
        &&& bit(of_colour(self.whites, self.board(mover), white), m.from as int)
        &&& ChessGame::reaches(mover, m.from as int, m.to as int)
        &&& !self.own_at(white, m.to as int)
        &&& m.quality == self.landing_tag(mover, m.to as int)
    }

    /// `m` is a capture by a pawn of the given side.
    pub open spec fn pawn_capture_move(self, white: bool, m: Move) -> bool {
        &&& bit(of_colour(self.whites, self.pawns, white), m.from as int)
        &&& pawn_reaches(white, m.from as int, m.to as int)
        &&& self.occupied(m.to as int)
        &&& self.white_at(m.to as int) != white
        &&& m.quality == MoveQuality::GoodCapture
    }

    /// `m` is a push of a pawn of the given side, by one square or by two.
    pub open spec fn pawn_push_move(self, white: bool, m: Move) -> bool {
        let forward = if white { 8int } else { -8int };
        let start = if white { 1int } else { 6int };
        &&& bit(of_colour(self.whites, self.pawns, white), m.from as int)
        &&& m.quality == MoveQuality::Motion
        &&& !self.occupied(m.from + forward)
        &&& (m.to == m.from + forward || m.to == m.from + 2 * forward && m.from / 8 == start
            && !self.occupied(m.from + 2 * forward))
    }

    /// `m` is a move of a sliding piece of type `mover` that stands on a
    /// square of `pieces`, in one of the directions from `first` up to, not
    /// including, `end`.
    pub open spec fn slider_move(
        self,
        white: bool,
        mover: Type,
        pieces: u64,
        first: int,
        end: int,
        m: Move,
    ) -> bool {
        &&& bit(pieces, m.from as int)
        &&& exists|dir: int|
            first <= dir < end && #[trigger] self.slider_sees(dir, m.from as int, m.to as int)
        &&& !self.own_at(white, m.to as int)
        &&& m.quality == self.landing_tag(mover, m.to as int)
    }

    /// `m` is a castling move of the given side: its king stands at home and
    /// has not moved, the squares between the king and the rook corner are
    /// empty, and the other side attacks none of the three squares that the
    /// king stands on and crosses.
    pub open spec fn castle_move(self, white: bool, m: Move) -> bool {
        let home = if white { 4int } else { 60int };
        let other = !white;
        &&& m.quality == MoveQuality::Motion
        &&& m.from == home
        &&& bit(of_colour(self.whites, self.kings, white), home)
        &&& !bit(self.flags, if white { 0int } else { 1int })
        &&& !self.attacked(other, home)
        &&& if m.to == home + 2 {
            &&& !self.occupied(home + 1)
            &&& !self.occupied(home + 2)
            &&& !self.attacked(other, home + 1)
            &&& !self.attacked(other, home + 2)
        } else {
            &&& m.to == home - 2
            &&& !self.occupied(home - 1)
            &&& !self.occupied(home - 2)
            &&& !self.occupied(home - 3)
            &&& !self.attacked(other, home - 1)
            &&& !self.attacked(other, home - 2)
        }
    }

    /// `m` is a move of the given side that obeys the geometry of its piece
    /// and does not land on a piece of its own side. Whether it leaves the
    /// own king attacked is not asked.
    pub open spec fn pseudo_legal(self, white: bool, m: Move) -> bool {
        &&& m.is_white == white
        &&& m.on_board()
        &&& {
            ||| self.stepper_move(white, Type::Knight, m)
            ||| self.stepper_move(white, Type::King, m)
            ||| self.pawn_capture_move(white, m)
            ||| self.pawn_push_move(white, m)
            ||| self.slider_move(
                white,
                Type::Rook,
                of_colour(self.whites, self.rooks, white),
                0,
                4,
                m,
            )
            ||| self.slider_move(
                white,
                Type::Bishop,
                of_colour(self.whites, self.bishops, white),
                4,
                8,
                m,
            )
            ||| self.slider_move(
                white,
                Type::Queen,
                of_colour(self.whites, self.queens, white),
                0,
                8,
                m,
            )
            ||| self.castle_move(white, m)
        }
    }

    /// `pseudo_legal` as a predicate on moves.
    pub open spec fn is_pseudo_legal(self, white: bool) -> spec_fn(Move) -> bool {
        |m: Move| self.pseudo_legal(white, m)
    }

    /// What holds of every move of a knight or king holds of every generated
    /// move of a knight or king.
    pub proof fn lemma_steppers_sound(self, white: bool, mover: Type, q: spec_fn(Move) -> bool)
        requires
            mover == Type::Knight || mover == Type::King,
            forall|m: Move|
                m.is_white == white && m.on_board() && self.stepper_move(white, mover, m)
                    ==> #[trigger] q(m),
        ensures
            forall|i: int|
                0 <= i < self.stepper_moves(white, mover).len() ==> q(
                    #[trigger] self.stepper_moves(white, mover)[i],
                ),
    {
        let src = self.stepper_source(white, mover);
        assert forall|j: int, x: int| 0 <= j < 64 && 0 <= x < src(j).len() implies q(
            #[trigger] src(j)[x],
        ) by {
            let tgt = self.stepper_target(white, mover, j);
            assert forall|t: int, y: int| 0 <= t < 64 && 0 <= y < tgt(t).len() implies q(
                #[trigger] tgt(t)[y],
            ) by {
                assert(self.stepper_move(white, mover, tgt(t)[y]));
            }
            lemma_collect_all(64, tgt, q);
        }
        lemma_collect_all(64, src, q);
    }

    /// What holds of every capture by a pawn holds of every generated capture
    /// by a pawn.
    pub proof fn lemma_pawn_captures_sound(self, white: bool, q: spec_fn(Move) -> bool)
        requires
            forall|m: Move|
                m.is_white == white && m.on_board() && self.pawn_capture_move(white, m)
                    ==> #[trigger] q(m),
        ensures
            forall|i: int|
                0 <= i < self.pawn_captures(white).len() ==> q(
                    #[trigger] self.pawn_captures(white)[i],
                ),
    {
        let src = self.pawn_capture_source(white);
        assert forall|j: int, x: int| 0 <= j < 64 && 0 <= x < src(j).len() implies q(
            #[trigger] src(j)[x],
        ) by {
            let tgt = self.pawn_target(white, j);
            assert forall|t: int, y: int| 0 <= t < 64 && 0 <= y < tgt(t).len() implies q(
                #[trigger] tgt(t)[y],
            ) by {
                assert(self.pawn_capture_move(white, tgt(t)[y]));
            }
            lemma_collect_all(64, tgt, q);
        }
        lemma_collect_all(64, src, q);
    }

    /// What holds of every push of a pawn holds of every generated push of a
    /// pawn.
    pub proof fn lemma_pawn_pushes_sound(self, white: bool, q: spec_fn(Move) -> bool)
        requires
            self.pawns_inside(),
            forall|m: Move|
                m.is_white == white && m.on_board() && self.pawn_push_move(white, m)
                    ==> #[trigger] q(m),
        ensures
            forall|i: int|
                0 <= i < self.pawn_pushes(white).len() ==> q(#[trigger] self.pawn_pushes(white)[i]),
    {
        let src = self.pawn_push_source(white);
        assert forall|j: int, x: int| 0 <= j < 64 && 0 <= x < src(j).len() implies q(
            #[trigger] src(j)[x],
        ) by {
            assert(bit(self.pawns, j));
            assert(self.pawn_push_move(white, src(j)[x]));
        }
        lemma_collect_all(64, src, q);
    }

    /// What holds of every move of a sliding piece holds of every generated
    /// move of a sliding piece.
    pub proof fn lemma_sliders_sound(
        self,
        white: bool,
        mover: Type,
        pieces: u64,
        first: int,
        end: int,
        q: spec_fn(Move) -> bool,
    )
        requires
            0 <= first <= end <= 8,
            mover != Type::King,
            forall|m: Move|
                m.is_white == white && m.on_board() && self.slider_move(
                    white,
                    mover,
                    pieces,
                    first,
                    end,
                    m,
                ) ==> #[trigger] q(m),
        ensures
            forall|i: int|
                0 <= i < self.slider_moves(white, mover, pieces, first, end).len() ==> q(
                    #[trigger] self.slider_moves(white, mover, pieces, first, end)[i],
                ),
    {
        let src = self.slider_source(white, mover, pieces, first, end);
        assert forall|j: int, x: int| 0 <= j < 64 && 0 <= x < src(j).len() implies q(
            #[trigger] src(j)[x],
        ) by {
            let dirs = self.slider_direction(white, mover, first, j);
            assert forall|d: int, y: int| 0 <= d < end && 0 <= y < dirs(d).len() implies q(
                #[trigger] dirs(d)[y],
            ) by {
                let tgt = self.ray_target(white, mover, d, j);
                assert forall|k: int, z: int|
                    0 <= k < ray_len(d, j) && 0 <= z < tgt(k).len() implies q(
                    #[trigger] tgt(k)[z],
                ) by {
                    lemma_ray_square(d, j, k);
                    let m = tgt(k)[z];
                    assert(bit(pieces, j));
                    assert(first <= d < end);
                    assert(self.clear_path(d, j, k));
                    assert(m.from == j);
                    assert(ray_square(d, j, k) == m.to);
                    assert(self.slider_sees(d, j, m.to as int));
                    assert(!self.own_at(white, m.to as int));
                    assert(m.quality == self.landing_tag(mover, m.to as int));
                    assert(self.slider_move(white, mover, pieces, first, end, m));
                }
                lemma_collect_all(ray_len(d, j), tgt, q);
            }
            lemma_collect_all(end, dirs, q);
        }
        lemma_collect_all(64, src, q);
    }

    /// Every generated move is a move that obeys the geometry of its piece
    /// and does not land on a piece of its own side.
    pub proof fn lemma_moves_sound(self, white: bool)
        requires
            self.pawns_inside(),
        ensures
            forall|i: int|
                0 <= i < self.moves(white).len() ==> self.pseudo_legal(
                    white,
                    #[trigger] self.moves(white)[i],
                ),
    {
        let p = self.is_pseudo_legal(white);
        self.lemma_steppers_sound(white, Type::Knight, p);
        self.lemma_steppers_sound(white, Type::King, p);
        self.lemma_pawn_captures_sound(white, p);
        self.lemma_pawn_pushes_sound(white, p);
        let rooks = of_colour(self.whites, self.rooks, white);
        let bishops = of_colour(self.whites, self.bishops, white);
        let queens = of_colour(self.whites, self.queens, white);
        self.lemma_sliders_sound(white, Type::Rook, rooks, 0, 4, p);
        self.lemma_sliders_sound(white, Type::Bishop, bishops, 4, 8, p);
        self.lemma_sliders_sound(white, Type::Queen, queens, 0, 8, p);
        let a = self.knight_moves(white);
        let b = self.king_moves(white);
        let c = self.pawn_captures(white);
        let d = self.pawn_pushes(white);
        let e = self.slider_moves(white, Type::Rook, rooks, 0, 4);
        let f = self.slider_moves(white, Type::Bishop, bishops, 4, 8);
        let g = self.slider_moves(white, Type::Queen, queens, 0, 8);
        let h = self.castle_moves(white);
        assert forall|i: int| 0 <= i < self.moves(white).len() implies self.pseudo_legal(
            white,
            #[trigger] self.moves(white)[i],
        ) by {
            let m = self.moves(white)[i];
            if i < a.len() {
                assert(p(a[i]));
            } else if i < (a + b).len() {
                assert(p(b[i - a.len()]));
            } else if i < (a + b + c).len() {
                assert(p(c[i - (a + b).len()]));
            } else if i < (a + b + c + d).len() {
                assert(p(d[i - (a + b + c).len()]));
            } else if i < (a + b + c + d + e).len() {
                assert(p(e[i - (a + b + c + d).len()]));
            } else if i < (a + b + c + d + e + f).len() {
                assert(p(f[i - (a + b + c + d + e).len()]));
            } else if i < (a + b + c + d + e + f + g).len() {
                assert(p(g[i - (a + b + c + d + e + f).len()]));
            } else {
                let x = i - (a + b + c + d + e + f + g).len();
                assert(m == h[x]);
                assert(self.castle_move(white, m));
            }
        }
    }

    /// A move of a knight or king is generated.
    proof fn lemma_stepper_found(self, white: bool, mover: Type, m: Move) -> (i: int)
        requires
            m.is_white == white,
            m.on_board(),
            self.stepper_move(white, mover, m),
        ensures
            0 <= i < self.stepper_moves(white, mover).len(),
            self.stepper_moves(white, mover)[i] == m,
    {
        let src = self.stepper_source(white, mover);
        let tgt = self.stepper_target(white, mover, m.from as int);
        assert(tgt(m.to as int) =~= seq![m]);
        let x = lemma_collect_contains(64, tgt, m.to as int, 0);
        lemma_collect_contains(64, src, m.from as int, x)
    }

    /// A capture by a pawn is generated.
    proof fn lemma_pawn_capture_found(self, white: bool, m: Move) -> (i: int)
        requires
            m.is_white == white,
            m.on_board(),
            self.pawn_capture_move(white, m),
        ensures
            0 <= i < self.pawn_captures(white).len(),
            self.pawn_captures(white)[i] == m,
    {
        let src = self.pawn_capture_source(white);
        let tgt = self.pawn_target(white, m.from as int);
        assert(tgt(m.to as int) =~= seq![m]);
        let x = lemma_collect_contains(64, tgt, m.to as int, 0);
        lemma_collect_contains(64, src, m.from as int, x)
    }

    /// A push of a pawn is generated.
    proof fn lemma_pawn_push_found(self, white: bool, m: Move) -> (i: int)
        requires
            m.is_white == white,
            m.on_board(),
            self.pawn_push_move(white, m),
        ensures
            0 <= i < self.pawn_pushes(white).len(),
            self.pawn_pushes(white)[i] == m,
    {
        let src = self.pawn_push_source(white);
        let forward = if white { 8int } else { -8int };
        let x = if m.to == m.from + forward { 0int } else { 1int };
        assert(src(m.from as int)[x] == m);
        lemma_collect_contains(64, src, m.from as int, x)
    }

    /// A move of a sliding piece is generated.
    proof fn lemma_slider_found(
        self,
        white: bool,
        mover: Type,
        pieces: u64,
        first: int,
        end: int,
        m: Move,
    ) -> (i: int)
        requires
            0 <= first <= end <= 8,
            mover != Type::King,
            m.is_white == white,
            m.on_board(),
            self.slider_move(white, mover, pieces, first, end, m),
        ensures
            0 <= i < self.slider_moves(white, mover, pieces, first, end).len(),
            self.slider_moves(white, mover, pieces, first, end)[i] == m,
    {
        let from = m.from as int;
        let to = m.to as int;
        let dir = choose|dir: int| first <= dir < end && #[trigger] self.slider_sees(dir, from, to);
        let k = choose|k: int|
            0 <= k < ray_len(dir, from) && #[trigger] ray_square(dir, from, k) == to
                && self.clear_path(dir, from, k);
        let src = self.slider_source(white, mover, pieces, first, end);
        let dirs = self.slider_direction(white, mover, first, from);
        let tgt = self.ray_target(white, mover, dir, from);
        assert(tgt(k) =~= seq![m]);
        let x = lemma_collect_contains(ray_len(dir, from), tgt, k, 0);
        assert(dirs(dir) == collect(ray_len(dir, from), tgt));
        let y = lemma_collect_contains(end, dirs, dir, x);
        assert(src(from) == collect(end, dirs));
        lemma_collect_contains(64, src, from, y)
    }

    /// A castling move is generated.
    proof fn lemma_castle_found(self, white: bool, m: Move) -> (i: int)
        requires
            m.is_white == white,
            m.on_board(),
            self.castle_move(white, m),
        ensures
            0 <= i < self.castle_moves(white).len(),
            self.castle_moves(white)[i] == m,
    {
        let home = if white { 4int } else { 60int };
        let short = if white {
            self.castle(true, 4, 6, 5, 6, 6)
        } else {
            self.castle(false, 60, 62, 61, 62, 62)
        };
        if m.to == home + 2 {
            assert(short[0] == m);
            0
        } else {
            let long = if white {
                self.castle(true, 4, 2, 3, 2, 1)
            } else {
                self.castle(false, 60, 58, 59, 58, 57)
            };
            assert(long[0] == m);
            short.len() as int
        }
    }

    /// Every move that obeys the geometry of its piece and does not land on
    /// a piece of its own side is generated.
    pub proof fn lemma_moves_complete(self, white: bool, m: Move)
        requires
            self.pseudo_legal(white, m),
        ensures
            exists|i: int| 0 <= i < self.moves(white).len() && #[trigger] self.moves(white)[i] == m,
    {
        let rooks = of_colour(self.whites, self.rooks, white);
        let bishops = of_colour(self.whites, self.bishops, white);
        let queens = of_colour(self.whites, self.queens, white);
        let a = self.knight_moves(white);
        let b = self.king_moves(white);
        let c = self.pawn_captures(white);
        let d = self.pawn_pushes(white);
        let e = self.slider_moves(white, Type::Rook, rooks, 0, 4);
        let f = self.slider_moves(white, Type::Bishop, bishops, 4, 8);
        let g = self.slider_moves(white, Type::Queen, queens, 0, 8);
        let all = self.moves(white);
        let i = if self.stepper_move(white, Type::Knight, m) {
            self.lemma_stepper_found(white, Type::Knight, m)
        } else if self.stepper_move(white, Type::King, m) {
            a.len() + self.lemma_stepper_found(white, Type::King, m)
        } else if self.pawn_capture_move(white, m) {
            (a + b).len() + self.lemma_pawn_capture_found(white, m)
        } else if self.pawn_push_move(white, m) {
            (a + b + c).len() + self.lemma_pawn_push_found(white, m)
        } else if self.slider_move(white, Type::Rook, rooks, 0, 4, m) {
            (a + b + c + d).len() + self.lemma_slider_found(white, Type::Rook, rooks, 0, 4, m)
        } else if self.slider_move(white, Type::Bishop, bishops, 4, 8, m) {
            (a + b + c + d + e).len() + self.lemma_slider_found(
                white,
                Type::Bishop,
                bishops,
                4,
                8,
                m,
            )
        } else if self.slider_move(white, Type::Queen, queens, 0, 8, m) {
            (a + b + c + d + e + f).len() + self.lemma_slider_found(
                white,
                Type::Queen,
                queens,
                0,
                8,
                m,
            )
        } else {
            (a + b + c + d + e + f + g).len() + self.lemma_castle_found(white, m)
        };
        assert(0 <= i < all.len() && all[i] == m);
    }

    /// No generated move is tagged as a principal move or as a killer move.
    pub proof fn lemma_moves_are_untagged(self, white: bool)
        requires
            self.pawns_inside(),
        ensures
            forall|i: int|
                0 <= i < self.moves(white).len() ==> (#[trigger] self.moves(
                    white,
                )[i]).quality.rank_spec() <= 3,
    {
        self.lemma_moves_sound(white);
        assert forall|i: int| 0 <= i < self.moves(white).len() implies (#[trigger] self.moves(
            white,
        )[i]).quality.rank_spec() <= 3 by {
            assert(self.pseudo_legal(white, self.moves(white)[i]));
        }
    }

    /// A move that obeys the geometry of its piece is a move of the side,
    /// joins two different squares of the board, leaves a square on which a
    /// piece of the side stands, and reaches a square on which none does.
    pub proof fn lemma_move_shape(self, white: bool, m: Move)
        requires
            self.pseudo_legal(white, m),
        ensures
            m.is_white == white,
            m.on_board(),
            m.from != m.to,
            self.own_at(white, m.from as int),
            !self.own_at(white, m.to as int),
    {
        let from = m.from as int;
        let to = m.to as int;
        if self.slider_move(white, Type::Rook, of_colour(self.whites, self.rooks, white), 0, 4, m) {
            self.lemma_slider_leaves(0, 4, from, to);
        }
        if self.slider_move(
            white,
            Type::Bishop,
            of_colour(self.whites, self.bishops, white),
            4,
            8,
            m,
        ) {
            self.lemma_slider_leaves(4, 8, from, to);
        }
        if self.slider_move(
            white,
            Type::Queen,
            of_colour(self.whites, self.queens, white),
            0,
            8,
            m,
        ) {
            self.lemma_slider_leaves(0, 8, from, to);
        }
    }

    /// A square that a sliding piece sees is not the square of the piece.
    proof fn lemma_slider_leaves(self, first: int, end: int, from: int, to: int)
        requires
            0 <= first <= end <= 8,
            0 <= from < 64,
            exists|dir: int| first <= dir < end && #[trigger] self.slider_sees(dir, from, to),
        ensures
            from != to,
    {
        let dir = choose|dir: int| first <= dir < end && #[trigger] self.slider_sees(dir, from, to);
        let k = choose|k: int|
            0 <= k < ray_len(dir, from) && #[trigger] ray_square(dir, from, k) == to
                && self.clear_path(dir, from, k);
        lemma_ray_square(dir, from, k);
        assert(to / 8 != from / 8 || to % 8 != from % 8) by (nonlinear_arith)
            requires
                0 <= k,
                to / 8 == from / 8 + (k + 1) * rank_step(dir),
                to % 8 == from % 8 + (k + 1) * file_step(dir),
                rank_step(dir) != 0 || file_step(dir) != 0,
        ;
    }

    /// A move that obeys the geometry of its piece, played on a position
    /// that meets the invariants, gives a position that meets them.
    pub proof fn lemma_move_keeps_valid(self, white: bool, m: Move)
        requires
            self.valid(),
            self.pseudo_legal(white, m),
        ensures
            self.after_move(m).valid(),
    {
        let g = self.after_move(m);
        let from = m.from as int;
        let to = m.to as int;
        self.lemma_move_keeps_pawns_inside(m);
        self.lemma_one_type(from);
        self.lemma_move_shape(white, m);
        if self.piece_at(from) is Some {
            assert(self.white_at(from) == white);
            if self.castles(m) {
                assert(self.castle_move(white, m)) by {
                    self.lemma_king_castles_only_from_home(white, m);
                }
                let corner = ChessGame::rook_from(m);
                let beside = ChessGame::rook_to(m);
                assert(!self.occupied(beside));
                if !white {
                    self.lemma_corner_rook_seen(m);
                    assert(!(bit(self.rooks, corner) && bit(self.whites, corner)));
                }
                assert forall|sq: int, a: Type, b: Type|
                    #![trigger bit(g.board(a), sq), bit(g.board(b), sq)]
                    a != b implies !(bit(g.board(a), sq) && bit(g.board(b), sq)) by {
                    self.lemma_one_type(sq);
                }
                assert forall|sq: int| #[trigger] bit(g.whites, sq) implies g.occupied(sq) by {
                    self.lemma_one_type(sq);
                }
            } else {
                assert(from != to);
                assert forall|sq: int, a: Type, b: Type|
                    #![trigger bit(g.board(a), sq), bit(g.board(b), sq)]
                    a != b implies !(bit(g.board(a), sq) && bit(g.board(b), sq)) by {
                    self.lemma_one_type(sq);
                }
                assert forall|sq: int| #[trigger] bit(g.whites, sq) implies g.occupied(sq) by {
                    self.lemma_one_type(sq);
                }
            }
        }
    }

    /// In a position whose piece words are disjoint, the piece on a square
    /// is of the one type whose word holds the square.
    pub proof fn lemma_one_type(self, sq: int)
        requires
            self.disjoint(),
        ensures
            bit(self.pawns, sq) <==> self.piece_at(sq) == Some(Type::Pawn),
            bit(self.bishops, sq) <==> self.piece_at(sq) == Some(Type::Bishop),
            bit(self.knights, sq) <==> self.piece_at(sq) == Some(Type::Knight),
            bit(self.rooks, sq) <==> self.piece_at(sq) == Some(Type::Rook),
            bit(self.queens, sq) <==> self.piece_at(sq) == Some(Type::Queen),
            bit(self.kings, sq) <==> self.piece_at(sq) == Some(Type::King),
            self.occupied(sq) <==> self.piece_at(sq) is Some,
    {
        let p = bit(self.board(Type::Pawn), sq);
        let b = bit(self.board(Type::Bishop), sq);
        let n = bit(self.board(Type::Knight), sq);
        let r = bit(self.board(Type::Rook), sq);
        let q = bit(self.board(Type::Queen), sq);
        let k = bit(self.board(Type::King), sq);
        assert(!(p && b) && !(p && n) && !(p && r) && !(p && q) && !(p && k));
        assert(!(b && n) && !(b && r) && !(b && q) && !(b && k));
        assert(!(n && r) && !(n && q) && !(n && k));
        assert(!(r && q) && !(r && k) && !(q && k));
    }

    /// A move of a king by two squares that takes the rook along is a
    /// castling move.
    proof fn lemma_king_castles_only_from_home(self, white: bool, m: Move)
        requires
            self.valid(),
            self.pseudo_legal(white, m),
            self.castles(m),
        ensures
            self.castle_move(white, m),
    {
        self.lemma_one_type(m.from as int);
        let from = m.from as int;
        let to = m.to as int;
        if to == from + 2 {
            assert(to / 8 == from / 8 && to % 8 == from % 8 + 2 || to / 8 == from / 8 + 1 && to % 8
                == from % 8 - 6);
        } else {
            assert(to / 8 == from / 8 && to % 8 == from % 8 - 2 || to / 8 == from / 8 - 1 && to % 8
                == from % 8 + 6);
        }
        assert(!self.stepper_move(white, Type::King, m));
        if self.stepper_move(white, Type::Knight, m) {
            assert(bit(self.knights, from));
        }
        if self.pawn_capture_move(white, m) || self.pawn_push_move(white, m) {
            assert(bit(self.pawns, from));
        }
        if self.slider_move(white, Type::Rook, of_colour(self.whites, self.rooks, white), 0, 4, m) {
            assert(bit(self.rooks, from));
        }
        if self.slider_move(
            white,
            Type::Bishop,
            of_colour(self.whites, self.bishops, white),
            4,
            8,
            m,
        ) {
            assert(bit(self.bishops, from));
        }
        if self.slider_move(
            white,
            Type::Queen,
            of_colour(self.whites, self.queens, white),
            0,
            8,
            m,
        ) {
            assert(bit(self.queens, from));
        }
    }

    /// A white rook in the corner towards which black castles would attack
    /// a square that the black king crosses.
    proof fn lemma_corner_rook_seen(self, m: Move)
        requires
            self.castle_move(false, m),
        ensures
            !(bit(self.rooks, ChessGame::rook_from(m)) && bit(self.whites, ChessGame::rook_from(m))),
    {
        let corner = ChessGame::rook_from(m);
        if bit(self.rooks, corner) && bit(self.whites, corner) {
            let rooks = of_colour(self.whites, self.rooks, true);
            assert(bit(rooks, corner));
            if m.to == 62 {
                assert(ray_len(3, 63) == 7);
                assert(ray_square(3, 63, 0) == 62);
                assert(self.clear_path(3, 63, 0));
                assert(self.slider_sees(3, 63, 62));
                assert(self.sliders_see(rooks, 0, 4, 62));
                assert(self.attacked(true, 62));
            } else {
                assert(ray_len(2, 56) == 7);
                assert(ray_square(2, 56, 0) == 57);
                assert(ray_square(2, 56, 1) == 58);
                assert(self.clear_path(2, 56, 1));
                assert(self.slider_sees(2, 56, 58));
                assert(self.sliders_see(rooks, 0, 4, 58));
                assert(self.attacked(true, 58));
            }
        }
    }

    /// A pawn on its starting rank with an empty square ahead and a piece
    /// two squares ahead has no move of two squares.
    pub proof fn lemma_blocked_double_push(self, white: bool, from: int, i: int)
        requires
            self.valid(),
            bit(of_colour(self.whites, self.pawns, white), from),
            from / 8 == (if white { 1int } else { 6int }),
            self.occupied(if white { from + 16 } else { from - 16 }),
            0 <= i < self.moves(white).len(),
        ensures
            !(self.moves(white)[i].from == from && self.moves(white)[i].to == (if white {
                from + 16
            } else {
                from - 16
            })),
    {
        let m = self.moves(white)[i];
        self.lemma_moves_sound(white);
        self.lemma_one_type(from);
        assert(self.pseudo_legal(white, m));
        if m.from == from {
            assert(bit(self.pawns, from));
            assert(!self.stepper_move(white, Type::Knight, m));
            assert(!self.stepper_move(white, Type::King, m));
            assert(!self.slider_move(
                white,
                Type::Rook,
                of_colour(self.whites, self.rooks, white),
                0,
                4,
                m,
            ));
            assert(!self.slider_move(
                white,
                Type::Bishop,
                of_colour(self.whites, self.bishops, white),
                4,
                8,
                m,
            ));
            assert(!self.slider_move(
                white,
                Type::Queen,
                of_colour(self.whites, self.queens, white),
                0,
                8,
                m,
            ));
            assert(!self.castle_move(white, m));
        }
    }
}

/// The position after the moves of `ms` were played in turn from `start`.
pub open spec fn played_out(start: ChessGame, ms: Seq<Move>) -> ChessGame
    decreases ms.len(),
{
    if ms.len() == 0 {
        start
    } else {
        played_out(start, ms.drop_last()).after_move(ms.last())
    }
}

/// The moves of `ms` are the moves of a game that begins at `start` with
/// the side `first`: the sides move in turn, and every move obeys the
/// geometry of its piece on the position that it is played on.
pub open spec fn game_in_progress(start: ChessGame, first: bool, ms: Seq<Move>) -> bool
    decreases ms.len(),
{
    if ms.len() == 0 {
        true
    } else {
        let before = played_out(start, ms.drop_last());
        let side = if (ms.len() - 1) % 2 == 0 {
            first
        } else {
            !first
        };
        &&& game_in_progress(start, first, ms.drop_last())
        &&& before.pseudo_legal(side, ms.last())
    }
}

/// Every position of a game that begins at a position that meets the
/// invariants meets them.
pub proof fn lemma_game_stays_valid(start: ChessGame, first: bool, ms: Seq<Move>)
    requires
        start.valid(),
        game_in_progress(start, first, ms),
    ensures
        played_out(start, ms).valid(),
    decreases ms.len(),
{
    if ms.len() > 0 {
        lemma_game_stays_valid(start, first, ms.drop_last());
        let before = played_out(start, ms.drop_last());
        let side = if (ms.len() - 1) % 2 == 0 {
            first
        } else {
            !first
        };
        before.lemma_move_keeps_valid(side, ms.last());
    }
}

} // verus!
