use chess_engine::alpha_beta::AlphaBetaEngine;
use chess_engine::chess_type::Type::{King, Knight, Pawn, Queen, Rook};
use chess_engine::engine::Engine;
use chess_engine::game::ChessGame;
use chess_engine::iterative_deepening::IterativeDeepeningEngine;
use chess_engine::moves::{Move, MoveQuality};
use chess_engine::moves_container::{MovesContainer, SimpleMovesContainer, SmartMoveContainer};
use chess_engine::negamax::Engine as NegamaxEngine;

fn assert_invariants(game: &ChessGame) {
    let boards = [
        game.pawns,
        game.bishops,
        game.knights,
        game.rooks,
        game.queens,
        game.kings,
    ];
    for a in 0..6 {
        for b in (a + 1)..6 {
            assert_eq!(0, boards[a] & boards[b]);
        }
    }
    let occupancy = boards.iter().fold(0u64, |acc, b| acc | b);
    assert_eq!(0, game.whites & !occupancy);
    assert_eq!(0, game.pawns & 0xff00_0000_0000_00ff);
    assert!(game.has_pawns_inside());
}

#[test]
fn invariants_hold_along_a_game_of_generated_moves() {
    let mut game = ChessGame::standard_game();
    let mut white = true;
    let mut container = SimpleMovesContainer::new();
    assert_invariants(&game);
    for ply in 0..60 {
        if game.is_finished() {
            break;
        }
        game.update_move_container(&mut container, white);
        let count = container.count();
        if count == 0 {
            break;
        }
        // take a different move at every ply
        let wanted = (ply * 7) % count;
        let mut chosen = container.pop_next_move();
        for _ in 0..wanted {
            chosen = container.pop_next_move();
        }
        assert_eq!(white, chosen.is_white);
        game.apply_move_unsafe(&chosen);
        assert_invariants(&game);
        white = !white;
    }
}

#[test]
fn a_move_on_a_copy_leaves_the_position() {
    let game = ChessGame::standard_game();
    let copy = game.clone();
    let after = game.played(&Move::new(12, 28, true));
    assert_eq!(copy, game);
    assert_ne!(after, game);
    let mut clone = game.clone();
    clone.apply_move_unsafe(&Move::new(12, 28, true));
    assert_eq!(copy, game);
    assert_eq!(after, clone);
}

fn holds_move(c: &mut SimpleMovesContainer, from: i8, to: i8) -> bool {
    let mut found = false;
    while c.has_next() {
        let m = c.pop_next_move();
        if m.from == from && m.to == to {
            found = true;
        }
    }
    found
}

#[test]
fn no_double_push_onto_a_piece() {
    let mut game = ChessGame::empty();
    game.set_piece(King, true, "a1");
    game.set_piece(King, false, "a8");
    game.set_piece(Pawn, true, "e2");
    game.set_piece(Knight, false, "e4");
    game.set_piece(Pawn, false, "c7");
    game.set_piece(Knight, true, "c5");
    game.block_castling();
    let mut container = SimpleMovesContainer::new();

    game.update_move_container(&mut container, true);
    assert!(!holds_move(&mut container, 12, 28));
    game.update_move_container(&mut container, true);
    assert!(holds_move(&mut container, 12, 20));

    game.update_move_container(&mut container, false);
    assert!(!holds_move(&mut container, 50, 34));
    game.update_move_container(&mut container, false);
    assert!(holds_move(&mut container, 50, 42));
}

#[test]
fn no_double_push_over_a_piece() {
    let mut game = ChessGame::empty();
    game.set_piece(Pawn, true, "e2");
    game.set_piece(Knight, false, "e3");
    game.block_castling();
    let mut container = SimpleMovesContainer::new();
    game.update_move_container(&mut container, true);
    assert_eq!(0, container.count());
}

#[test]
fn pops_never_rise_in_rank() {
    let game = ChessGame::from_fen("6r1/p1q3bk/4rnR1/2p2Q1P/1p1p4/3P2P1/2PK1B2/8 w - - 0 46");
    let mut container = SmartMoveContainer::new();
    game.update_move_container(&mut container, true);
    let generated = container.count();
    assert!(generated > 10);
    container.add_killer_move(Move::new(13, 22, true));
    container.set_first_move(Move::new(37, 46, true));
    assert_eq!(generated + 2, container.count());

    let first = container.pop_next_move();
    assert_eq!(MoveQuality::Principal, first.quality);
    assert_eq!((37, 46), (first.from, first.to));
    let second = container.pop_next_move();
    assert_eq!(MoveQuality::KillerMove, second.quality);
    assert_eq!((13, 22), (second.from, second.to));

    let mut last = second.quality.rank();
    let mut popped = 2;
    while container.has_next() {
        let m = container.pop_next_move();
        assert!(m.quality.rank() <= last);
        assert!(m.quality.rank() < MoveQuality::KillerMove.rank());
        last = m.quality.rank();
        popped += 1;
    }
    assert_eq!(generated + 2, popped);
    assert_eq!(0, container.count());
}

#[test]
fn moves_of_one_rank_come_in_the_order_of_arrival() {
    let mut container = SmartMoveContainer::new();
    let mut capture = Move::new(1, 2, true);
    capture.set_quality(MoveQuality::LowCapture);
    container.push(Move::new(10, 11, true));
    container.push(capture);
    container.push(Move::new(20, 21, true));
    container.push(Move::new(30, 31, true));
    assert_eq!(1, container.pop_next_move().from);
    assert_eq!(10, container.pop_next_move().from);
    assert_eq!(20, container.pop_next_move().from);
    assert_eq!(30, container.pop_next_move().from);
    assert!(!container.has_next());
}

#[test]
fn simple_container_keeps_the_order_and_the_count() {
    let mut container = SimpleMovesContainer::new();
    assert!(!container.has_next());
    let mut capture = Move::new(1, 2, true);
    capture.set_quality(MoveQuality::GoodCapture);
    container.push(Move::new(10, 11, true));
    container.push(capture);
    container.set_first_move(Move::new(20, 21, true));
    container.add_killer_move(Move::new(30, 31, true));
    assert_eq!(4, container.count());
    assert_eq!(4, container.stored_moves().len());
    assert_eq!(10, container.pop_next_move().from);
    assert_eq!(4, container.count());
    let second = container.pop_next_move();
    assert_eq!((1, MoveQuality::GoodCapture), (second.from, second.quality));
    let third = container.pop_next_move();
    assert_eq!((20, MoveQuality::Principal), (third.from, third.quality));
    let fourth = container.pop_next_move();
    assert_eq!((30, MoveQuality::KillerMove), (fourth.from, fourth.quality));
    assert!(!container.has_next());
    container.reset();
    assert_eq!(0, container.count());
    assert!(!container.has_next());
}

#[test]
fn score_is_material_times_twenty_plus_mobility() {
    let mut game = ChessGame::empty();
    game.set_piece(King, true, "a1");
    game.set_piece(King, false, "h8");
    game.set_piece(Pawn, true, "e2");
    game.block_castling();
    // material 1, white has 3 king moves and 2 pawn moves, black 3 king moves
    assert_eq!(20 + 5 - 3, game.score());

    game.set_piece(Queen, false, "h1");
    // black queen on h1: 6 squares up the file to h7, 7 along the rank up
    // to the king on a1, 7 on the diagonal to a8: 20 moves; material 1 - 10
    assert_eq!(-180 + 5 - (3 + 20), game.score());

    let mut kings = ChessGame::empty();
    kings.set_piece(King, true, "d4");
    kings.block_castling();
    // one king alone: material 1000, 8 moves
    assert_eq!(20000 + 8, kings.score());
    kings.set_piece(Rook, false, "a8");
    // the rook has 14 moves
    assert_eq!(20000 - 100 + 8 - 14, kings.score());
}

#[test]
fn two_searches_of_one_position_give_one_score() {
    let mut game = ChessGame::empty();
    game.set_piece(King, true, "a2");
    game.set_piece(King, false, "a7");
    game.set_piece(Pawn, true, "e4");
    game.set_piece(Pawn, false, "d5");
    game.set_piece(Knight, false, "f5");

    let mut engine = AlphaBetaEngine::new(4, 1);
    let first = engine.find_best_move(game, true);
    let second = engine.find_best_move(game, true);
    assert_eq!(first.score, second.score);
    assert_eq!(first.best_move, second.best_move);

    let mut fresh = AlphaBetaEngine::new(4, 1);
    let third = fresh.find_best_move(game, true);
    assert_eq!(first.score, third.score);
    assert_eq!(first.best_move, third.best_move);

    let mut old = NegamaxEngine::new();
    old.set_engine_depth(3, 0);
    let (a, leaves_a) = old.find_best_move(game, true);
    let (b, leaves_b) = old.find_best_move(game, true);
    assert_eq!(a.score, b.score);
    assert_eq!(a.best_move, b.best_move);
    assert_eq!(leaves_a, leaves_b);
    assert!(leaves_a > 0);
}

#[test]
fn deepening_finds_the_move_of_the_plain_search() {
    let mut game = ChessGame::empty();
    game.set_piece(Pawn, true, "e4");
    game.set_piece(Pawn, true, "e2");
    game.set_piece(Pawn, false, "d5");
    game.set_piece(Pawn, false, "d7");
    game.set_piece(King, true, "a2");
    game.set_piece(King, false, "a7");

    let mut plain = AlphaBetaEngine::new(6, 0);
    let mut deepening = IterativeDeepeningEngine::new(6, 0);
    let a = plain.find_best_move(game, true);
    let b = deepening.find_best_move(game, true);
    assert_eq!(a.best_move, b.best_move);
    assert_eq!(Some(Move::new(28, 35, true)), b.best_move);

    let a = plain.find_best_move(game, false);
    let b = deepening.find_best_move(game, false);
    assert_eq!(a.best_move, b.best_move);
    assert_eq!(Some(Move::new(35, 28, false)), b.best_move);
}

#[test]
fn a_search_of_depth_one_takes_the_knight() {
    let mut game = ChessGame::empty();
    game.set_piece(King, true, "a2");
    game.set_piece(King, false, "a7");
    game.set_piece(Pawn, true, "e4");
    game.set_piece(Pawn, false, "d5");
    game.set_piece(Knight, false, "f5");
    let mut engine = AlphaBetaEngine::new(1, 0);
    let result = engine.find_best_move(game, true);
    assert_eq!(Some(Move::new(28, 37, true)), result.best_move);
    // after the capture: a pawn each, six moves each
    assert_eq!(0, result.score);
    assert_eq!(MoveQuality::GoodCapture, result.best_move.unwrap().quality);
}

#[test]
fn a_finished_game_has_no_best_move() {
    let mut game = ChessGame::empty();
    game.set_piece(King, true, "a2");
    game.set_piece(Pawn, true, "e4");
    game.block_castling();
    let mut engine = AlphaBetaEngine::new(3, 0);
    let result = engine.find_best_move(game, true);
    assert_eq!(None, result.best_move);
    assert_eq!(game.score(), result.score);
    // depth zero: the root is a leaf
    let mut shallow = AlphaBetaEngine::new(0, 0);
    let result = shallow.find_best_move(ChessGame::standard_game(), true);
    assert_eq!(None, result.best_move);
    assert_eq!(0, result.score);
}

#[test]
fn standard_opening_has_twenty_moves_each() {
    let game = ChessGame::standard_game();
    let mut container = SimpleMovesContainer::new();
    game.update_move_container(&mut container, true);
    assert_eq!(20, container.count());
    game.update_move_container(&mut container, false);
    assert_eq!(20, container.count());
    game.update_move_container_old(&mut container, true);
    assert_eq!(20, container.count());
    game.update_move_container_old(&mut container, false);
    assert_eq!(20, container.count());
    assert_eq!(0, game.score());
}

#[test]
fn castling_is_a_move_of_the_king_at_home() {
    let mut container = SimpleMovesContainer::new();

    // no king on e1 or e8: no castling move, though the flags are clear
    let empty = ChessGame::empty();
    empty.update_move_container(&mut container, true);
    assert_eq!(0, container.count());
    empty.update_move_container(&mut container, false);
    assert_eq!(0, container.count());

    // a white knight on e8 is not moved by black
    let mut game = ChessGame::empty();
    game.set_piece(Knight, true, "e8");
    game.set_piece(King, true, "e1");
    game.set_piece(King, false, "a5");
    game.update_move_container(&mut container, false);
    assert!(!holds_move(&mut container, 60, 62));
    game.update_move_container(&mut container, false);
    assert!(!holds_move(&mut container, 60, 58));
    // the white king at home castles to both sides, a rook or none
    game.update_move_container(&mut container, true);
    assert!(holds_move(&mut container, 4, 6));
    game.update_move_container(&mut container, true);
    assert!(holds_move(&mut container, 4, 2));

    // a black king on e1 is not moved by white
    let mut game = ChessGame::empty();
    game.set_piece(King, false, "e1");
    game.set_piece(King, true, "a4");
    game.update_move_container(&mut container, true);
    assert!(!holds_move(&mut container, 4, 6));

    // every generated move leaves a piece of the side and lands on none
    let game = ChessGame::from_fen("r3k2r/pp3ppp/2n5/3q4/3Q4/2N5/PP3PPP/R3K2R w KQkq - 0 1");
    for white in [true, false] {
        game.update_move_container(&mut container, white);
        let mut seen = Vec::new();
        while container.has_next() {
            let m = container.pop_next_move();
            assert_eq!(white, m.is_white);
            assert_ne!(m.from, m.to);
            assert_eq!(Some(white), game.color_at(m.from));
            assert_ne!(Some(white), game.color_at(m.to));
            assert!(!seen.contains(&(m.from, m.to)));
            seen.push((m.from, m.to));
            let mut after = game;
            after.apply_move_unsafe(&m);
            assert_invariants(&after);
            assert_eq!(Some(white), after.color_at(m.to));
            assert_eq!(None, after.color_at(m.from));
        }
        assert!(seen.contains(&(if white { (4, 6) } else { (60, 62) })));
        assert!(seen.contains(&(if white { (4, 2) } else { (60, 58) })));
    }
}

#[test]
fn a_search_depends_on_the_killer_moves_it_starts_from() {
    let game = ChessGame::from_fen("k7/3p4/8/3p4/4P3/8/4P3/K7 w - - 0 1");
    let lo = i32::MIN as i64;
    let hi = i32::MAX as i64;
    let mut engine = AlphaBetaEngine::new(2, 0);
    let first = engine.alpha_beta_search(game, false, 0, lo, hi, false, None);
    assert_eq!((-17, Some(Move::new(35, 28, false))), (first.score, first.best_move));

    // the killer moves that the first search left are tried by the second
    let second = engine.alpha_beta_search(game, false, 0, lo, hi, false, None);
    assert_eq!((4, Some(Move::new(35, 27, false))), (second.score, second.best_move));

    // with the killer moves forgotten, the cache filled or not, the first
    // result comes again
    engine.reset_killer_moves();
    let third = engine.alpha_beta_search(game, false, 0, lo, hi, false, None);
    assert_eq!((first.score, first.best_move), (third.score, third.best_move));
    engine.set_engine_depth(2, 0);
    let fourth = engine.alpha_beta_search(game, false, 0, lo, hi, false, None);
    assert_eq!((first.score, first.best_move), (fourth.score, fourth.best_move));
    let fifth = engine.find_best_move(game, false);
    assert_eq!((first.score, first.best_move), (fifth.score, fifth.best_move));
    let sixth = engine.find_best_move(game, false);
    assert_eq!((first.score, first.best_move), (sixth.score, sixth.best_move));
}
