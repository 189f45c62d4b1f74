use chess_engine::game::ChessGame;
use chess_engine::moves::Move;
use chess_engine::moves::MoveQuality::{EqualCapture, GoodCapture, LowCapture, Motion};
use chess_engine::moves_container::{MovesContainer, SimpleMovesContainer};


#[test]
fn test_blocked_pawns() {
    let mut game = ChessGame::from_fen("4k3/4p3/4n3/8/8/4N3/4P3/4K3 w - - 0 1");
    game.block_castling();
    let mut container = SimpleMovesContainer::new();

    // In this position, white can't move the pawn because it is blocked by the knights.
    // Count of valid positions: 8 for the knight, 4 for the king -> 12
    game.update_move_container(&mut container, true);
    assert_eq!(12, container.count());

    // Same for black
    game.update_move_container(&mut container, false);
    assert_eq!(12, container.count())
}

#[test]
fn test_pawn_jumping_1() {
    let mut game = ChessGame::from_fen("4k3/4p3/8/8/8/8/4P3/4K3 w - - 0 1");
    game.block_castling();
    let mut container = SimpleMovesContainer::new();

    // In this position, white can move the pawn 2 squares up, but black can't
    // Count of valid positions: 8 for the knight, 4 for the king -> 12
    // white pawns: 2 -> 6
    // black pawns: 1 -> 13
    game.update_move_container(&mut container, true);
    assert_eq!(6, container.count());

    // Same for black
    game.update_move_container(&mut container, false);
    assert_eq!(6, container.count())
}

#[test]
fn test_pawn_jumping_2() {
    let mut game = ChessGame::from_fen("8/8/4p3/8/8/4P3/8/8 w - - 0 1");
    game.block_castling();
    let mut container = SimpleMovesContainer::new();

    // In this pos, players have only 1 legal move

    game.update_move_container(&mut container, true);
    assert_eq!(1, container.count());

    // Same for black
    game.update_move_container(&mut container, false);
    assert_eq!(1, container.count())
}

fn assert_container_contains<C: MovesContainer>(container: &mut C, expected: Move) -> bool {
    while container.has_next() {
        let next = container.pop_next_move();
        if next == expected {
            return true;
        }
    }
    false
}

#[test]
fn test_small_castle_no_enemies() {
    let game = ChessGame::from_fen("4k2r/4pppp/8/8/8/8/4PPPP/4K2R w - - 0 1");
    let mut container = SimpleMovesContainer::new();

    // White can small castle
    game.update_move_container(&mut container, true);
    assert!(assert_container_contains(
        &mut container,
        Move::new(4, 6, true)
    ));

    // Black can small castle
    game.update_move_container(&mut container, false);
    assert!(assert_container_contains(
        &mut container,
        Move::new(60, 62, false)
    ))
}

/// Asserts that every move on the move container matches 1 and exactly one matcher.
/// The order of the matcher does not matter.
fn asserts_moves_matching<C: MovesContainer>(
    container: &mut C,
    mut matchers: Vec<fn(&Move) -> bool>,
) {
    while container.has_next() {
        let next = container.pop_next_move();
        let matched_predicate = matchers.iter().position(|f| f(&next));
        if let Some(index) = matched_predicate {
            matchers.remove(index);
        } else {
            panic!("Unexpected move for which no predicate worked: {:?}", next);
        }
    }
}

#[test]
fn test_move_evaluation_1() {
    let mut game = ChessGame::from_fen("8/8/8/8/8/1n6/2p5/N7 w - - 0 1");
    game.block_castling();
    let mut container = SimpleMovesContainer::new();

    // White has two moves: 1 equal capture and one lower capture
    game.update_move_container(&mut container, true);

    asserts_moves_matching(
        &mut container,
        vec![|m: &Move| m.quality == EqualCapture, |m: &Move| {
            m.quality == LowCapture
        }],
    )
}

#[test]
fn test_move_evaluation_2() {
    let mut game = ChessGame::from_fen("8/8/8/8/8/1q6/8/N7 w - - 0 1");
    game.block_castling();
    let mut container = SimpleMovesContainer::new();

    // White has two moves: 1 equal capture and one lower capture
    game.update_move_container(&mut container, true);

    asserts_moves_matching(
        &mut container,
        vec![|m: &Move| m.quality == Motion, |m: &Move| {
            m.quality == GoodCapture
        }],
    )
}

#[test]
fn test_move_evaluation_3() {
    let mut game = ChessGame::from_fen("8/8/3p1b2/4B3/3q1P2/8/8/8 w - - 0 1");
    game.block_castling();
    let mut container = SimpleMovesContainer::new();

    // White has two moves: 1 equal capture and one lower capture
    game.update_move_container(&mut container, true);

    asserts_moves_matching(
        &mut container,
        vec![
            |m: &Move| m.quality == LowCapture,
            |m: &Move| m.quality == EqualCapture,
            |m: &Move| m.quality == GoodCapture,
            |m: &Move| m.quality == Motion,
        ],
    )
}
