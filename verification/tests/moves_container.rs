use chess_engine::chess_type::Type::Pawn;
use chess_engine::game::ChessGame;
use chess_engine::moves::Move;
use chess_engine::moves::MoveQuality::GoodCapture;
use chess_engine::moves_container::{MovesContainer, SmartMoveContainer};


#[test]
fn moves_container_test_moves_container_with_basic_position() {
    let mut game = ChessGame::empty();
    game.block_castling();
    game.set_piece(Pawn, true, "e2");
    game.set_piece(Pawn, false, "e7");

    let mut container = SmartMoveContainer::new();
    game.update_move_container(&mut container, true);
    let count = container.count();
    while container.has_next() {
        let m = container.pop_next_move();
        println!("{}", m.to_text());
    }
    assert_eq!(2, count);

    game.update_move_container(&mut container, false);
    let count = container.count();
    while container.has_next() {
        let m = container.pop_next_move();
        println!("{}", m.to_text());
    }
    assert_eq!(2, count);
}

#[test]
fn moves_container_test_moves_container_with_standard_position() {
    let game = ChessGame::standard_game();

    let mut container = SmartMoveContainer::new();

    // there are twenty possible positions
    game.update_move_container(&mut container, true);
    assert_eq!(20, container.count());

    game.update_move_container(&mut container, false);
    assert_eq!(20, container.count());
}

#[test]
fn moves_container_test_sorted_container() {
    let mut container = SmartMoveContainer::new();
    assert!(!container.has_next());

    let m1 = Move::new(0, 1, true);
    let m2 = Move::new(2, 3, true);
    let mut m3 = Move::new(4, 5, true);
    m3.set_quality(GoodCapture);

    container.push(m1);
    container.push(m2);
    container.push(m3);

    assert!(container.has_next());
    assert_eq!(3, container.count());

    // The first value (m3) is supposed to be a capture
    assert!(container.pop_next_move().is_capture());
    assert!(container.has_next());

    // the next two values are not capture move
    assert!(!container.pop_next_move().is_capture());
    assert!(container.has_next());

    assert!(!container.pop_next_move().is_capture());

    // now the container is empty
    assert!(!container.has_next());
}

#[test]
fn moves_container_test_first_move() {
    let mut container = SmartMoveContainer::new();
    let m1 = Move::new(0, 1, true);
    let m2 = Move::new(2, 3, true);
    let mut m3 = Move::new(4, 5, true);
    m3.set_quality(GoodCapture);
    container.push(m2);
    container.push(m3);
    container.set_first_move(m1);

    let first = container.pop_next_move();
    let second = container.pop_next_move();
    let third = container.pop_next_move();

    assert_eq!(first, m1);
    assert_eq!(second, m3);
    assert_eq!(third, m2);
}

#[test]
fn test_possible_moves_with_fen_game() {
    let fen = "6r1/p1q3bk/4rnR1/2p2Q1P/1p1p4/3P2P1/2PK1B2/8 w - - 0 46";
    let game = ChessGame::from_fen(fen);
    let mut container = SmartMoveContainer::new();
    game.update_move_container(&mut container, true);
    while container.has_next() {
        let m = container.pop_next_move();
        assert_ne!(m.from, m.to);
        assert_eq!(true, m.is_white);
        println!("{}", m.to_text())
    }
}
