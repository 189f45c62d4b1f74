use chess_engine::chess_type::Type::Pawn;
use chess_engine::game::ChessGame;
use chess_engine::moves::Move;


#[test]
fn game_test_wrong_knight_move() {
    let game = ChessGame::standard_game();
    let mut invalid_move = Move::new(6, 31, true);
    assert!(!game.is_move_valid(&mut invalid_move))
}

#[test]
fn game_test_small_castle() {
    // This is the chess position reached after
    // 1. e4 e5
    // 2. Nf3 Qf6
    // 3. Bc4 Qf4
    // which by the way is terrible for black...
    // It is white's turn
    // White can castle or move the king up
    let mut game = ChessGame {
        whites: 337702815,
        pawns: 67272588421820160,
        bishops: 2594073385432514564,
        knights: 4755801206505340930,
        rooks: 9295429630892703873,
        queens: 536870920,
        kings: 1152921504606846992,
        flags: 0,
    };

    // this is castle
    // it is valid
    let mut move1 = Move::new(4, 6, true);
    assert!(game.is_move_valid(&mut move1));

    // but if we block castling, the move is not valid
    game.block_castling();
    assert!(!game.is_move_valid(&mut move1));
}

#[test]
fn game_test_invalid_small_castle() {
    // GIVEN
    // (e4, _)
    // (Nf3, _)
    let game = ChessGame {
        whites: 270593983,
        pawns: 65038346434440960,
        bishops: 2594073385365405732,
        knights: 4755801206505340930,
        rooks: 9295429630892703873,
        queens: 576460752303423496,
        kings: 1152921504606846992,
        flags: 0,
    };

    // THEN white must not be able to castle
    let mut move1 = Move::new(4, 6, true);
    assert!(!game.is_move_valid(&mut move1));
}

#[test]
fn game_test_simple_motions() {
    // Create a new chess game
    let mut game = ChessGame::standard_game();

    // A stupid move should not pass
    let m = Move::new(10, 11, false);
    let mut result = game.apply_move_safe(m);
    assert_eq!(result, false);

    // e4 is a valid move
    result = game.apply_move_safe(Move::new(12, 28, true));
    assert_eq!(result, true);

    // my chess representation does not keep track of who is the current player
    // e5 for white is a valid move
    result = game.apply_move_safe(Move::new(28, 36, true));
    assert_eq!(result, true);

    // e5 for black is not valid
    result = game.apply_move_safe(Move::new(52, 36, false));
    assert_eq!(result, false);

    // e6 for black is valid
    result = game.apply_move_safe(Move::new(52, 44, false));
    assert_eq!(result, true);
}

#[test]
fn game_test_king_cant_go_everywhere() {
    // Create a new chess game
    let mut game = ChessGame::standard_game();

    // Try moving the king from e1 to e4
    let m = Move::new(4, 28, true);
    let result = game.apply_move_safe(m);

    // Assert that the move is not allowed
    assert_eq!(result, false);
}

#[test]
fn game_test_initial_score() {
    let game = ChessGame::standard_game();
    assert_eq!(0, game.score());
}

#[test]
fn game_test_score1() {
    let mut game = ChessGame::empty();
    game.set_piece(Pawn, true, "e2");
    game.set_piece(Pawn, false, "e7");
    assert_eq!(0, game.score());
}

#[test]
fn game_test_invalid_pawn_move_at_begining() {
    let game = ChessGame::standard_game();
    assert!(!game.is_move_valid(&Move::new(12, 36, true)))
}

#[test]
fn test_gpt_crazy_shit() {
    let mut pieces = 0b01001100u8;
    while pieces != 0 {
        let first_piece = pieces.trailing_zeros();
        println!("{first_piece}");
        pieces &= pieces - 1;
    }
}
