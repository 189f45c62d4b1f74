use chess_engine::game_constructor::GameConstructor;

#[test]
fn test_from_fen_standard_game() {
    let fen = "rnbqkbnr/pppppppp/8/8/8/8/PPPPPPPP/RNBQKBNR w KQkq - 0 1";
    let fen_game = GameConstructor::from_fen(fen);
    let standard_game = GameConstructor::standard_game();

    assert_eq!(fen_game.whites, standard_game.whites, "Mismatch in whites bitboard");
    assert_eq!(fen_game.pawns, standard_game.pawns, "Mismatch in pawns bitboard");
    assert_eq!(fen_game.bishops, standard_game.bishops, "Mismatch in bishops bitboard");
    assert_eq!(fen_game.knights, standard_game.knights, "Mismatch in knights bitboard");
    assert_eq!(fen_game.rooks, standard_game.rooks, "Mismatch in rooks bitboard");
    assert_eq!(fen_game.queens, standard_game.queens, "Mismatch in queens bitboard");
    assert_eq!(fen_game.kings, standard_game.kings, "Mismatch in kings bitboard");
}
