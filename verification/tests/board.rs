use chess_engine::bits::{clear_at, count_squares, is_set, pieces_for_color, set_at, take_lowest};
use chess_engine::chess_type::Type;
use chess_engine::chess_type::Type::{Bishop, King, Knight, Pawn, Queen, Rook};
use chess_engine::game::ChessGame;
use chess_engine::game_constructor::GameConstructor;
use chess_engine::motion_iterator::StepMotionIterator;
use chess_engine::moves::{Move, MoveQuality};
use chess_engine::precomputation::{
    king_attack_mask, king_attacks, knight_attack_mask, knight_attacks, pawn_attack_mask,
    pawn_attacks, ray_length, ray_offset, sliding_attacks, sliding_ray,
};
use chess_engine::utils::{
    chesspos_to_index, from_rank_file, index_to_chesspos, names_square, pos_to_index,
    IntoChessPosition,
};

#[test]
fn bit_helpers() {
    assert_eq!(0b1000, set_at(0, 3));
    assert_eq!(1u64 << 63, set_at(0, 63));
    assert_eq!(0b0101, clear_at(0b0111, 1));
    assert_eq!(0b0111, clear_at(0b0111, 5));
    assert!(is_set(0b0100, 2));
    assert!(!is_set(0b0100, 1));
    assert_eq!((2, 0b1000), take_lowest(0b1100));
    assert_eq!((63, 0), take_lowest(1u64 << 63));
    assert_eq!(0, count_squares(0));
    assert_eq!(3, count_squares(0b1011));
    assert_eq!(64, count_squares(u64::MAX));
    assert_eq!(0b0010, pieces_for_color(0b0011, 0b0110, true));
    assert_eq!(0b0100, pieces_for_color(0b0011, 0b0110, false));
}

#[test]
fn squares_and_their_names() {
    assert_eq!(0, chesspos_to_index("a1").unwrap());
    assert_eq!(28, chesspos_to_index("e4").unwrap());
    assert_eq!(63, chesspos_to_index("h8").unwrap());
    assert_eq!(63, chesspos_to_index("h8 and more").unwrap());
    assert_eq!(None, chesspos_to_index("e"));
    assert_eq!(None, chesspos_to_index(""));
    assert_eq!("a1", index_to_chesspos(0));
    assert_eq!("e4", index_to_chesspos(28));
    assert_eq!("h8", index_to_chesspos(63));
    for index in 0..64 {
        assert_eq!(Some(index), chesspos_to_index(&index_to_chesspos(index)));
    }
    assert!(names_square("e4") && names_square("a9") && names_square("h0x"));
    assert!(!names_square("e") && !names_square("4e") && !names_square("i4") && !names_square("E4"));
    assert_eq!(64, chesspos_to_index("a9").unwrap());
    assert_eq!(-8, chesspos_to_index("a0").unwrap());
    assert_eq!(28, pos_to_index(4, 3));
    assert_eq!(28, from_rank_file(3, 4));
    assert_eq!(28, "e4".as_chess_position());
    assert_eq!(28, 28u8.as_chess_position());
    assert_eq!(28, 28i8.as_chess_position());
}

#[test]
fn moves_and_their_tags() {
    let m = Move::new(12, 28, true);
    assert_eq!(MoveQuality::Motion, m.quality);
    assert!(!m.is_capture());
    assert_eq!("e2->e4", m.to_text());
    assert_eq!(m, Move::from_str("e2", "e4", true));

    let mut other = Move::new(12, 28, false);
    other.set_quality(MoveQuality::Principal);
    assert_eq!(m, other);
    assert!(!other.is_capture());
    assert_ne!(m, Move::new(12, 20, true));

    let mut capture = Move::new(1, 2, true);
    capture.set_quality_from_scores(Pawn, Queen);
    assert_eq!(MoveQuality::GoodCapture, capture.quality);
    capture.set_quality_from_scores(Bishop, Knight);
    assert_eq!(MoveQuality::EqualCapture, capture.quality);
    capture.set_quality_from_scores(Rook, Knight);
    assert_eq!(MoveQuality::LowCapture, capture.quality);
    capture.set_quality_from_scores(King, Queen);
    assert_eq!(MoveQuality::LowCapture, capture.quality);
    assert!(capture.is_capture());

    assert_eq!(5, MoveQuality::Principal.rank());
    assert_eq!(4, MoveQuality::KillerMove.rank());
    assert_eq!(3, MoveQuality::GoodCapture.rank());
    assert_eq!(2, MoveQuality::EqualCapture.rank());
    assert_eq!(1, MoveQuality::LowCapture.rank());
    assert_eq!(0, MoveQuality::Motion.rank());
    assert_eq!(MoveQuality::Motion, MoveQuality::default());
    assert!(MoveQuality::Principal > MoveQuality::KillerMove);
    assert!(MoveQuality::KillerMove > MoveQuality::GoodCapture);
    assert!(MoveQuality::GoodCapture > MoveQuality::EqualCapture);
    assert!(MoveQuality::EqualCapture > MoveQuality::LowCapture);
    assert!(MoveQuality::LowCapture > MoveQuality::Motion);
    assert!(MoveQuality::Motion <= MoveQuality::Motion);
    assert!(capture > m);
    assert!(!(m < other) || other.quality > m.quality);

    assert_eq!(1, Type::Pawn.score());
    assert_eq!(3, Type::Bishop.score());
    assert_eq!(3, Type::Knight.score());
    assert_eq!(5, Type::Rook.score());
    assert_eq!(10, Type::Queen.score());
    assert_eq!(1000, Type::King.score());
}

#[test]
fn direction_between_two_squares() {
    assert_eq!(1, Move::new(0, 7, true).get_direction_increment());
    assert_eq!(-1, Move::new(7, 0, true).get_direction_increment());
    assert_eq!(8, Move::new(0, 56, true).get_direction_increment());
    assert_eq!(-8, Move::new(60, 4, true).get_direction_increment());
    assert_eq!(9, Move::new(0, 63, true).get_direction_increment());
    assert_eq!(-9, Move::new(63, 0, true).get_direction_increment());
    assert_eq!(7, Move::new(7, 56, true).get_direction_increment());
    assert_eq!(-7, Move::new(56, 7, true).get_direction_increment());
    assert_eq!(0, Move::new(0, 10, true).get_direction_increment());
    assert_eq!(-1, Move::new(5, 5, true).get_direction_increment());
}

#[test]
fn masks_and_tables_agree() {
    let (white, black) = pawn_attacks();
    let knights = knight_attacks();
    let kings = king_attacks();
    for sq in 0..64usize {
        assert_eq!(white[sq], pawn_attack_mask(true, sq as i8));
        assert_eq!(black[sq], pawn_attack_mask(false, sq as i8));
        assert_eq!(knights[sq], knight_attack_mask(sq as i8));
        assert_eq!(kings[sq], king_attack_mask(sq as i8));
    }
    // e4: d5 and f5 for white, d3 and f3 for black
    assert_eq!((1u64 << 35) | (1u64 << 37), white[28]);
    assert_eq!((1u64 << 19) | (1u64 << 21), black[28]);
    // no attack from the last rank forward, none from the first rank back
    assert_eq!(0, white[60]);
    assert_eq!(0, black[3]);
    assert_eq!(1u64 << 9, white[0]);
    assert_eq!(1u64 << 14, white[7]);
    // knight on a1: b3 and c2; king on a1: a2, b1, b2
    assert_eq!((1u64 << 17) | (1u64 << 10), knights[0]);
    assert_eq!((1u64 << 8) | (1u64 << 1) | (1u64 << 9), kings[0]);
    assert_eq!(8, knights[28].count_ones());
    assert_eq!(8, kings[28].count_ones());
}

#[test]
fn rays_in_the_eight_directions() {
    let table = sliding_attacks();
    assert_eq!(8, table.len());
    for dir in 0..8usize {
        assert_eq!(64, table[dir].len());
        for sq in 0..64usize {
            assert_eq!(table[dir][sq], sliding_ray(dir, sq as i8));
            assert_eq!(table[dir][sq].len(), ray_length(dir, sq as i8) as usize);
        }
    }
    assert_eq!(vec![8, 16, 24, 32, 40, 48, 56], table[0][0]);
    assert_eq!(vec![20, 12, 4], table[1][28]);
    assert_eq!(vec![29, 30, 31], table[2][28]);
    assert_eq!(vec![27, 26, 25, 24], table[3][28]);
    assert_eq!(vec![37, 46, 55], table[4][28]);
    assert_eq!(vec![35, 42, 49, 56], table[5][28]);
    assert_eq!(vec![21, 14, 7], table[6][28]);
    assert_eq!(vec![19, 10, 1], table[7][28]);
    assert!(table[0][63].is_empty());
    assert!(table[2][63].is_empty());
    assert!(table[7][0].is_empty());
    assert_eq!([8, -8, 1, -1, 9, 7, -7, -9], [
        ray_offset(0),
        ray_offset(1),
        ray_offset(2),
        ray_offset(3),
        ray_offset(4),
        ray_offset(5),
        ray_offset(6),
        ray_offset(7),
    ]);
}

#[test]
fn pieces_on_the_board() {
    let game = ChessGame::standard_game();
    assert_eq!(Some(Rook), game.type_at_index(0));
    assert_eq!(Some(Knight), game.type_at_index(1));
    assert_eq!(Some(Bishop), game.type_at_index(2));
    assert_eq!(Some(Queen), game.type_at_index(3));
    assert_eq!(Some(King), game.type_at_index(4));
    assert_eq!(Some(Pawn), game.type_at_index(12));
    assert_eq!(None, game.type_at_index(28));
    assert_eq!(Some(King), game.type_at_index(60));
    assert_eq!(Some(Queen), game.type_at_xy(3, 7));
    assert_eq!(Some(Queen), game.type_at(3, 7));
    assert!(game.is_white_at_xy(3, 0));
    assert!(!game.is_white_at_xy(3, 7));
    assert!(game.is_white_at(3, 1));
    assert!(game.is_black_at(59));
    assert!(!game.is_black_at(3));
    assert!(!game.is_black_at(28));
    assert!(game.has_piece_at(8));
    assert!(!game.has_piece_at(16));
    assert_eq!(0xffff_0000_0000_ffff, game.occupancy_mask());
    assert!(!game.is_finished());
    assert_eq!(game, ChessGame::default());
    assert_eq!(game, GameConstructor::standard_game());
    assert_eq!(ChessGame::new(0, 0, 0, 0, 0, 0, 0, 0), GameConstructor::empty());
    assert!(ChessGame::empty().is_finished());

    let mut three = ChessGame::empty();
    three.set_piece(King, true, 0i8);
    assert!(three.is_finished());
    three.set_piece(King, false, 1i8);
    assert!(!three.is_finished());
    three.set_piece(King, false, 2i8);
    assert!(three.is_finished());
}

#[test]
fn what_a_move_does() {
    // a capture empties the square first
    let mut game = ChessGame::empty();
    game.set_piece(Rook, true, "a1");
    game.set_piece(Queen, false, "a8");
    game.apply_move_unsafe(&Move::new(0, 56, true));
    assert_eq!(ChessGame::new(1 << 56, 0, 0, 0, 1 << 56, 0, 0, 0), game);

    // no piece, no change
    let before = game;
    game.apply_move_unsafe(&Move::new(5, 6, true));
    assert_eq!(before, game);

    // a pawn that reaches the last rank, or the first, becomes a queen
    let mut game = ChessGame::empty();
    game.set_piece(Pawn, true, "a7");
    game.set_piece(Pawn, false, "h2");
    game.apply_move_unsafe(&Move::new(48, 56, true));
    game.apply_move_unsafe(&Move::new(15, 7, false));
    assert_eq!(ChessGame::new(1 << 56, 0, 0, 0, 0, (1 << 56) | (1 << 7), 0, 0), game);

    // a king's move sets the flag of its side
    let mut game = ChessGame::empty();
    game.set_piece(King, true, "e1");
    game.set_piece(King, false, "e8");
    game.apply_move_unsafe(&Move::new(4, 12, true));
    assert_eq!(0b0001, game.flags);
    game.apply_move_unsafe(&Move::new(60, 59, false));
    assert_eq!(0b0011, game.flags);

    // castling takes the rook along and sets both flags of the side
    let mut game = ChessGame::from_fen("r3k2r/8/8/8/8/8/8/R3K2R w KQkq - 0 1");
    game.apply_move_unsafe(&Move::new(4, 6, true));
    assert_eq!(Some(King), game.type_at_index(6));
    assert_eq!(Some(Rook), game.type_at_index(5));
    assert_eq!(None, game.type_at_index(7));
    assert_eq!(None, game.type_at_index(4));
    assert!(game.is_white_at_xy(5, 0) && game.is_white_at_xy(6, 0));
    assert_eq!(0b0101, game.flags);
    game.apply_move_unsafe(&Move::new(60, 58, false));
    assert_eq!(Some(King), game.type_at_index(58));
    assert_eq!(Some(Rook), game.type_at_index(59));
    assert_eq!(None, game.type_at_index(56));
    assert!(game.is_black_at(58) && game.is_black_at(59));
    assert_eq!(0b1111, game.flags);
    assert_eq!((1 << 5) | (1 << 0) | (1 << 59) | (1 << 63), game.rooks);

    // two squares by a king whose rook corner is off the board: both flags
    // are set and no rook moves
    let mut game = ChessGame::empty();
    game.set_piece(King, true, "f8");
    game.apply_move_unsafe(&Move::new(61, 63, true));
    assert_eq!(ChessGame::new(1 << 63, 0, 0, 0, 0, 0, 1 << 63, 0b0101), game);
    let mut game = ChessGame::empty();
    game.set_piece(King, false, "c1");
    game.apply_move_unsafe(&Move::new(2, 0, false));
    assert_eq!(ChessGame::new(0, 0, 0, 0, 0, 0, 1, 0b1010), game);

    let mut blocked = ChessGame::empty();
    blocked.block_castling();
    assert_eq!(0b1111, blocked.flags);
}

#[test]
fn moves_asked_from_outside_are_tested() {
    let mut game = ChessGame::standard_game();
    // a knight may jump, a bishop may not
    assert!(game.is_move_valid(&Move::new(1, 18, true)));
    assert!(!game.is_move_valid(&Move::new(2, 16, true)));
    // nothing stands on e4
    assert!(!game.is_move_valid(&Move::new(28, 36, true)));
    // a refused move changes nothing
    let before = game;
    assert!(!game.apply_move_safe(Move::new(0, 24, true)));
    assert_eq!(before, game);
    assert!(game.apply_move_safe(Move::new(8, 24, true)));
    assert!(game.apply_move_safe(Move::new(0, 16, true)));
    assert_eq!(Some(Rook), game.type_at_index(16));
    assert!(game.is_move_over_free_squares(&Move::new(16, 23, true)));
    assert!(!game.is_move_over_free_squares(&Move::new(16, 32, true)));
    assert!(game.is_destination_of_incorrect_color(&Move::new(16, 24, true)));
    assert!(!game.is_destination_of_incorrect_color(&Move::new(16, 48, true)));
    assert!(ChessGame::is_rook_valid(&Move::new(16, 23, true)));
    assert!(!ChessGame::is_rook_valid(&Move::new(16, 25, true)));
    assert!(ChessGame::is_bishop_valid(9, 0, 2, 1, 3));
    assert!(!ChessGame::is_bishop_valid(8, 0, 2, 0, 3));
    assert!(game.is_pawn_move_valid(&Move::new(12, 28, true)));
    assert!(!game.is_pawn_move_valid(&Move::new(24, 40, true)));
    assert!(game.is_king_move_valid(&Move::new(4, 12, true)));
    assert!(!game.is_king_move_valid(&Move::new(4, 6, true)));
    assert!(game.is_move_valid_for_type(&Move::new(1, 18, true), Type::Knight));
}

#[test]
fn a_walk_yields_moves_up_to_the_first_piece() {
    let mut game = ChessGame::empty();
    game.set_piece(Rook, true, "a1");
    game.set_piece(Pawn, false, "e1");
    game.set_piece(Pawn, true, "a3");
    let mut east = StepMotionIterator::new(0, 1, true, Rook);
    let mut seen = Vec::new();
    while let Some(m) = east.next(&game) {
        seen.push((m.to, m.quality));
    }
    assert_eq!(
        vec![
            (1, MoveQuality::Motion),
            (2, MoveQuality::Motion),
            (3, MoveQuality::Motion),
            (4, MoveQuality::LowCapture),
        ],
        seen
    );
    assert_eq!(None, east.next(&game));

    let mut north = StepMotionIterator::new(0, 8, true, Rook);
    assert_eq!(Some(8), north.next(&game).map(|m| m.to));
    assert_eq!(None, north.next(&game));

    let mut west = StepMotionIterator::new(0, -1, true, Rook);
    assert_eq!(None, west.next(&game));
}

#[test]
fn attacks_of_all_pieces_together() {
    let game = ChessGame::standard_game();
    // the third rank, and the first two ranks but for the corners and a1,
    // h1: every piece of white is defended but the rooks
    assert_eq!(0x0000_0000_00ff_ff7e, game.get_attacked_squares(true));
    assert_eq!(0x7eff_ff00_0000_0000, game.get_attacked_squares(false));
    assert_eq!(0, game.get_attacked_squares_from_sliding_piece(game.knights, 0, 0));
    let mut queen = ChessGame::empty();
    queen.set_piece(Queen, true, "a1");
    assert_eq!(21, queen.get_attacked_squares_queen(true).count_ones());
    assert_eq!(0, queen.get_attacked_squares_queen(false));
}
