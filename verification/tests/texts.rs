use chess_engine::chess_type::Type::{King, Pawn};
use chess_engine::chessview::{
    parse_move_text, read_numbers, ChessViewModel, Msg, SquareType, TerminalChessView,
};
use chess_engine::game::ChessGame;
use chess_engine::game_constructor::GameConstructor;
use chess_engine::moves::Move;
use chess_engine::uci::{
    uci_move_to_move, uci_square_to_chess_position, UciAnswer, UciCommand, UciPlayer, UciStep,
};

#[test]
fn records_that_describe_no_position() {
    assert_eq!(None, ChessGame::try_from_fen(""));
    assert_eq!(None, ChessGame::try_from_fen("8/8/8/8/8/8/8/8"));
    assert_eq!(None, ChessGame::try_from_fen("8/8/8/8/8/8/8/8 w -"));
    assert_eq!(None, ChessGame::try_from_fen("8/8/8/8/8/8/8/x7 w - -"));
    assert_eq!(None, ChessGame::try_from_fen("8/8/8/8/8/8/8/9 w - -"));
    assert_eq!(None, ChessGame::try_from_fen("8/8/8/8/8/8/8/8/8 w - -"));
    assert_eq!(None, ChessGame::try_from_fen("8p/8/8/8/8/8/8/8 w - -"));
    assert_eq!(None, GameConstructor::try_from_fen("8888888888888888/8/8/8/8/8/8/8 w - -"));
}

#[test]
fn records_that_describe_a_position() {
    assert_eq!(Some(ChessGame::empty()), ChessGame::try_from_fen("8/8/8/8/8/8/8/8 w - -"));
    assert_eq!(Some(ChessGame::empty()), ChessGame::try_from_fen("8 w - -"));
    assert_eq!(Some(ChessGame::empty()), ChessGame::try_from_fen("/ a b c"));
    assert_eq!(
        Some(ChessGame::standard_game()),
        ChessGame::try_from_fen("  rnbqkbnr/pppppppp/8/8/8/8/PPPPPPPP/RNBQKBNR\tb\nKQkq -  ")
    );
    let mut expected = ChessGame::empty();
    expected.set_piece(King, false, "e8");
    expected.set_piece(Pawn, true, "a2");
    expected.set_piece(King, true, "h1");
    assert_eq!(expected, ChessGame::from_fen("4k3/8/8/8/8/8/P7/7K w - - 0 1"));
    // a piece written beyond the eighth file of a lower rank falls on the
    // next rank
    let mut spilled = ChessGame::empty();
    spilled.set_piece(Pawn, true, "a2");
    assert_eq!(Some(spilled), ChessGame::try_from_fen("8/8/8/8/8/8/8/8P w - -"));
}

#[test]
fn squares_of_the_interface() {
    assert_eq!(Some(28), uci_square_to_chess_position('e', 4));
    assert_eq!(Some(0), uci_square_to_chess_position('a', 1));
    assert_eq!(Some(63), uci_square_to_chess_position('h', 8));
    assert_eq!(None, uci_square_to_chess_position('A', 1));
    assert_eq!(None, uci_square_to_chess_position('i', 1));
    assert_eq!(None, uci_square_to_chess_position('e', 0));
    assert_eq!(None, uci_square_to_chess_position('e', 9));
    let step = UciStep { from_file: 'e', from_rank: 7, to_file: 'e', to_rank: 5 };
    let m = uci_move_to_move(&step, false).unwrap();
    assert_eq!((52, 36, false), (m.from, m.to, m.is_white));
    let bad = UciStep { from_file: 'e', from_rank: 7, to_file: 'E', to_rank: 5 };
    assert!(uci_move_to_move(&bad, false).is_none());
}

#[test]
fn answers_of_the_interface() {
    assert_eq!((None, None), UciAnswer::Nothing.into_formatted());
    assert_eq!((None, None), UciAnswer::Quit.into_formatted());
    assert_eq!(
        (Some(String::from("id name Chessean \n id author Arthur Bricq \nuciok")), None),
        UciAnswer::Initialize.into_formatted()
    );
    assert_eq!((Some(String::from("readyok")), None), UciAnswer::EngineReady.into_formatted());
    assert_eq!(
        (None, Some(String::from("hello"))),
        UciAnswer::Debug(String::from("hello")).into_formatted()
    );
    assert_eq!(
        (Some(String::from("bestmove e2e4")), None),
        UciAnswer::BestMove(Move::new(12, 28, true)).into_formatted()
    );
}

#[test]
fn commands_of_the_interface() {
    let mut player = UciPlayer::new();
    assert_eq!(ChessGame::standard_game(), player.game());
    assert!(matches!(player.handle_message(UciCommand::Uci), UciAnswer::Initialize));
    assert!(matches!(player.handle_message(UciCommand::IsReady), UciAnswer::EngineReady));
    assert!(matches!(player.handle_message(UciCommand::Quit), UciAnswer::Quit));
    match player.handle_message(UciCommand::Other(String::from("stop"))) {
        UciAnswer::Debug(text) => assert_eq!("stop", text),
        _ => panic!("a line to log was expected"),
    }
    assert_eq!(ChessGame::standard_game(), player.game());

    // a record that cannot be read leaves the game
    let bad_record = UciCommand::Position {
        startpos: false,
        fen: Some(String::from("9/8/8/8/8/8/8/8 w - -")),
        moves: vec![],
    };
    match player.handle_message(bad_record) {
        UciAnswer::Debug(text) => assert_eq!("the record cannot be read", text),
        _ => panic!("a line to log was expected"),
    }
    assert_eq!(ChessGame::standard_game(), player.game());

    // so does a pawn on the last rank
    let pawn_on_edge = UciCommand::Position {
        startpos: false,
        fen: Some(String::from("P3k3/8/8/8/8/8/8/4K3 w - -")),
        moves: vec![],
    };
    match player.handle_message(pawn_on_edge) {
        UciAnswer::Debug(text) => {
            assert_eq!("a pawn stands on the first or on the last rank", text)
        }
        _ => panic!("a line to log was expected"),
    }
    assert_eq!(ChessGame::standard_game(), player.game());

    // and a move that cannot be read
    let bad_move = UciCommand::Position {
        startpos: true,
        fen: None,
        moves: vec![
            UciStep { from_file: 'e', from_rank: 2, to_file: 'e', to_rank: 4 },
            UciStep { from_file: 'E', from_rank: 7, to_file: 'e', to_rank: 5 },
        ],
    };
    match player.handle_message(bad_move) {
        UciAnswer::Debug(text) => assert_eq!("a move cannot be read", text),
        _ => panic!("a line to log was expected"),
    }
    assert_eq!(ChessGame::standard_game(), player.game());

    // a position of few pieces: the moves are played in turn and the side
    // to move answers
    let few = UciCommand::Position {
        startpos: false,
        fen: Some(String::from("k7/8/8/3p4/4P3/8/8/K7 w - - 0 1")),
        moves: vec![UciStep { from_file: 'a', from_rank: 1, to_file: 'a', to_rank: 2 }],
    };
    let mut expected = ChessGame::from_fen("k7/8/8/3p4/4P3/8/8/K7 w - - 0 1");
    expected.apply_move_unsafe(&Move::new(0, 8, true));
    assert!(matches!(player.handle_message(few), UciAnswer::Nothing));
    assert_eq!(expected, player.game());
    match player.handle_message(UciCommand::Go) {
        UciAnswer::BestMove(m) => {
            assert!(!m.is_white);
            assert_eq!((35, 28), (m.from, m.to));
        }
        _ => panic!("a move was expected"),
    }
    assert_eq!(expected, player.game());

    // a finished game has no move
    let finished = UciCommand::Position {
        startpos: false,
        fen: Some(String::from("8/8/8/8/8/8/8/K7 w - - 0 1")),
        moves: vec![],
    };
    assert!(matches!(player.handle_message(finished), UciAnswer::Nothing));
    match player.handle_message(UciCommand::Go) {
        UciAnswer::Debug(text) => assert_eq!("no move was found", text),
        _ => panic!("a line to log was expected"),
    }

    assert!(matches!(player.handle_message(UciCommand::UciNewGame), UciAnswer::Nothing));
    assert_eq!(ChessGame::standard_game(), player.game());
}

#[test]
fn moves_typed_on_the_terminal() {
    assert_eq!(Some((1, 2, 3, 4)), parse_move_text("1,2 to 3,4"));
    assert_eq!(Some((4, 1, 4, 3)), parse_move_text("play 4,1 to 4,3 now\n"));
    assert_eq!(Some((0, 0, 9, 9)), parse_move_text("0,0 to 9,9 and 1,1 to 2,2"));
    assert_eq!(None, parse_move_text("4,1 to 4"));
    assert_eq!(None, parse_move_text("4,1 TO 4,3"));
    assert_eq!(None, parse_move_text(""));
    let group = |s: &str| Some(String::from(s));
    let texts = Some(vec![group("4,1 to 4,3"), group("4"), group("1"), group("4"), group("3")]);
    assert_eq!(Some((4, 1, 4, 3)), read_numbers(&texts));
    let not_a_digit =
        Some(vec![group("4,x to 4,3"), group("4"), group("x"), group("4"), group("3")]);
    assert_eq!(None, read_numbers(&not_a_digit));
    let too_long = Some(vec![group(""), group("4"), group("12"), group("4"), group("3")]);
    assert_eq!(None, read_numbers(&too_long));
    let too_few = Some(vec![group("4,1"), group("4"), group("1")]);
    assert_eq!(None, read_numbers(&too_few));
    let no_part = Some(vec![group(""), group("4"), None, group("4"), group("3")]);
    assert_eq!(None, read_numbers(&no_part));
    // digits of other scripts match the expression but write no number here
    assert_eq!(None, parse_move_text("\u{0664},1 to 4,3"));
    assert_eq!(None, read_numbers(&None));
}

#[test]
fn terminal_view_plays_typed_moves() {
    let mut game = ChessGame::standard_game();
    {
        let mut view = TerminalChessView::new(&mut game);
        assert_eq!("♖", view.get_char_at(0, 0));
        assert_eq!("♔", view.get_char_at(4, 0));
        assert_eq!("♙", view.get_char_at(4, 1));
        assert_eq!(" ", view.get_char_at(4, 3));
        assert_eq!("♙", view.get_char_at(4, 6));
        assert_eq!("♚", view.get_char_at(4, 7));
        assert!(view.play_numbers((4, 1, 4, 3)));
        assert_eq!("♙", view.get_char_at(4, 3));
        assert_eq!(" ", view.get_char_at(4, 1));
        assert!(!view.play_numbers((0, 0, 0, 4)));
        assert!(!view.play_numbers((9, 9, 0, 0)));
        assert!(!view.play_numbers((0, 1, 9, 9)));
    }
    assert_eq!(game, ChessGame::standard_game().played(&Move::new(12, 28, true)));
    assert_eq!("♟", game.get_char_at(4, 6));
    assert_eq!("♜", game.get_char_at(0, 7));
    assert_eq!("♘", game.get_char_at(1, 0));
    assert_eq!(" ", game.get_char_at(0, 4));
}

#[test]
fn state_behind_a_view() {
    let mut view = ChessViewModel::new();
    assert_eq!(ChessGame::standard_game(), view.game());
    assert_eq!(Some(String::from("rook_white.svg")), view.get_image_name_at(0, 0));
    assert_eq!(Some(String::from("king_dark.svg")), view.get_image_name_at(4, 7));
    assert_eq!(Some(String::from("pawn_dark.svg")), view.get_image_name_at(0, 6));
    assert_eq!(None, view.get_image_name_at(4, 4));
    assert_eq!("♕", view.get_char_at(3, 0));
    assert_eq!("♛", view.get_char_at(3, 7));
    assert_eq!("♟︎", view.get_char_at(3, 6));
    assert_eq!(" ", view.get_char_at(3, 3));
    assert!(!view.is_attacked_at(4, 2));
    assert_eq!("idle", view.get_class_name(4, 2));
    assert_eq!(SquareType::Idle, view.get_square_type(4, 2));

    // a tap on e2 selects the pawn and finds the squares that it reaches
    assert!(view.message_received(&Msg::SquareTapped(12)));
    assert!(view.is_attacked_at(4, 2));
    assert!(view.is_attacked_at(4, 3));
    assert!(!view.is_attacked_at(4, 4));
    assert!(!view.is_attacked_at(3, 2));
    assert_eq!("attacked", view.get_class_name(4, 3));
    assert_eq!(SquareType::Attacked, view.get_square_type(4, 2));
    assert_eq!(SquareType::Idle, view.get_square_type(0, 0));

    // a tap on a square that the pawn does not reach selects that square
    assert!(view.message_received(&Msg::SquareTapped(1)));
    assert_eq!(ChessGame::standard_game(), view.game());
    assert!(view.is_attacked_at(0, 2));
    assert!(view.is_attacked_at(2, 2));
    assert!(!view.is_attacked_at(4, 2));

    assert!(view.message_received(&Msg::KeyPressed('p')));
    assert!(view.message_received(&Msg::RestartGame));
    assert_eq!(ChessGame::standard_game(), view.game());
    assert!(view.is_attacked_at(0, 2));
}
