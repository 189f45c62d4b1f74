use chess_engine::uci::{UciAnswer, UciCommand, UciPlayer, UciStep};
use chess_engine::utils::index_to_chesspos;
use vampirc_uci::{parse, UciMessage, UciMove};

fn step_of(m: &UciMove) -> UciStep {
    UciStep {
        from_file: m.from.file,
        from_rank: m.from.rank,
        to_file: m.to.file,
        to_rank: m.to.rank,
    }
}

fn command_of(m: UciMessage) -> UciCommand {
    match m {
        UciMessage::Uci => UciCommand::Uci,
        UciMessage::IsReady => UciCommand::IsReady,
        UciMessage::Quit => UciCommand::Quit,
        UciMessage::UciNewGame => UciCommand::UciNewGame,
        UciMessage::Position { startpos, fen, moves } => UciCommand::Position {
            startpos,
            fen: fen.map(|f| f.0),
            moves: moves.iter().map(step_of).collect(),
        },
        UciMessage::Go { .. } => UciCommand::Go,
        other => UciCommand::Other(format!("Unknown message: {:?}", other)),
    }
}

#[test]
fn test_simple_position() {
    let command = "position startpos moves e2e4 e7e6 d2d4";
    let mut commands = parse(command);
    commands.extend(parse("go"));
    assert_eq!(2, commands.len());
    let mut uci_player = UciPlayer::new();
    let last_answer = commands
        .into_iter()
        .map(|m| uci_player.handle_message(command_of(m)))
        .last()
        .expect("No answer");

    match last_answer {
        UciAnswer::BestMove(m) => {
            println!("Best move: {}{}", index_to_chesspos(m.from), index_to_chesspos(m.to));
            assert!(uci_player.game().is_black_at(m.from));
        }
        _ => panic!("Expecting a best move, got: {:?}", last_answer),
    }
}

#[test]
fn position_alone_sets_the_game_up_and_answers_nothing() {
    let mut uci_player = UciPlayer::new();
    let answers: Vec<UciAnswer> = parse("ucinewgame\nposition startpos moves e2e4 e7e6 d2d4\n")
        .into_iter()
        .map(|m| uci_player.handle_message(command_of(m)))
        .collect();
    assert_eq!(2, answers.len());
    assert!(answers.iter().all(|a| matches!(a, UciAnswer::Nothing)));
    let game = uci_player.game();
    assert!(game.is_black_at(44) && !game.is_black_at(52));
    assert_eq!(Some(true), game.color_at(28));
    assert_eq!(Some(true), game.color_at(27));
    assert_eq!(None, game.color_at(12));
}
