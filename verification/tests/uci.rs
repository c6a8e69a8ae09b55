use barbel::constants::{BLACK, WHITE};
use barbel::fen_parsing::fen_parsing::{parse_fen, read_fen, FenError};
use barbel::text::{parse_i32, parse_u64};
use barbel::uci::command::{read_command, GoRequest, UciAction};
use barbel::moving::move_making::{construct_move, field_str_to_num};
use barbel::perft::make_perft;
use barbel::uci::{calc_time, make_move_str, merge_spaces, time_limit_for, CommandLine, SearchLimit, START_POS};

#[test]
fn merge_spaces_trims_and_collapses_whitespace() {
    assert_eq!(merge_spaces("  go   depth\t5 \n"), "go depth 5");
    assert_eq!(merge_spaces("uci"), "uci");
    assert_eq!(merge_spaces(" \t\n"), "");
}

#[test]
fn tokens_are_read_in_order() {
    let mut c = CommandLine::new("position startpos moves e2e4".to_string());
    assert_eq!(c.pop_token().unwrap(), "position");
    assert_eq!(c.pop_token().unwrap(), "startpos");
    assert_eq!(c.pop_token().unwrap(), "moves");
    assert_eq!(c.pop_token().unwrap(), "e2e4");
    assert!(c.pop_token().is_none());
    assert!(c.pop_token().is_none());
}

#[test]
fn token_put_back_is_read_again() {
    let mut c = CommandLine::new("wtime 100 btime 200".to_string());
    let t = c.pop_token().unwrap();
    assert_eq!(t, "wtime");
    c.push_token_to_front(t);
    assert_eq!(c.pop_token().unwrap(), "wtime");
    assert_eq!(c.pop_token().unwrap(), "100");
    c.reset();
    c.push_token_to_front("go".to_string());
    assert_eq!(c.pop_token().unwrap(), "go");
    assert!(c.pop_token().is_none());
}

#[test]
fn command_starting_with_a_space_gives_no_token() {
    let mut c = CommandLine::new(" go".to_string());
    assert!(c.pop_token().is_none());
    assert!(c.pop_token().is_none());
    let mut e = CommandLine::new(String::new());
    assert!(e.pop_token().is_none());
}

#[test]
fn move_in_coordinate_notation_is_played() {
    let mut board = parse_fen(START_POS).unwrap();
    assert!(make_move_str(&mut board, "e2e4").is_ok());
    assert_eq!(board.to_fen(), "rnbqkbnr/pppppppp/8/8/4P3/8/PPPP1PPP/RNBQKBNR b KQkq e3 0 1");
    assert!(make_move_str(&mut board, "e7e5").is_ok());
    assert_eq!(board.to_fen(), "rnbqkbnr/pppp1ppp/8/4p3/4P3/8/PPPP1PPP/RNBQKBNR w KQkq e6 0 2");
}

#[test]
fn unknown_move_is_an_error_and_changes_nothing() {
    let mut board = parse_fen(START_POS).unwrap();
    let err = make_move_str(&mut board, "e2e5").unwrap_err();
    assert_eq!(err, "Move e2e5 not found");
    assert_eq!(board.to_fen(), START_POS);
}

#[test]
fn search_limits_stop_as_set() {
    assert!(SearchLimit::Depth(3).soft_stop(0, 4, 0));
    assert!(!SearchLimit::Depth(3).soft_stop(0, 3, 0));
    assert!(SearchLimit::Nodes(100).soft_stop(100, 1, 0));
    assert!(!SearchLimit::Nodes(100).soft_stop(99, 1, 0));
    assert!(SearchLimit::Time(1000).soft_stop(0, 1, 500));
    assert!(!SearchLimit::Time(1000).soft_stop(0, 1, 499));
    assert!(!SearchLimit::Time(1000).hard_stop(999));
    assert!(SearchLimit::Time(1000).hard_stop(1000));
    assert!(!SearchLimit::Infinite.soft_stop(u64::MAX, i32::MAX, u128::MAX));
    assert!(!SearchLimit::Depth(1).hard_stop(u128::MAX));
}

#[test]
fn time_is_a_twentieth_of_the_clock_and_half_the_increment() {
    assert_eq!(calc_time(20000, 1000), SearchLimit::Time(1500));
    assert_eq!(time_limit_for(WHITE, 20000, 40000, 0, 2000), SearchLimit::Time(1000));
    assert_eq!(time_limit_for(BLACK, 20000, 40000, 0, 2000), SearchLimit::Time(3000));
}

#[test]
fn square_names_and_moves_are_read() {
    assert_eq!(field_str_to_num("a1"), 0);
    assert_eq!(field_str_to_num("h8"), 63);
    assert_eq!(field_str_to_num("e4"), 28);
    let mv = construct_move("g7", "h8", 15);
    assert_eq!(mv.get_start_field(), 54);
    assert_eq!(mv.get_target_field(), 63);
    assert_eq!(mv.get_move_code(), 15);
    assert_eq!(mv.to_str(), "g7h8");
}

#[test]
fn perft_counts_small_depths() {
    assert_eq!(make_perft(START_POS, 1).unwrap().result, 20);
    assert_eq!(make_perft(START_POS, 2).unwrap().result, 400);
    let c = make_perft(START_POS, 3).unwrap();
    assert_eq!(c.result, 8902);
    assert_eq!(c.moves.len(), 20);
    assert_eq!(c.moves.iter().map(|(_, n)| *n).sum::<usize>(), 8902);
}

#[test]
fn perft_reports_a_bad_fen() {
    assert!(make_perft("8/8/8 w - - 0 1", 1).is_err());
}

#[test]
fn each_fen_error_kind_has_an_input() {
    assert!(matches!(
        parse_fen("rnbqkbnr/ppppxppp/8/8/8/8/PPPPPPPP/RNBQKBNR w KQkq - 0 1"),
        Err(FenError::InvalidCharacter { .. })
    ));
    assert!(matches!(
        parse_fen("rnbqkbnr/pppppppp/8/8/8/PPPPPPPP/RNBQKBNR w KQkq - 0 1"),
        Err(FenError::InvalidRankCount { found: 7 })
    ));
    assert!(matches!(
        parse_fen("rnbqkbnr/pppppppp/8/8/8/8/PPPPPPPP/RNBQKBNR"),
        Err(FenError::InvalidStructure { .. })
    ));
    assert!(matches!(
        parse_fen("rnbqkbnr/ppp1ppp/8/8/8/8/PPPPPPPP/RNBQKBNR w KQkq - 0 1"),
        Err(FenError::InvalidFileCount { .. })
    ));
}

#[test]
fn go_depth_reads_the_depth() {
    match read_command("go depth 5".to_string()) {
        UciAction::Go(g) => assert_eq!(g, GoRequest::Depth { depth: 5, warn: false }),
        _ => panic!("not a go command"),
    }
    match read_command("go depth -2".to_string()) {
        UciAction::Go(g) => assert_eq!(g, GoRequest::Depth { depth: -2, warn: true }),
        _ => panic!("not a go command"),
    }
    match read_command("go depth x".to_string()) {
        UciAction::Go(g) => assert_eq!(g, GoRequest::InvalidArgument),
        _ => panic!("not a go command"),
    }
}

#[test]
fn go_reads_the_clocks_in_any_order() {
    match read_command("go btime 2000 wtime 1000 binc 20 winc 10".to_string()) {
        UciAction::Go(g) => assert_eq!(g, GoRequest::Time { wtime: 1000, btime: 2000, winc: 10, binc: 20 }),
        _ => panic!("not a go command"),
    }
    match read_command("go wtime 1000 btime 2000".to_string()) {
        UciAction::Go(g) => assert_eq!(g, GoRequest::MissingTimes),
        _ => panic!("not a go command"),
    }
}

#[test]
fn go_without_words_searches_until_stopped() {
    match read_command("go".to_string()) {
        UciAction::Go(g) => assert_eq!(g, GoRequest::Infinite),
        _ => panic!("not a go command"),
    }
    match read_command("go sideways".to_string()) {
        UciAction::Go(g) => assert_eq!(g, GoRequest::UnknownWord),
        _ => panic!("not a go command"),
    }
    match read_command("go movetime 250".to_string()) {
        UciAction::Go(g) => assert_eq!(g, GoRequest::MoveTime(250)),
        _ => panic!("not a go command"),
    }
    match read_command("go perft 3".to_string()) {
        UciAction::Go(g) => assert_eq!(g, GoRequest::Perft(3)),
        _ => panic!("not a go command"),
    }
}

#[test]
fn position_commands_give_the_position_and_moves() {
    match read_command("position startpos moves e2e4 e7e5".to_string()) {
        UciAction::SetPosition { fen, moves } => {
            assert_eq!(fen, START_POS);
            assert_eq!(moves, vec!["e2e4".to_string(), "e7e5".to_string()]);
        }
        _ => panic!("not a position"),
    }
    match read_command("position fen 4k3/8/8/8/8/8/8/4K3 w - - 0 1 moves e1e2".to_string()) {
        UciAction::SetPosition { fen, moves } => {
            assert_eq!(fen, "4k3/8/8/8/8/8/8/4K3 w - - 0 1");
            assert_eq!(moves, vec!["e1e2".to_string()]);
        }
        _ => panic!("not a position"),
    }
    match read_command("position fen 4k3/8/8/8/8/8/8/4K3 b - - 0 1".to_string()) {
        UciAction::SetPosition { fen, moves } => {
            assert_eq!(fen, "4k3/8/8/8/8/8/8/4K3 b - - 0 1");
            assert!(moves.is_empty());
        }
        _ => panic!("not a position"),
    }
    assert!(matches!(read_command("position startpos e2e4".to_string()), UciAction::PositionIgnored));
    assert!(matches!(read_command("position".to_string()), UciAction::PositionIgnored));
}

#[test]
fn other_commands_are_told_apart() {
    assert!(matches!(read_command(String::new()), UciAction::Empty));
    assert!(matches!(read_command("isready".to_string()), UciAction::IsReady));
    assert!(matches!(read_command("ucinewgame".to_string()), UciAction::NewGame));
    match read_command("dance now".to_string()) {
        UciAction::Unknown(t) => assert_eq!(t, "dance"),
        _ => panic!("not unknown"),
    }
}

#[test]
fn numbers_read_as_rust_reads_them() {
    assert_eq!(parse_i32("-2147483648"), Some(i32::MIN));
    assert_eq!(parse_i32("2147483648"), None);
    assert_eq!(parse_i32("+17"), Some(17));
    assert_eq!(parse_i32("-"), None);
    assert_eq!(parse_u64("18446744073709551615"), Some(u64::MAX));
    assert_eq!(parse_u64("18446744073709551616"), None);
    assert_eq!(parse_u64("-1"), None);
}

#[test]
fn unreadable_fen_is_refused_before_reading() {
    assert!(read_fen("4k3/8/8/8/8/8/8/8 w - - 0 1").is_none());
    assert!(read_fen("4k3/8/8/8/8/8/8/4K3/8/p7 w - - 0 1").is_none());
    assert!(matches!(read_fen("4k3/8/8/8/8/8/8/4K3 w - - 0 1"), Some(Ok(_))));
    assert!(matches!(read_fen("4k3/8/8/8/8/8/8/4K3 x - - 0 1"), Some(Err(_))));
}
