use barbel::fen_parsing::fen_parsing::parse_fen;
use barbel::moving::generation::generate_moves;
use barbel::moving::move_list::MoveList;
use barbel::position::board::Board;

#[test]
fn should_have_correct_move_count_in_starting_position() {
    should_have_correct_move_count_in_pos(
        "rnbqkbnr/pppppppp/8/8/8/8/PPPPPPPP/RNBQKBNR w KQkq - 0 1",
        20,
    );
}

#[test]
fn should_have_correct_move_count_in_kiwipete_position() {
    should_have_correct_move_count_in_pos(
        "r3k2r/p1ppqpb1/bn2pnp1/3PN3/1p2P3/2N2Q1p/PPPBBPPP/R3K2R w KQkq - 0 1",
        48,
    );
}

#[test]
fn should_have_correct_move_count_in_position_3() {
    should_have_correct_move_count_in_pos("8/2p5/3p4/KP5r/1R3p1k/8/4P1P1/8 w - - 0 1 ", 14);
}

#[test]
fn should_have_correct_move_count_in_position_4() {
    should_have_correct_move_count_in_pos(
        "r3k2r/Pppp1ppp/1b3nbN/nP6/BBP1P3/q4N2/Pp1P2PP/R2Q1RK1 w kq - 0 1",
        6,
    );
}

#[test]
fn should_have_correct_move_count_in_position_5() {
    should_have_correct_move_count_in_pos(
        "rnbq1k1r/pp1Pbppp/2p5/8/2B5/8/PPP1NnPP/RNBQK2R w KQ - 1 8",
        44,
    );
}

#[test]
fn should_have_correct_move_count_in_position_6() {
    should_have_correct_move_count_in_pos(
        "r4rk1/1pp1qppp/p1np1n2/2b1p1B1/2B1P1b1/P1NP1N2/1PP1QPPP/R4RK1 w - - 0 10",
        46,
    );
}

fn should_have_correct_move_count_in_pos(pos: &str, expected_count: usize) {
    let board_result = parse_fen(pos);
    let board: Board;
    match board_result {
        Err(e) => panic!("Error in fen parsing: {:?}", e),
        Ok(b) => board = b,
    }
    let mut move_list = MoveList::new();
    generate_moves(&mut move_list, &board);
    for i in 0..move_list.get_count() {
        println!("{}", move_list.get_move(i).to_str());
    }
    assert_eq!(move_list.get_count(), expected_count);
}
