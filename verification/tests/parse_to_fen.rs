use barbel::fen_parsing::fen_parsing::parse_fen;

#[test]
fn should_parse_back_starting_fen() {
    let fen = "rnbqkbnr/pppppppp/8/8/8/8/PPPPPPPP/RNBQKBNR w KQkq - 0 1";
    should_parse_fen_and_back(fen);
}

#[test]
fn should_parse_back_after_e4() {
    let fen = "rnbqkbnr/pppppppp/8/8/4P3/8/PPPP1PPP/RNBQKBNR b KQkq e3 0 1";
    should_parse_fen_and_back(fen);
}

#[test]
fn should_parse_back_in_middlegame() {
    let fen = "r1bqkbnr/1ppp1ppp/p1n5/1B2p3/4P3/5N2/PPPP1PPP/RNBQK2R w KQkq - 0 4";
    should_parse_fen_and_back(fen);
}

#[test]
fn should_parse_back_in_endgame() {
    let fen = "8/8/8/8/8/8/4k3/4K2R w - - 0 1";
    should_parse_fen_and_back(fen);
}

#[test]
fn should_parse_back_castling_rights() {
    let fen = "rnbqkbnr/pppppppp/8/8/8/8/PPPPPPPP/2KR1BNR b kq - 1 1";
    should_parse_fen_and_back(fen);
}

fn should_parse_fen_and_back(fen: &str) {
    let board = parse_fen(fen).unwrap();
    let result = board.to_fen();
    assert_eq!(fen, &result);
}
