use barbel::fen_parsing::fen_parsing::parse_fen;
use barbel::moving::move_making::construct_move;

#[test]
fn position_after_moves_reads_back_from_its_fen() {
    let mut board = parse_fen("r3k2r/pppq1ppp/2n2n2/3pp3/3PP3/2N2N2/PPPQ1PPP/R3K2R w KQkq - 4 9").unwrap();
    board.make_move(&construct_move("e1", "c1", 3));
    board.make_move(&construct_move("e5", "d4", 0b0100));
    let fen = board.to_fen();
    let read = parse_fen(&fen).unwrap();
    assert_eq!(read.to_fen(), fen);
    assert_eq!(read.get_hash(), board.get_hash());
}

#[test]
fn en_passant_file_reads_back() {
    let fen = "4k3/8/8/3pP3/8/8/8/4K3 w - d6 0 2";
    let board = parse_fen(fen).unwrap();
    let again = parse_fen(&board.to_fen()).unwrap();
    assert_eq!(again.to_fen(), fen);
}
