use barbel::fen_parsing::fen_parsing::parse_fen;
use barbel::moving::move_making::construct_move;
use barbel::moving::mv::Move;

#[test]
fn should_make_and_unmake_e2_to_e4() {
    let fen_before = "rnbqkbnr/pppppppp/8/8/8/8/PPPPPPPP/RNBQKBNR w KQkq - 0 1";
    let fen_after = "rnbqkbnr/pppppppp/8/8/4P3/8/PPPP1PPP/RNBQKBNR b KQkq e3 0 1";
    let mv = construct_move("e2", "e4", 1);
    should_make_and_unmake(fen_before, fen_after, mv);
}

#[test]
fn should_make_and_unmake_d7_to_d5() {
    let fen_before = "rnbqkbnr/pppppppp/8/8/8/8/PPPPPPPP/RNBQKBNR b KQkq - 1 1";
    let fen_after = "rnbqkbnr/ppp1pppp/8/3p4/8/8/PPPPPPPP/RNBQKBNR w KQkq d6 0 2";
    let mv = construct_move("d7", "d5", 1);
    should_make_and_unmake(fen_before, fen_after, mv);
}

#[test]
fn should_make_and_unmake_when_captured() {
    let fen_before = "4k3/8/8/4p3/8/5N2/8/4K3 w - - 0 1";
    let fen_after = "4k3/8/8/4N3/8/8/8/4K3 b - - 0 1";
    let mv = construct_move("f3", "e5", 0b0100);
    should_make_and_unmake(fen_before, fen_after, mv);
}

#[test]
fn should_make_and_unmake_when_en_passant() {
    let fen_before = "r1bqkbnr/ppp1pppp/2n5/3pP3/8/8/PPPP1PPP/RNBQKBNR w KQkq d6 0 3";
    let fen_after = "r1bqkbnr/ppp1pppp/2nP4/8/8/8/PPPP1PPP/RNBQKBNR b KQkq - 0 3";
    let mv = construct_move("e5", "d6", 0b0101);
    should_make_and_unmake(fen_before, fen_after, mv);
}

#[test]
fn should_make_and_unmake_when_white_queenside_castle() {
    let fen_before = "rnbqkbnr/pppppppp/8/8/8/8/PPPPPPPP/R3KBNR w KQkq - 0 1";
    let fen_after = "rnbqkbnr/pppppppp/8/8/8/8/PPPPPPPP/2KR1BNR b kq - 1 1";
    let mv = construct_move("e1", "c1", 3);
    should_make_and_unmake(fen_before, fen_after, mv);
}

#[test]
fn should_make_and_unmake_when_white_kingside_castle() {
    let fen_before = "rnbqkbnr/pppppppp/8/8/8/8/PPPPPPPP/RNBQK2R w KQkq - 0 1";
    let fen_after = "rnbqkbnr/pppppppp/8/8/8/8/PPPPPPPP/RNBQ1RK1 b kq - 1 1";
    let mv = construct_move("e1", "g1", 2);
    should_make_and_unmake(fen_before, fen_after, mv);
}

#[test]
fn should_make_and_unmake_when_black_queenside_castle() {
    let fen_before = "r3kbnr/pppppppp/8/8/8/8/PPPPPPPP/RNBQKBNR b KQkq - 0 1";
    let fen_after = "2kr1bnr/pppppppp/8/8/8/8/PPPPPPPP/RNBQKBNR w KQ - 1 2";
    let mv = construct_move("e8", "c8", 3);
    should_make_and_unmake(fen_before, fen_after, mv);
}

#[test]
fn should_make_and_unmake_when_black_kingside_castle() {
    let fen_before = "rnbqk2r/pppppppp/8/8/8/8/PPPPPPPP/RNBQKBNR b KQkq - 0 1";
    let fen_after = "rnbq1rk1/pppppppp/8/8/8/8/PPPPPPPP/RNBQKBNR w KQ - 1 2";
    let mv = construct_move("e8", "g8", 2);
    should_make_and_unmake(fen_before, fen_after, mv);
}

#[test]
fn should_make_and_unmake_when_promotion_capture_to_queen() {
    let fen_before = "rnbqkbnr/ppppppPp/8/8/8/8/PPPPP1PP/RNBQKBNR w KQkq - 0 1";
    let fen_after = "rnbqkbnQ/pppppp1p/8/8/8/8/PPPPP1PP/RNBQKBNR b KQq - 0 1";
    let mv = construct_move("g7", "h8", 15);
    should_make_and_unmake(fen_before, fen_after, mv);
}

#[test]
fn should_make_and_unmake_when_promotion_capture_to_knight() {
    let fen_before = "rnbqkbnr/ppppppPp/8/8/8/8/PPPPP1PP/RNBQKBNR w KQkq - 0 1";
    let fen_after = "rnbqkbnN/pppppp1p/8/8/8/8/PPPPP1PP/RNBQKBNR b KQq - 0 1";
    let mv = construct_move("g7", "h8", 12);
    should_make_and_unmake(fen_before, fen_after, mv);
}

#[test]
fn should_make_and_unmake_when_promotion_capture_to_bishop() {
    let fen_before = "rnbqkbnr/ppppppPp/8/8/8/8/PPPPP1PP/RNBQKBNR w KQkq - 0 1";
    let fen_after = "rnbqkbnB/pppppp1p/8/8/8/8/PPPPP1PP/RNBQKBNR b KQq - 0 1";
    let mv = construct_move("g7", "h8", 13);
    should_make_and_unmake(fen_before, fen_after, mv);
}

#[test]
fn should_make_and_unmake_when_promotion_capture_to_rook() {
    let fen_before = "rnbqkbnr/ppppppPp/8/8/8/8/PPPPP1PP/RNBQKBNR w KQkq - 0 1";
    let fen_after = "rnbqkbnR/pppppp1p/8/8/8/8/PPPPP1PP/RNBQKBNR b KQq - 0 1";
    let mv = construct_move("g7", "h8", 14);
    should_make_and_unmake(fen_before, fen_after, mv);
}

#[test]
fn should_make_and_unmake_when_promotione_to_queen() {
    let fen_before = "4k3/1P6/8/8/8/8/8/4K3 w - - 0 1";
    let fen_after = "1Q2k3/8/8/8/8/8/8/4K3 b - - 0 1";
    let mv = construct_move("b7", "b8", 11);
    should_make_and_unmake(fen_before, fen_after, mv);
}

#[test]
fn should_make_and_unmake_when_promotione_to_rook() {
    let fen_before = "4k3/1P6/8/8/8/8/8/4K3 w - - 0 1";
    let fen_after = "1R2k3/8/8/8/8/8/8/4K3 b - - 0 1";
    let mv = construct_move("b7", "b8", 10);
    should_make_and_unmake(fen_before, fen_after, mv);
}

#[test]
fn should_make_and_unmake_when_promotione_to_bishop() {
    let fen_before = "4k3/1P6/8/8/8/8/8/4K3 w - - 0 1";
    let fen_after = "1B2k3/8/8/8/8/8/8/4K3 b - - 0 1";
    let mv = construct_move("b7", "b8", 9);
    should_make_and_unmake(fen_before, fen_after, mv);
}

#[test]
fn should_make_and_unmake_when_promotione_to_knight() {
    let fen_before = "4k3/1P6/8/8/8/8/8/4K3 w - - 0 1";
    let fen_after = "1N2k3/8/8/8/8/8/8/4K3 b - - 0 1";
    let mv = construct_move("b7", "b8", 8);
    should_make_and_unmake(fen_before, fen_after, mv);
}

fn should_make_and_unmake(fen_before: &str, fen_after: &str, mv: Move) {
    let mut board = parse_fen(fen_before).unwrap();
    board.make_move(&mv);
    let result_fen = board.to_fen();
    assert_eq!(fen_after, &result_fen, "make");
    board.unmake_move(&mv);
    let result_fen = board.to_fen();
    assert_eq!(fen_before, &result_fen, "unmake");
}
