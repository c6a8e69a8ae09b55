use barbel::fen_parsing::fen_parsing::parse_fen;
use barbel::moving::move_making::construct_move;

fn hash_after(fen_before: &str, start: &str, target: &str, code: u16) -> u64 {
    let mut board = parse_fen(fen_before).unwrap();
    let mv = construct_move(start, target, code);
    board.make_move(&mv);
    board.get_hash()
}

fn hash_of(fen: &str) -> u64 {
    parse_fen(fen).unwrap().get_hash()
}

#[test]
fn hash_after_double_push_is_hash_of_new_position() {
    let h = hash_after("rnbqkbnr/pppppppp/8/8/8/8/PPPPPPPP/RNBQKBNR w KQkq - 0 1", "e2", "e4", 1);
    assert_eq!(h, hash_of("rnbqkbnr/pppppppp/8/8/4P3/8/PPPP1PPP/RNBQKBNR b KQkq e3 0 1"));
}

#[test]
fn hash_after_capture_is_hash_of_new_position() {
    let h = hash_after("4k3/8/8/4p3/8/5N2/8/4K3 w - - 0 1", "f3", "e5", 0b0100);
    assert_eq!(h, hash_of("4k3/8/8/4N3/8/8/8/4K3 b - - 0 1"));
}

#[test]
fn hash_after_en_passant_is_hash_of_new_position() {
    let h = hash_after("r1bqkbnr/ppp1pppp/2n5/3pP3/8/8/PPPP1PPP/RNBQKBNR w KQkq d6 0 3", "e5", "d6", 0b0101);
    assert_eq!(h, hash_of("r1bqkbnr/ppp1pppp/2nP4/8/8/8/PPPP1PPP/RNBQKBNR b KQkq - 0 3"));
}

#[test]
fn hash_after_castle_is_hash_of_new_position() {
    let h = hash_after("r3kbnr/pppppppp/8/8/8/8/PPPPPPPP/RNBQKBNR b KQkq - 0 1", "e8", "c8", 3);
    assert_eq!(h, hash_of("2kr1bnr/pppppppp/8/8/8/8/PPPPPPPP/RNBQKBNR w KQ - 1 2"));
}

#[test]
fn hash_after_promotion_capture_is_hash_of_new_position() {
    let h = hash_after("rnbqkbnr/ppppppPp/8/8/8/8/PPPPP1PP/RNBQKBNR w KQkq - 0 1", "g7", "h8", 15);
    assert_eq!(h, hash_of("rnbqkbnQ/pppppp1p/8/8/8/8/PPPPP1PP/RNBQKBNR b KQq - 0 1"));
}

#[test]
fn hash_after_pass_is_hash_with_other_side_to_move() {
    let mut board = parse_fen("4k3/8/8/4p3/8/5N2/8/4K3 w - - 0 1").unwrap();
    board.make_null_mv();
    assert_eq!(board.get_hash(), hash_of("4k3/8/8/4p3/8/5N2/8/4K3 b - - 0 1"));
}

#[test]
fn hash_differs_with_side_to_move() {
    assert_ne!(hash_of("4k3/8/8/4p3/8/5N2/8/4K3 w - - 0 1"), hash_of("4k3/8/8/4p3/8/5N2/8/4K3 b - - 0 1"));
}
