use barbel::constants::{BLACK, WHITE};
use barbel::fen_parsing::fen_parsing::parse_fen;

#[test]
fn should_correctly_parse_starting_fen() {
    let fen = "rnbqkbnr/pppppppp/8/8/8/8/PPPPPPPP/RNBQKBNR w KQkq - 0 1";
    let board = parse_fen(fen).unwrap();
    let white_pieces = &board.players[WHITE];
    assert_eq!(white_pieces.get_pawns(), 0xff00, "white pawns");
    assert_eq!(white_pieces.get_knights(), 0x42, "white knights");
    assert_eq!(white_pieces.get_diagonals(), 0x2c, "white diagonals");
    assert_eq!(white_pieces.get_orthogonals(), 0x89, "white orthogonals");
    assert_eq!(white_pieces.get_queens(), 0x8, "white queens");
    assert_eq!(white_pieces.get_king(), 0x10, "white king");

    let black_pieces = &board.players[BLACK];
    assert_eq!(black_pieces.get_pawns(), 0xff000000000000, "black pawns");
    assert_eq!(
        black_pieces.get_knights(),
        0x4200000000000000,
        "black knights"
    );
    assert_eq!(
        black_pieces.get_diagonals(),
        0x2c00000000000000,
        "black diagonals"
    );
    assert_eq!(
        black_pieces.get_orthogonals(),
        0x8900000000000000,
        "black orthogonals"
    );
    assert_eq!(black_pieces.get_queens(), 0x800000000000000, "black queens");
    assert_eq!(black_pieces.get_king(), 0x1000000000000000, "black king");

    let state = board.get_state();
    assert_eq!(board.us, WHITE, "side to move");
    assert_eq!(state.get_castling_rights(), 0xf, "castling rights");
    assert_eq!(state.get_en_passant_file(), 0, "en passant");
    assert_eq!(state.get_halfmove_clock(), 0, "halfmove clock");
    assert_eq!(state.get_move_clock(), 1, "move clock");
}

#[test]
fn should_correctly_parse_fen_after_e4() {
    let fen = "rnbqkbnr/pppppppp/8/8/4P3/8/PPPP1PPP/RNBQKBNR b KQkq e3 0 1";
    let board = parse_fen(fen).unwrap();
    let white_pieces = &board.players[WHITE];
    assert_eq!(white_pieces.get_pawns(), 0x1000ef00, "white pawns");
    assert_eq!(white_pieces.get_knights(), 0x42, "white knights");
    assert_eq!(white_pieces.get_diagonals(), 0x2c, "white diagonals");
    assert_eq!(white_pieces.get_orthogonals(), 0x89, "white orthogonals");
    assert_eq!(white_pieces.get_queens(), 0x8, "white queens");
    assert_eq!(white_pieces.get_king(), 0x10, "white king");

    let black_pieces = &board.players[BLACK];
    assert_eq!(black_pieces.get_pawns(), 0xff000000000000, "black pawns");
    assert_eq!(
        black_pieces.get_knights(),
        0x4200000000000000,
        "black knights"
    );
    assert_eq!(
        black_pieces.get_diagonals(),
        0x2c00000000000000,
        "black diagonals"
    );
    assert_eq!(
        black_pieces.get_orthogonals(),
        0x8900000000000000,
        "black orthogonals"
    );
    assert_eq!(black_pieces.get_queens(), 0x800000000000000, "black queens");
    assert_eq!(black_pieces.get_king(), 0x1000000000000000, "black king");

    let state = board.get_state();
    assert_eq!(board.us, BLACK, "side to move");
    assert_eq!(state.get_castling_rights(), 0xf, "castling rights");
    assert_eq!(state.get_en_passant_file(), 5, "en passant");
    assert_eq!(state.get_halfmove_clock(), 0, "halfmove clock");
    assert_eq!(state.get_move_clock(), 1, "move clock");
}

#[test]
fn should_correctly_parse_fen_in_middlegame() {
    let fen = "r1bq1rk1/ppp2ppp/2n2n2/3pp3/1bPP4/2N1PN2/PP2BPPP/R1BQ1RK1 w - e6 4 9";
    let board = parse_fen(fen).unwrap();
    let white_pieces = &board.players[WHITE];
    assert_eq!(white_pieces.get_pawns(), 0xc10e300, "white pawns");
    assert_eq!(white_pieces.get_knights(), 0x240000, "white knights");
    assert_eq!(white_pieces.get_diagonals(), 0x100c, "white diagonals");
    assert_eq!(white_pieces.get_orthogonals(), 0x29, "white orthogonals");
    assert_eq!(white_pieces.get_queens(), 0x8, "white queens");
    assert_eq!(white_pieces.get_king(), 0x40, "white king");

    let black_pieces = &board.players[BLACK];
    assert_eq!(black_pieces.get_pawns(), 0xe7001800000000, "black pawns");
    assert_eq!(black_pieces.get_knights(), 0x240000000000, "black knights");
    assert_eq!(
        black_pieces.get_diagonals(),
        0xc00000002000000,
        "black diagonals"
    );
    assert_eq!(
        black_pieces.get_orthogonals(),
        0x2900000000000000,
        "black orthogonals"
    );
    assert_eq!(black_pieces.get_queens(), 0x800000000000000, "black queens");
    assert_eq!(black_pieces.get_king(), 0x4000000000000000, "black king");

    let state = board.get_state();

    assert_eq!(board.us, WHITE, "side to move");
    assert_eq!(state.get_castling_rights(), 0, "castling rights");
    assert_eq!(state.get_en_passant_file(), 5, "en passant");
    assert_eq!(state.get_halfmove_clock(), 4, "halfmove clock");
    assert_eq!(state.get_move_clock(), 9, "move clock");
}

#[test]
fn should_correctly_parse_fen_in_middlegame2() {
    let fen = "rnbq1k1r/pp1Pbppp/2p5/8/2B5/8/PPP1NnPP/RNBQK2R w KQ - 1 8";
    let board = parse_fen(fen).unwrap();
    let white_pieces = &board.players[WHITE];
    assert_eq!(white_pieces.get_pawns(), 0x800000000c700, "white pawns");
    assert_eq!(white_pieces.get_knights(), 0x1002, "white knights");
    assert_eq!(white_pieces.get_diagonals(), 0x400000c, "white diagonals");
    assert_eq!(white_pieces.get_orthogonals(), 0x89, "white orthogonals");
    assert_eq!(white_pieces.get_queens(), 0x8, "white queens");
    assert_eq!(white_pieces.get_king(), 0x10, "white king");

    let black_pieces = &board.players[BLACK];
    assert_eq!(black_pieces.get_pawns(), 0xe3040000000000, "black pawns");
    assert_eq!(
        black_pieces.get_knights(),
        0x200000000002000,
        "black knights"
    );
    assert_eq!(
        black_pieces.get_diagonals(),
        0xc10000000000000,
        "black diagonals"
    );
    assert_eq!(
        black_pieces.get_orthogonals(),
        0x8900000000000000,
        "black orthogonals"
    );
    assert_eq!(black_pieces.get_queens(), 0x800000000000000, "black queens");
    assert_eq!(black_pieces.get_king(), 0x2000000000000000, "black king");

    let state = board.get_state();
    assert_eq!(board.us, WHITE, "side to move");
    assert_eq!(state.get_castling_rights(), 0xc, "castling rights");
    assert_eq!(state.get_en_passant_file(), 0, "en passant");
    assert_eq!(state.get_halfmove_clock(), 1, "halfmove clock");
    assert_eq!(state.get_move_clock(), 8, "move clock");
}

#[test]
fn should_err_when_fen_has_too_little_ranks() {
    let fen = "rnbqkbnr/pppppppp/8/8/8/PPPPPPPP/RNBQKBNR w KQkq - 0 1";
    assert!(parse_fen(fen).is_err());
}

#[test]
fn should_err_when_fen_has_too_many_fields_in_a_rank() {
    let fen = "rnbqkbnr/pppppppp/9/8/8/8/PPPPPPPP/RNBQKBNR w KQkq - 0 1";
    assert!(parse_fen(fen).is_err());
}

#[test]
fn should_err_when_fen_has_too_little_fields_in_a_rank() {
    let fen = "rnbqkbnr/ppp1ppp/8/8/8/8/PPPPPPPP/RNBQKBNR w KQkq - 0 1";
    assert!(parse_fen(fen).is_err());
}

#[test]
fn should_throw_when_the_side_to_move_is_invalid() {
    let fen = "rnbqkbnr/pppppppp/8/8/8/8/PPPPPPPP/RNBQKBNR x KQkq - 0 1";
    assert!(parse_fen(fen).is_err());
}
