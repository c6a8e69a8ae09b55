pub mod fen_parsing;
pub mod parse_to_fen;
pub mod round_trip;
