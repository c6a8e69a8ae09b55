pub mod constants;
pub mod bitboard_helpers;
pub mod bits;
pub mod position;
pub mod text;
pub mod moving;
pub mod fen_parsing;
pub mod evaluation;
pub mod search;

pub mod uci;
pub mod perft;
