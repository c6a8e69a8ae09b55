pub mod board_state;
pub mod piece_set;
pub mod zobrist_hashing;
pub mod board;
