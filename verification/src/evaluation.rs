pub mod phase;
pub mod piece_values;
pub mod preliminary;
pub mod greed;
pub mod mobility;
pub mod king_safety;
pub mod pawn_structure;
pub mod evaluator;
