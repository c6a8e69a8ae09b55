pub mod mv;
pub mod move_list;
pub mod magics;
pub mod lookups;
pub mod move_generation;
pub mod attacks;
pub mod legality;
pub mod generation;
pub mod move_making;
pub mod null_move;
pub mod soundness;
pub mod hash_law;
