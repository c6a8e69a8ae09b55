pub mod transposition;
pub mod history;
pub mod killers;
pub mod pv_table;
pub mod see;
pub mod move_ordering;
pub mod alpha_beta;
pub mod quiescence;
pub mod negamax;
