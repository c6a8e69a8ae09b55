use vstd::prelude::*;
use crate::bitboard_helpers::flip_color;
use crate::moving::mv::Move;
use crate::position::board::Board;

verus! {

/// Reads what an exchange evaluation of `mv` for `color` starts from (the
/// pieces of both sides and the target square); it computes nothing from
/// them and changes nothing.
pub fn see(board: &Board, color: usize, mv: &Move)
    requires
        color < 2,
{
    let _moving = board.get_pieces(color);
    let _staying = board.get_pieces(flip_color(color));
    let _target = mv.get_target_field();
}

} // verus!
