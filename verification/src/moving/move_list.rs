use vstd::prelude::*;
use crate::moving::mv::Move;

verus! {

/// Room for the largest number of legal moves a chess position can have.
pub const MAX_MOVES: usize = 218;

/// A list of moves (a legal position has at most `MAX_MOVES` of them).
pub struct MoveList {
    moves: Vec<Move>,
}

impl View for MoveList {
    type V = Seq<u16>;

    /// The packed values of the moves, first to last.
    closed spec fn view(&self) -> Seq<u16> {
        self.moves@.map_values(|m: Move| m@)
    }
}

impl Default for MoveList {
    fn default() -> (r: Self)
        ensures
            r@ == Seq::<u16>::empty(),
    {
        MoveList { moves: Vec::new() }
    }
}

impl MoveList {
    pub fn new() -> (r: Self)
        ensures
            r@ == Seq::<u16>::empty(),
    {
        Self::default()
    }

    /// The moves of the list.
    pub fn moves(&self) -> (r: &[Move])
        ensures
            r@.map_values(|m: Move| m@) == self@,
    {
        self.moves.as_slice()
    }

    /// Appends a move.
    pub fn push_move(&mut self, mv: Move)
        ensures
            final(self)@ == old(self)@.push(mv@),
    {
        self.moves.push(mv);
        proof {
            assert(self@ =~= old(self)@.push(mv@));
        }
    }

    /// Empties the list.
    pub fn reset(&mut self)
        ensures
            final(self)@ == Seq::<u16>::empty(),
    {
        self.moves.clear();
        proof {
            assert(self@ =~= Seq::<u16>::empty());
        }
    }

    /// Removes move `i`; the last move takes its place.
    pub fn remove(&mut self, i: usize)
        requires
            i < old(self)@.len(),
        ensures
            final(self)@ == old(self)@.update(i as int, old(self)@.last()).drop_last(),
    {
        let ghost o = self.moves@;
        let _ = self.moves.swap_remove(i);
        proof {
            assert(self.moves@ =~= o.update(i as int, o.last()).drop_last());
            assert(self@ =~= old(self)@.update(i as int, old(self)@.last()).drop_last());
        }
    }

    pub fn get_count(&self) -> (r: usize)
        ensures
            r == self@.len(),
    {
        self.moves.len()
    }

    pub fn get_move(&self, i: usize) -> (r: &Move)
        requires
            i < self@.len(),
        ensures
            r@ == self@[i as int],
    {
        &self.moves[i]
    }

    /// The moves of the list, first to last.
    pub fn iter(&self) -> (r: &[Move])
        ensures
            r@.map_values(|m: Move| m@) == self@,
    {
        self.moves.as_slice()
    }
}

} // verus!
