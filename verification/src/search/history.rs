use vstd::prelude::*;
use crate::moving::mv::Move;

verus! {

/// `x` wrapped into the range of an `i32`, as a release build adds.
pub open spec fn wrapped_i32(x: int) -> i32 {
    if x > i32::MAX {
        (x - 0x1_0000_0000) as i32
    } else if x < i32::MIN {
        (x + 0x1_0000_0000) as i32
    } else {
        x as i32
    }
}

/// Scores of quiet moves that caused cut-offs, indexed by the packed move.
pub struct HistoryTable {
    table: Vec<i32>,
}

impl HistoryTable {
    /// One score for each of the 2^16 packed moves.
    pub closed spec fn wf(&self) -> bool {
        self.table@.len() == 0x10000
    }

    /// The scores, by packed move.
    pub closed spec fn scores(&self) -> Seq<i32> {
        self.table@
    }

    /// A well-formed table holds one score for each packed move.
    pub proof fn lemma_scores_len(&self)
        requires
            self.wf(),
        ensures
            self.scores().len() == 0x10000,
    {
    }

    /// A table with every score zero.
    pub fn new() -> (r: Self)
        ensures
            r.wf(),
            forall|i: int| 0 <= i < 0x10000 ==> #[trigger] r.scores()[i] == 0,
    {
        let size: usize = 0x10000;
        HistoryTable { table: vec![0i32; size] }
    }

    /// The score of `mv`.
    pub fn get_val(&self, mv: &Move) -> (r: i32)
        requires
            self.wf(),
        ensures
            r == self.scores()[mv@ as int],
    {
        let index = mv.get_value() as usize;
        self.table[index]
    }

    /// Raises the score of `mv` by `depth_left² + 1` (wrapping around as a
    /// release build does when the score outgrows an `i32`).
    pub fn add(&mut self, mv: &Move, depth_left: i32)
        requires
            old(self).wf(),
            depth_left * depth_left + 1 <= i32::MAX,
        ensures
            final(self).wf(),
            final(self).scores() == old(self).scores().update(mv@ as int,
                wrapped_i32(old(self).scores()[mv@ as int] + depth_left * depth_left + 1)),
    {
        let index = mv.get_value() as usize;
        let old_val = self.table[index];
        assert(0 <= depth_left * depth_left) by (nonlinear_arith);
        let inc = depth_left * depth_left + 1;
        self.table.set(index, old_val.wrapping_add(inc));
    }
}

} // verus!
