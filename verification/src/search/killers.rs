use vstd::prelude::*;
use crate::moving::mv::Move;

verus! {

/// Number of plies the killer table keeps moves for.
pub const MAX_PLY: usize = 100;

/// Two killer moves for each ply: quiet moves that caused a cut-off there.
pub struct KillerTable {
    first: Vec<Move>,
    second: Vec<Move>,
}

/// The row an update at `ply` writes: `ply` itself, the last row for larger
/// plies, and the last row too for a negative ply (which reads as a huge index).
pub open spec fn killer_row(ply: i32) -> int {
    if 0 <= ply < 100 { ply as int } else { 99 }
}

impl KillerTable {
    /// Both slots hold `MAX_PLY` rows.
    pub closed spec fn wf(&self) -> bool {
        self.first@.len() == 100 && self.second@.len() == 100
    }

    /// The first killer of each row.
    pub closed spec fn firsts(&self) -> Seq<u16> {
        self.first@.map_values(|m: Move| m@)
    }

    /// The second killer of each row.
    pub closed spec fn seconds(&self) -> Seq<u16> {
        self.second@.map_values(|m: Move| m@)
    }

    /// A well-formed table holds both killers of each of its rows.
    pub proof fn lemma_rows_len(&self)
        requires
            self.wf(),
        ensures
            self.firsts().len() == 100,
            self.seconds().len() == 100,
    {
    }

    /// A table with the null move in every slot.
    pub fn new() -> (r: Self)
        ensures
            r.wf(),
            forall|i: int| 0 <= i < 100 ==> #[trigger] r.firsts()[i] == 0 && r.seconds()[i] == 0,
    {
        let size: usize = MAX_PLY;
        let first: Vec<Move> = vec![Move::null(); size];
        let second: Vec<Move> = vec![Move::null(); size];
        let r = KillerTable { first, second };
        assert forall|i: int| 0 <= i < 100 implies #[trigger] r.firsts()[i] == 0 && r.seconds()[i] == 0 by {
            assert(r.first@[i]@ == 0);
            assert(r.second@[i]@ == 0);
        }
        r
    }

    /// Records `mv` as the first killer of the row of `ply`; the second slot
    /// takes the old first one when that was the null move.
    pub fn update(&mut self, ply: i32, mv: Move)
        requires
            old(self).wf(),
        ensures
            final(self).wf(),
            final(self).firsts() == old(self).firsts().update(killer_row(ply), mv@),
            final(self).seconds() == (if old(self).firsts()[killer_row(ply)] == 0 {
                old(self).seconds().update(killer_row(ply), 0)
            } else {
                old(self).seconds()
            }),
    {
        let row: usize = if ply < 0 || ply >= 100 { 99 } else { ply as usize };
        let current = self.first[row];
        if current.is_null() {
            self.second.set(row, current);
        }
        self.first.set(row, mv);
        proof {
            assert(self.firsts() =~= old(self).firsts().update(killer_row(ply), mv@));
            if old(self).firsts()[killer_row(ply)] == 0 {
                assert(self.seconds() =~= old(self).seconds().update(killer_row(ply), 0));
            } else {
                assert(self.seconds() =~= old(self).seconds());
            }
        }
    }

    /// Whether `mv` is a killer of `ply` (never for a ply outside the table).
    pub fn is_killer(&self, ply: i32, mv: &Move) -> (r: bool)
        requires
            self.wf(),
        ensures
            r == (0 <= ply < 100 && (self.firsts()[ply as int] == mv@ || self.seconds()[ply as int] == mv@)),
    {
        if ply < 0 || ply >= 100 {
            return false;
        }
        let row = ply as usize;
        proof {
            crate::moving::mv::lemma_move_eq(self.first@[row as int], *mv);
            crate::moving::mv::lemma_move_eq(self.second@[row as int], *mv);
        }
        self.first[row] == *mv || self.second[row] == *mv
    }
}

/// A move recorded for a ply is a killer of that ply until the next update
/// of the same row.
pub proof fn law_killer_after_update(firsts: Seq<u16>, ply: i32, mv: u16)
    requires
        firsts.len() == 100,
        0 <= ply < 100,
    ensures
        firsts.update(killer_row(ply), mv)[ply as int] == mv,
{
}

} // verus!
