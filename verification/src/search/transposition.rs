use vstd::prelude::*;
use crate::moving::mv::Move;

verus! {

/// Number of index bits of the transposition table.
pub const K: usize = 23;
/// A stored entry gives way to any entry this many searches younger.
pub const GEN_DIFF: i32 = 5;

/// How a stored score bounds the true value: exactly, from below (a fail
/// high) or from above (a fail low).
#[derive(Clone, Copy, PartialEq, Eq, Structural, Debug)]
pub enum TTEntryType {
    Exact,
    Lower,
    Upper,
}

impl Default for TTEntryType {
    fn default() -> (r: Self)
        ensures
            r == TTEntryType::Exact,
    {
        TTEntryType::Exact
    }
}

/// A search result kept for a position: its full hash, the depth searched
/// below it, the score and its bound, the search that stored it and the best
/// move found.
#[derive(Clone, Copy)]
pub struct Entry {
    pub key: u64,
    pub depth_left: i32,
    pub score: i32,
    pub generation: i32,
    pub entry_type: TTEntryType,
    pub best_move: Move,
}

impl Default for Entry {
    fn default() -> (r: Self)
        ensures
            r.key == 0 && r.depth_left == 0 && r.score == 0 && r.generation == 0,
            r.entry_type == TTEntryType::Exact,
            r.best_move@ == 0,
    {
        Entry {
            key: 0,
            depth_left: 0,
            score: 0,
            generation: 0,
            entry_type: TTEntryType::Exact,
            best_move: Move::null(),
        }
    }
}

/// A direct-mapped table of search results, indexed by the low `K` bits of
/// the position hash.
pub struct TTable {
    mask: u64,
    table: Vec<Option<Entry>>,
}

/// The slot of a hash: its low `K` bits.
pub open spec fn tt_slot(key: u64) -> int {
    (key % 0x800000) as int
}

/// Whether `new` takes the place of what a slot holds: an empty slot, an
/// entry searched no deeper, or one at least `GEN_DIFF` searches older.
pub open spec fn replaces(old: Option<Entry>, new: Entry) -> bool {
    match old {
        None => true,
        Some(e) => e.depth_left <= new.depth_left || new.generation - e.generation >= GEN_DIFF,
    }
}

/// The slots after `new` is offered to them.
pub open spec fn stored(slots: Seq<Option<Entry>>, new: Entry) -> Seq<Option<Entry>> {
    let i = tt_slot(new.key);
    if replaces(slots[i], new) {
        slots.update(i, Some(new))
    } else {
        slots
    }
}

/// What a probe for `key` finds: the entry of its slot when it carries the same key.
pub open spec fn probed(slots: Seq<Option<Entry>>, key: u64) -> Option<Entry> {
    let e = slots[tt_slot(key)];
    if e is Some && e->0.key == key {
        e
    } else {
        None
    }
}

proof fn lemma_slot(key: u64)
    ensures
        key & 0x7fffff == key % 0x800000,
        (key & 0x7fffff) < 0x800000,
{
    assert(key & 0x7fffff == key % 0x800000) by (bit_vector);
    assert((key & 0x7fffff) < 0x800000) by (bit_vector);
}

impl TTable {
    /// The table has 2^K slots and masks hashes to their low K bits.
    pub closed spec fn wf(&self) -> bool {
        self.table@.len() == 0x800000 && self.mask == 0x7fffff
    }

    /// The contents of the slots.
    pub closed spec fn slots(&self) -> Seq<Option<Entry>> {
        self.table@
    }

    /// A table in order has 2^K slots.
    pub proof fn lemma_slots_len(&self)
        requires
            self.wf(),
        ensures
            self.slots().len() == 0x800000,
    {
    }

    /// An empty table.
    pub fn new() -> (r: Self)
        ensures
            r.wf(),
            forall|i: int| 0 <= i < 0x800000 ==> (#[trigger] r.slots()[i]) is None,
    {
        let entries: usize = 1usize << 23usize;
        assert(entries == 0x800000) by (bit_vector)
            requires
                entries == 1usize << 23usize,
        ;
        let table: Vec<Option<Entry>> = vec![None; entries];
        TTable { mask: 0x7fffff, table }
    }

    /// The entry kept for the position with hash `key`, if its slot holds that hash.
    pub fn probe(&self, key: u64) -> (r: Option<Entry>)
        requires
            self.wf(),
        ensures
            r == probed(self.slots(), key),
    {
        proof {
            lemma_slot(key);
        }
        let index = key & self.mask;
        match self.table[index as usize] {
            Some(e) => {
                if e.key == key {
                    Some(e)
                } else {
                    None
                }
            },
            None => None,
        }
    }

    /// Offers `new` to its slot; it is kept when it `replaces` what is there.
    pub fn store(&mut self, new: Entry)
        requires
            old(self).wf(),
        ensures
            final(self).wf(),
            final(self).slots() == stored(old(self).slots(), new),
    {
        proof {
            lemma_slot(new.key);
        }
        let index = (new.key & self.mask) as usize;
        let take = match self.table[index] {
            None => true,
            Some(e) => e.depth_left <= new.depth_left || (new.generation as i64) - (e.generation as i64)
                >= GEN_DIFF as i64,
        };
        if take {
            self.table.set(index, Some(new));
        }
    }
}

/// A stored entry is found again: right after an entry is kept, a probe for
/// its hash gives it back; an entry that is not kept leaves the table as it was.
pub proof fn law_probe_after_store(slots: Seq<Option<Entry>>, new: Entry)
    requires
        slots.len() == 0x800000,
    ensures
        replaces(slots[tt_slot(new.key)], new) ==> probed(stored(slots, new), new.key) == Some(new),
        !replaces(slots[tt_slot(new.key)], new) ==> stored(slots, new) == slots,
{
}

/// A store touches one slot: a probe for a hash of another slot finds what it
/// found before.
pub proof fn law_store_keeps_other_slots(slots: Seq<Option<Entry>>, new: Entry, key: u64)
    requires
        slots.len() == 0x800000,
        tt_slot(key) != tt_slot(new.key),
    ensures
        probed(stored(slots, new), key) == probed(slots, key),
{
}

} // verus!
