//! The transposition table: one entry per slot, slot `key % capacity`, each store
//! replacing what the slot held.
use vstd::prelude::*;
use crate::movelist::Move;

verus! {

#[derive(Copy, Clone, Debug, PartialEq, Eq, Structural)]
pub enum Flag {
    /// The score is the value of the position to the stored depth.
    Exact,
    /// The search failed high: the value is at least the score.
    LowerBound,
    /// The search failed low: the value is at most the score.
    UpperBound,
}

#[derive(Copy, Clone, Debug)]
pub struct TTEntry {
    pub key: u64,
    pub depth: u8,
    pub score: i32,
    pub flag: Flag,
    pub best_move: Option<Move>,
}

/// Slots of a table made by `new`.
pub const DEFAULT_CAPACITY: u64 = 262144;

#[derive(Clone, Debug)]
pub struct TranspositionTable {
    pub table: Vec<Option<TTEntry>>,
    pub capacity: u64,
}

impl TranspositionTable {
    pub open spec fn wf(&self) -> bool {
        0 < self.capacity <= usize::MAX && self.table@.len() == self.capacity
    }

    pub open spec fn slot(&self, key: u64) -> int {
        (key % self.capacity) as int
    }

    /// What `probe(key)` finds.
    pub open spec fn lookup(&self, key: u64) -> Option<TTEntry> {
        match self.table@[self.slot(key)] {
            Some(e) => if e.key == key {
                Some(e)
            } else {
                None
            },
            None => None,
        }
    }

    /// An empty table of `DEFAULT_CAPACITY` slots.
    pub fn new() -> (r: Self)
        ensures
            r.wf(),
            r.capacity == DEFAULT_CAPACITY,
            forall|i: int| 0 <= i < r.table@.len() ==> r.table@[i] is None,
    {
        Self::with_capacity(DEFAULT_CAPACITY)
    }

    /// An empty table of `capacity` slots.
    pub fn with_capacity(capacity: u64) -> (r: Self)
        requires
            0 < capacity <= usize::MAX,
        ensures
            r.wf(),
            r.capacity == capacity,
            forall|i: int| 0 <= i < r.table@.len() ==> r.table@[i] is None,
    {
        let table: Vec<Option<TTEntry>> = vec![None; capacity as usize];
        TranspositionTable { table, capacity }
    }

    /// Stores an entry in the slot of `key`, replacing what it held.
    pub fn store(&mut self, key: u64, depth: u8, score: i32, flag: Flag, best_move: Option<Move>)
        requires
            old(self).wf(),
        ensures
            final(self).wf(),
            final(self).capacity == old(self).capacity,
            final(self).table@ == old(self).table@.update(
                old(self).slot(key),
                Some(TTEntry { key, depth, score, flag, best_move }),
            ),
    {
        let entry = TTEntry { key, depth, score, flag, best_move };
        proof {
            assert(key % self.capacity < self.capacity);
        }
        let i = (key % self.capacity) as usize;
        self.table.set(i, Some(entry));
    }

    /// The entry stored for `key`, when its slot holds one with that very key.
    pub fn probe(&self, key: u64) -> (r: Option<TTEntry>)
        requires
            self.wf(),
        ensures
            r == self.lookup(key),
    {
        proof {
            assert(key % self.capacity < self.capacity);
        }
        let i = (key % self.capacity) as usize;
        match self.table[i] {
            Some(e) => if e.key == key {
                Some(e)
            } else {
                None
            },
            None => None,
        }
    }

    /// Empties every slot.
    pub fn clear(&mut self)
        requires
            old(self).wf(),
        ensures
            final(self).wf(),
            final(self).capacity == old(self).capacity,
            forall|i: int| 0 <= i < final(self).table@.len() ==> final(self).table@[i] is None,
    {
        let n = self.table.len();
        let mut i: usize = 0;
        while i < n
            invariant
                self.wf(),
                n == self.table@.len(),
                self.capacity == old(self).capacity,
                i <= n,
                forall|k: int| 0 <= k < i ==> self.table@[k] is None,
            decreases n - i,
        {
            self.table.set(i, None);
            i = i + 1;
        }
    }
}

} // verus!
