//! The two-bucket transposition table: a depth-preferred slot and an
//! always-replace slot per index.
use vstd::prelude::*;
use crate::mv::Move;

verus! {

/// One stored search result: the best move found, the position's hash,
/// the value bounds proved for it, the search depth key and the age
/// (both derived from the turn counter).
#[derive(Clone, Copy, Debug)]
pub struct Entry {
    pub mv: Move,
    pub hash: u64,
    pub lower: i32,
    pub upper: i32,
    pub depth: u16,
    pub age: u16,
}

impl Default for Entry {
    /// The empty slot: hash zero, trivial bounds.
    fn default() -> (r: Entry)
        ensures
            r.hash == 0,
            r.lower == 0,
            r.upper == 0,
            r.depth == 0,
            r.age == 0,
            r.mv.player == 0,
    {
        Entry {
            mv: Move::default(),
            hash: 0,
            lower: 0,
            upper: 0,
            depth: 0,
            age: 0,
        }
    }
}

/// Does the incoming entry push the resident one out of the
/// depth-preferred bucket?  Deeper searches win; so do entries from a
/// position fifteen or more turns fresher.
pub open spec fn prefers(resident: Entry, e: Entry) -> bool {
    resident.depth <= e.depth || resident.age + 15 < e.age
}

/// Two parallel buckets of `num_entries` slots each, indexed by
/// `hash % num_entries`.
pub struct Table {
    pub num_entries: u64,
    pub always: Vec<Entry>,
    pub depthpref: Vec<Entry>,
}

impl Table {
    /// Consistent bucket sizes.
    pub open spec fn wf(self) -> bool {
        &&& self.num_entries >= 1
        &&& self.num_entries <= usize::MAX
        &&& self.always@.len() == self.num_entries
        &&& self.depthpref@.len() == self.num_entries
    }

    /// A table of `num_entries` total slots, split evenly between the two
    /// buckets, all empty.
    pub fn new(num_entries: u64) -> (r: Table)
        requires
            num_entries % 2 == 0,
            num_entries >= 2,
            num_entries / 2 <= usize::MAX,
        ensures
            r.wf(),
            r.num_entries == num_entries / 2,
            forall|i: int|
                0 <= i < r.num_entries ==> {
                    let a = #[trigger] r.always@[i];
                    a.hash == 0 && a.depth == 0 && a.age == 0 && a.lower == 0 && a.upper == 0
                },
            forall|i: int|
                0 <= i < r.num_entries ==> {
                    let d = #[trigger] r.depthpref@[i];
                    d.hash == 0 && d.depth == 0 && d.age == 0 && d.lower == 0 && d.upper == 0
                },
    {
        let half = num_entries / 2;
        let n = half as usize;
        let mut always: Vec<Entry> = Vec::new();
        let mut depthpref: Vec<Entry> = Vec::new();
        let mut i: usize = 0;
        while i < n
            invariant
                i <= n,
                always@.len() == i,
                depthpref@.len() == i,
                forall|j: int|
                    0 <= j < i ==> {
                        let a = #[trigger] always@[j];
                        a.hash == 0 && a.depth == 0 && a.age == 0 && a.lower == 0 && a.upper == 0
                    },
                forall|j: int|
                    0 <= j < i ==> {
                        let d = #[trigger] depthpref@[j];
                        d.hash == 0 && d.depth == 0 && d.age == 0 && d.lower == 0 && d.upper == 0
                    },
            decreases n - i,
        {
            always.push(Entry::default());
            depthpref.push(Entry::default());
            i = i + 1;
        }
        Table { num_entries: half, always, depthpref }
    }

    /// Looks the position up: the depth-preferred slot first, then the
    /// always-replace slot; an entry answers only when its stored hash
    /// matches in full.
    pub fn probe(&self, hash: u64) -> (r: Option<Entry>)
        requires
            self.wf(),
        ensures
            ({
                let idx = (hash % self.num_entries) as int;
                if self.depthpref@[idx].hash == hash {
                    r == Some(self.depthpref@[idx])
                } else if self.always@[idx].hash == hash {
                    r == Some(self.always@[idx])
                } else {
                    r is None
                }
            }),
    {
        let idx = (hash % self.num_entries) as usize;
        if self.depthpref[idx].hash == hash {
            return Some(self.depthpref[idx]);
        }
        if self.always[idx].hash == hash {
            return Some(self.always[idx]);
        }
        None
    }

    /// Stores an entry at its slot: into the depth-preferred bucket when
    /// it searched at least as deep as the resident (or the resident has
    /// aged out), else unconditionally into the always-replace bucket.
    pub fn store(&mut self, e: Entry)
        requires
            old(self).wf(),
        ensures
            final(self).wf(),
            final(self).num_entries == old(self).num_entries,
            ({
                let idx = (e.hash % old(self).num_entries) as int;
                if prefers(old(self).depthpref@[idx], e) {
                    final(self).depthpref@ == old(self).depthpref@.update(idx, e)
                        && final(self).always == old(self).always
                } else {
                    final(self).always@ == old(self).always@.update(idx, e)
                        && final(self).depthpref == old(self).depthpref
                }
            }),
    {
        let idx = (e.hash % self.num_entries) as usize;
        let rd = self.depthpref[idx].depth;
        let ra = self.depthpref[idx].age;
        if rd <= e.depth || (ra as u32) + 15 < (e.age as u32) {
            self.depthpref[idx] = e;
        } else {
            self.always[idx] = e;
        }
    }
}

} // verus!
