//! A twenty-slot recency table for move-ordering history.
//!
//! Keys are plain 64-bit words; callers pack a position and a direction
//! (and, for opponent history, the player) into one.  `query` answers how
//! long ago a key was touched (255 when absent), `insert` touches a key,
//! evicting the least recently used slot when the key is new.
use vstd::prelude::*;

verus! {

/// Slot count of the table.
pub const LRU_SLOTS: usize = 20;

/// The index of the first slot holding `e`, or -1.
pub open spec fn find_key(keys: Seq<u64>, e: u64, i: int) -> int
    decreases keys.len() - i,
{
    if i < 0 || i >= keys.len() {
        -1
    } else if keys[i] == e {
        i
    } else {
        find_key(keys, e, i + 1)
    }
}

/// The index of the first slot with the smallest counter among
/// `lrus[i..]`, with `bi` the best index so far.
pub open spec fn argmin_from(lrus: Seq<u32>, i: int, bi: int) -> int
    decreases lrus.len() - i,
{
    if i < 0 || i >= lrus.len() {
        bi
    } else if lrus[i] < lrus[bi] {
        argmin_from(lrus, i + 1, i)
    } else {
        argmin_from(lrus, i + 1, bi)
    }
}

/// The recency table: parallel key and counter arrays and a monotonic
/// clock.
pub struct LRU {
    pub cur: u32,
    pub keys: Vec<u64>,
    pub lrus: Vec<u32>,
}

impl LRU {
    /// Twenty slots, counters strictly below the clock.
    pub open spec fn wf(self) -> bool {
        &&& self.keys@.len() == LRU_SLOTS
        &&& self.lrus@.len() == LRU_SLOTS
        &&& self.cur >= 1
        &&& forall|i: int| 0 <= i < LRU_SLOTS ==> #[trigger] self.lrus@[i] < self.cur
    }

    /// A fresh table: every slot holds the default entry, untouched.
    pub fn new(default_entry: u64) -> (r: LRU)
        ensures
            r.wf(),
            r.cur == 1,
            forall|i: int| 0 <= i < LRU_SLOTS ==> #[trigger] r.keys@[i] == default_entry,
            forall|i: int| 0 <= i < LRU_SLOTS ==> #[trigger] r.lrus@[i] == 0,
    {
        let mut keys: Vec<u64> = Vec::new();
        let mut lrus: Vec<u32> = Vec::new();
        let mut i: usize = 0;
        while i < LRU_SLOTS
            invariant
                i <= LRU_SLOTS,
                keys@.len() == i,
                lrus@.len() == i,
                forall|j: int| 0 <= j < i ==> #[trigger] keys@[j] == default_entry,
                forall|j: int| 0 <= j < i ==> #[trigger] lrus@[j] == 0,
            decreases LRU_SLOTS - i,
        {
            keys.push(default_entry);
            lrus.push(0);
            i = i + 1;
        }
        LRU { cur: 1, keys, lrus }
    }

    /// How long ago `entry` was last touched — the clock minus its
    /// counter — or 255 when it is not in the table.  A hit touches the
    /// entry and advances the clock.
    pub fn query(&mut self, entry: u64) -> (r: u32)
        requires
            old(self).wf(),
            old(self).cur < u32::MAX,
        ensures
            final(self).wf(),
            final(self).keys == old(self).keys,
            ({
                let f = find_key(old(self).keys@, entry, 0);
                if f == -1 {
                    r == 255 && final(self).lrus == old(self).lrus && final(self).cur == old(
                        self,
                    ).cur
                } else {
                    r == old(self).cur - old(self).lrus@[f] && final(self).lrus@ == old(
                        self,
                    ).lrus@.update(f, old(self).cur) && final(self).cur == old(self).cur + 1
                }
            }),
    {
        let mut i: usize = 0;
        while i < LRU_SLOTS
            invariant
                i <= LRU_SLOTS,
                *self == *old(self),
                self.wf(),
                self.cur < u32::MAX,
                find_key(self.keys@, entry, 0) == find_key(self.keys@, entry, i as int),
            decreases LRU_SLOTS - i,
        {
            if self.keys[i] == entry {
                let result = self.cur - self.lrus[i];
                self.lrus[i] = self.cur;
                self.cur = self.cur + 1;
                return result;
            }
            i = i + 1;
        }
        255
    }

    /// Touches `entry`: refreshes its counter when present, else replaces
    /// the least recently used slot (the first one with the smallest
    /// counter) and stamps it with the clock.
    pub fn insert(&mut self, entry: u64)
        requires
            old(self).wf(),
            old(self).cur < u32::MAX,
        ensures
            final(self).wf(),
            final(self).cur == old(self).cur + 1,
            ({
                let f = find_key(old(self).keys@, entry, 0);
                if f != -1 {
                    final(self).keys == old(self).keys && final(self).lrus@ == old(
                        self,
                    ).lrus@.update(f, old(self).cur)
                } else {
                    let v = argmin_from(old(self).lrus@, 1, 0);
                    final(self).keys@ == old(self).keys@.update(v, entry) && final(self).lrus@
                        == old(self).lrus@.update(v, old(self).cur)
                }
            }),
    {
        let mut i: usize = 0;
        while i < LRU_SLOTS
            invariant
                i <= LRU_SLOTS,
                *self == *old(self),
                self.wf(),
                self.cur < u32::MAX,
                find_key(self.keys@, entry, 0) == find_key(self.keys@, entry, i as int),
            decreases LRU_SLOTS - i,
        {
            if self.keys[i] == entry {
                self.lrus[i] = self.cur;
                self.cur = self.cur + 1;
                return ;
            }
            i = i + 1;
        }
        let mut min_idx: usize = 0;
        let mut j: usize = 1;
        while j < LRU_SLOTS
            invariant
                1 <= j <= LRU_SLOTS,
                min_idx < LRU_SLOTS,
                *self == *old(self),
                self.wf(),
                argmin_from(self.lrus@, 1, 0) == argmin_from(self.lrus@, j as int, min_idx as int),
            decreases LRU_SLOTS - j,
        {
            if self.lrus[j] < self.lrus[min_idx] {
                min_idx = j;
            }
            j = j + 1;
        }
        self.keys[min_idx] = entry;
        self.lrus[min_idx] = self.cur;
        self.cur = self.cur + 1;
    }
}

} // verus!
