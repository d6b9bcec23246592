//! The random key table behind the incremental board hash.
//!
//! One `u64` key per (cell, tile-code) pair, for boards of up to 35 by 35
//! cells and the twelve tile codes.  A table is built once per match and
//! only read afterwards.
use vstd::prelude::*;

verus! {

/// Number of keys: twelve tile codes for each of the 35 * 35 cells.
pub const ZOBRIST_LEN: usize = 12 * 35 * 35;

/// One step of the xorshift generator that seeds deterministic tables.
pub open spec fn scramble(x: u64) -> u64 {
    let a = x ^ (x << 13u64);
    let b = a ^ (a >> 7u64);
    b ^ (b << 17u64)
}

/// The xorshift state after `n` steps from `seed`.
pub open spec fn scramble_iter(seed: u64, n: nat) -> u64
    decreases n,
{
    if n == 0 {
        seed
    } else {
        scramble(scramble_iter(seed, (n - 1) as nat))
    }
}

/// The nonzero state a deterministic table starts from.
pub open spec fn seed_state(seed: u64) -> u64 {
    if seed == 0 {
        0x9E3779B97F4A7C15u64
    } else {
        seed
    }
}

/// The key table.
pub struct ZobristTable {
    pub keys: Vec<u64>,
}

/// Relies on rand::random: draws one value from the thread-local generator.
#[verifier::external_body]
fn random_u64() -> u64 {
    rand::random::<u64>()
}

impl ZobristTable {
    /// A table of the full key count.
    pub open spec fn wf(self) -> bool {
        self.keys@.len() == ZOBRIST_LEN
    }

    /// A reproducible table: key `i` is the xorshift state after `i + 1`
    /// steps from the (nonzero-adjusted) seed.
    pub fn from_seed(seed: u64) -> (r: ZobristTable)
        ensures
            r.wf(),
            forall|i: int|
                0 <= i < ZOBRIST_LEN ==> r.keys@[i] == scramble_iter(
                    seed_state(seed),
                    (i + 1) as nat,
                ),
    {
        let mut keys: Vec<u64> = Vec::new();
        let mut state: u64 = if seed == 0 {
            0x9E3779B97F4A7C15
        } else {
            seed
        };
        let mut i: usize = 0;
        while i < ZOBRIST_LEN
            invariant
                i == keys@.len(),
                i <= ZOBRIST_LEN,
                state == scramble_iter(seed_state(seed), i as nat),
                forall|j: int|
                    0 <= j < i ==> keys@[j] == scramble_iter(seed_state(seed), (j + 1) as nat),
            decreases ZOBRIST_LEN - i,
        {
            let a = state ^ (state << 13u64);
            let b = a ^ (a >> 7u64);
            state = b ^ (b << 17u64);
            keys.push(state);
            i = i + 1;
        }
        ZobristTable { keys }
    }

    /// A table drawn from the process random generator.
    pub fn fresh() -> (r: ZobristTable)
        ensures
            r.wf(),
    {
        let mut keys: Vec<u64> = Vec::new();
        let mut i: usize = 0;
        while i < ZOBRIST_LEN
            invariant
                i == keys@.len(),
                i <= ZOBRIST_LEN,
            decreases ZOBRIST_LEN - i,
        {
            keys.push(random_u64());
            i = i + 1;
        }
        ZobristTable { keys }
    }
}

impl Default for ZobristTable {
    /// A freshly seeded table, as a process builds at startup.
    fn default() -> (r: ZobristTable)
        ensures
            r.wf(),
    {
        ZobristTable::fresh()
    }
}

} // verus!
