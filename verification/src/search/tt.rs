//! Lock-free transposition table: each entry is two 64-bit words, the data
//! and the data xor-ed with the position hash, so a torn write reads back as
//! a miss.

use vstd::prelude::*;
use std::sync::atomic::{AtomicU64, AtomicU8, Ordering};

use crate::types::Move;

verus! {

#[derive(Copy, Clone, Debug, PartialEq, Eq, Structural)]
pub enum TTFlag {
    Exact,
    LowerBound,
    UpperBound,
}

#[derive(Copy, Clone, Debug, PartialEq, Eq, Structural)]
pub struct TTData {
    pub depth: i8,
    pub score: i16,
    pub flag: TTFlag,
    pub best_move: Move,
    pub gen: u8,
}

/// The 2-bit code of a bound flag.
pub open spec fn flag_code(f: TTFlag) -> u64 {
    match f {
        TTFlag::Exact => 0,
        TTFlag::LowerBound => 1,
        TTFlag::UpperBound => 2,
    }
}

/// The flag of a 2-bit code (3 reads as exact).
pub open spec fn flag_of_code(c: u64) -> TTFlag {
    if c == 1 {
        TTFlag::LowerBound
    } else if c == 2 {
        TTFlag::UpperBound
    } else {
        TTFlag::Exact
    }
}

/// The packed word of an entry: score in bits 0-15, move 16-31, depth
/// 32-39, flag 40-41, generation 48-55.
pub open spec fn pack_spec(d: TTData) -> u64 {
    ((d.score as u16) as u64) | ((d.best_move.0 as u64) << 16u64) | (((d.depth as u8) as u64) << 32u64)
        | (flag_code(d.flag) << 40u64) | ((d.gen as u64) << 48u64)
}

/// The entry a packed word holds.
pub open spec fn unpack_spec(w: u64) -> TTData {
    TTData {
        depth: ((w >> 32u64) & 0xFF) as i8,
        score: (w & 0xFFFF) as i16,
        flag: flag_of_code((w >> 40u64) & 0x3),
        best_move: Move(((w >> 16u64) & 0xFFFF) as u16),
        gen: ((w >> 48u64) & 0xFF) as u8,
    }
}

impl TTData {
    pub fn pack(&self) -> (w: u64)
        ensures
            w == pack_spec(*self),
    {
        let score = (self.score as u16) as u64;
        let mv = (self.best_move.0) as u64;
        let depth = (self.depth as u8) as u64;
        let flag: u64 = match self.flag {
            TTFlag::Exact => 0,
            TTFlag::LowerBound => 1,
            TTFlag::UpperBound => 2,
        };
        let gen = self.gen as u64;
        score | (mv << 16u64) | (depth << 32u64) | (flag << 40u64) | (gen << 48u64)
    }

    pub fn unpack(data: u64) -> (d: TTData)
        ensures
            d == unpack_spec(data),
    {
        let score = (data & 0xFFFF) as i16;
        let mv = ((data >> 16u64) & 0xFFFF) as u16;
        let depth = ((data >> 32u64) & 0xFF) as i8;
        let code = (data >> 40u64) & 0x3;
        let flag = if code == 1 {
            TTFlag::LowerBound
        } else if code == 2 {
            TTFlag::UpperBound
        } else {
            TTFlag::Exact
        };
        let gen = ((data >> 48u64) & 0xFF) as u8;
        TTData { depth, score, flag, best_move: Move(mv), gen }
    }
}

/// Unpacking a packed entry gives it back.
pub proof fn lemma_pack_unpack(d: TTData)
    ensures
        unpack_spec(pack_spec(d)) == d,
{
    let s = (d.score as u16) as u64;
    let m = d.best_move.0 as u64;
    let dp = (d.depth as u8) as u64;
    let f = flag_code(d.flag);
    let g = d.gen as u64;
    let w = s | (m << 16u64) | (dp << 32u64) | (f << 40u64) | (g << 48u64);
    assert(w & 0xFFFF == s && (w >> 16u64) & 0xFFFF == m && (w >> 32u64) & 0xFF == dp && (w
        >> 40u64) & 0x3 == f && (w >> 48u64) & 0xFF == g) by (bit_vector)
        requires
            s < 0x10000,
            m < 0x10000,
            dp < 0x100,
            f < 3,
            g < 0x100,
            w == s | (m << 16u64) | (dp << 32u64) | (f << 40u64) | (g << 48u64),
    ;
    let sc = d.score;
    let de = d.depth;
    assert(((sc as u16) as u64) as i16 == sc) by (bit_vector);
    assert(((de as u8) as u64) as i8 == de) by (bit_vector);
}

/// What a probe reads from the entry words `word0` and `word1`: the data,
/// if the words xor to `hash`.
pub open spec fn probe_spec(word0: u64, word1: u64, hash: u64) -> Option<TTData> {
    if word0 ^ word1 == hash {
        Some(unpack_spec(word1))
    } else {
        None
    }
}

/// The entry the words `word0`, `word1` hold for `hash`, if any.
pub fn decode_entry(word0: u64, word1: u64, hash: u64) -> (r: Option<TTData>)
    ensures
        r == probe_spec(word0, word1, hash),
{
    if word0 ^ word1 == hash {
        Some(TTData::unpack(word1))
    } else {
        None
    }
}

/// Reading back the two words a store writes for `hash` gives the stored
/// data.
pub proof fn lemma_store_then_probe(hash: u64, d: TTData)
    ensures
        probe_spec(hash ^ pack_spec(d), pack_spec(d), hash) == Some(d),
{
    let p = pack_spec(d);
    assert((hash ^ p) ^ p == hash) by (bit_vector);
    lemma_pack_unpack(d);
}

/// Whether a store of `data` (depth `depth`) for `hash` in generation
/// `current_gen` replaces the entry `old_word0`, `old_word1`: an empty
/// entry or one of the same position is always replaced; another
/// position's entry is kept only when it is from this generation and
/// deeper.
pub open spec fn replace_spec(old_word0: u64, old_word1: u64, hash: u64, depth: i8, current_gen: u8) -> bool {
    let old_hash = old_word0 ^ old_word1;
    let old = unpack_spec(old_word1);
    !(old_hash != 0 && old_hash != hash && old.gen == current_gen && depth < old.depth)
}

pub fn should_replace(old_word0: u64, old_word1: u64, hash: u64, depth: i8, current_gen: u8) -> (r: bool)
    ensures
        r == replace_spec(old_word0, old_word1, hash, depth, current_gen),
{
    let old_hash = old_word0 ^ old_word1;
    let mut replace = true;
    if old_hash != 0 {
        let old_data = TTData::unpack(old_word1);
        if old_hash != hash {
            // Different position
            if old_data.gen == current_gen && depth < old_data.depth {
                replace = false;
            }
        }
        // If same hash, we always replace to keep the entry fresh.
    }
    replace
}

/// Index of `hash`'s entry in a table of `mask + 1` entries.
pub fn entry_index(hash: u64, mask: usize) -> (i: usize)
    ensures
        i <= mask,
        i == (hash as usize) & mask,
{
    let h = hash as usize;
    proof {
        assert(h & mask <= mask) by (bit_vector);
    }
    h & mask
}

/// Per-mille of `occupied` among `sample` entries.
pub fn permille(occupied: u32, sample: usize) -> (r: u32)
    requires
        0 < sample <= 1000,
        occupied <= sample,
    ensures
        r == permille_of(occupied as int, sample as int),
        r <= 1000,
{
    let sample32 = sample as u32;
    proof {
        assert(occupied * 1000 <= sample * 1000) by (nonlinear_arith)
            requires
                occupied <= sample,
        ;
        assert(occupied * 1000 / (sample as int) <= 1000) by (nonlinear_arith)
            requires
                occupied <= sample,
                0 < sample,
        ;
    }
    occupied * 1000 / sample32
}

/// How many entries `hashfull` samples in a table of `size` entries: all of
/// them, up to 1000.
pub open spec fn sampled(size: nat) -> int {
    if size < 1000 {
        size as int
    } else {
        1000
    }
}

/// `used` of `sample` entries, in per-mille (rounded down).
pub open spec fn permille_of(used: int, sample: int) -> int {
    used * 1000 / sample
}

/// A Transposition Table entry: `word0` holds hash xor data, `word1` the data.
struct TTEntry {
    word0: AtomicU64,
    word1: AtomicU64,
}

pub struct TranspositionTable {
    entries: Vec<TTEntry>,
    mask: usize,
    generation: AtomicU8,
}

/// Bytes of one entry (two 64-bit words).
pub const ENTRY_BYTES: usize = 16;

/// The smallest power of two not below `n` (1 for 0).
pub open spec fn is_pow2(p: nat) -> bool
    decreases p,
{
    if p == 1 {
        true
    } else if p < 2 || p % 2 != 0 {
        false
    } else {
        is_pow2(p / 2)
    }
}

fn next_power_of_two(n: usize) -> (p: usize)
    requires
        n <= usize::MAX / 2 + 1,
    ensures
        is_pow2(p as nat),
        n <= p,
        p == 1 || p / 2 < n,
{
    let mut p: usize = 1;
    while p < n
        invariant
            is_pow2(p as nat),
            1 <= p,
            p == 1 || p / 2 < n,
            n <= usize::MAX / 2 + 1,
        decreases usize::MAX - p,
    {
        proof {
            assert((p * 2) as nat / 2 == p as nat);
            assert((p * 2) as nat % 2 == 0);
        }
        p = p * 2;
    }
    p
}

impl TranspositionTable {
    #[verifier::type_invariant]
    spec fn well_formed(self) -> bool {
        self.entries@.len() == self.mask + 1
    }

    /// Number of entries (a power of two).
    pub closed spec fn size(self) -> nat {
        (self.mask + 1) as nat
    }

    /// A table of about `size_mb` megabytes: the number of entries that fit,
    /// rounded up to a power of two, all empty.
    pub fn new(size_mb: usize) -> (tt: TranspositionTable)
        requires
            size_mb <= usize::MAX / 1048576usize,
        ensures
            is_pow2(tt.size()),
            (size_mb * 1024 * 1024) / ENTRY_BYTES as int <= tt.size(),
            tt.size() == 1 || tt.size() / 2 < (size_mb * 1024 * 1024) / ENTRY_BYTES as int,
    {
        let n_entries = (size_mb * 1024 * 1024) / ENTRY_BYTES;
        let n_entries = next_power_of_two(n_entries);
        let mut entries: Vec<TTEntry> = Vec::new();
        let mut i: usize = 0;
        while i < n_entries
            invariant
                i <= n_entries,
                entries@.len() == i,
            decreases n_entries - i,
        {
            entries.push(TTEntry { word0: AtomicU64::new(0), word1: AtomicU64::new(0) });
            i = i + 1;
        }
        TranspositionTable { entries, mask: n_entries - 1, generation: AtomicU8::new(0) }
    }

    /// Index mask: the table has `mask() + 1` entries.
    pub fn mask(&self) -> (m: usize)
        ensures
            m + 1 == self.size(),
    {
        proof {
            use_type_invariant(self);
        }
        self.mask
    }

    /// Starts a new search generation.
    pub fn new_search(&self) {
        self.generation.fetch_add(1, Ordering::Relaxed);
    }

    /// The entry stored for `hash`, if its two words agree (see
    /// `decode_entry`).
    pub fn probe(&self, hash: u64) -> (r: Option<TTData>) {
        proof {
            use_type_invariant(self);
        }
        let index = entry_index(hash, self.mask);
        let entry = &self.entries[index];
        // Read word1, then word0: a concurrent write shows as a mismatch.
        let word1 = entry.word1.load(Ordering::Acquire);
        let word0 = entry.word0.load(Ordering::Acquire);
        decode_entry(word0, word1, hash)
    }

    /// Stores `data` for `hash`, stamped with the current generation, when
    /// `should_replace` allows.
    pub fn store(&self, hash: u64, data: TTData) {
        proof {
            use_type_invariant(self);
        }
        let index = entry_index(hash, self.mask);
        let entry = &self.entries[index];
        let current_gen = self.generation.load(Ordering::Relaxed);
        let stamped = TTData { gen: current_gen, ..data };
        let old_word1 = entry.word1.load(Ordering::Relaxed);
        let old_word0 = entry.word0.load(Ordering::Relaxed);
        if should_replace(old_word0, old_word1, hash, stamped.depth, current_gen) {
            let packed = stamped.pack();
            // Write word1, then word0.
            entry.word1.store(packed, Ordering::Release);
            entry.word0.store(hash ^ packed, Ordering::Release);
        }
    }

    /// Empties every entry.
    pub fn clear(&self) {
        proof {
            use_type_invariant(self);
        }
        let mut i: usize = 0;
        while i < self.entries.len()
            invariant
                i <= self.entries@.len(),
            decreases self.entries@.len() - i,
        {
            self.entries[i].word0.store(0, Ordering::Relaxed);
            self.entries[i].word1.store(0, Ordering::Relaxed);
            i = i + 1;
        }
    }

    /// Per-mille of the first (up to) 1000 entries that are in use.
    pub fn hashfull(&self) -> (r: u32)
        ensures
            r <= 1000,
            exists|used: int|
                0 <= used <= sampled(self.size()) && r == #[trigger] permille_of(used, sampled(self.size())),
    {
        proof {
            use_type_invariant(self);
        }
        let sample_size: usize = if self.entries.len() < 1000 { self.entries.len() } else { 1000 };
        let mut occupied: u32 = 0;
        let mut i: usize = 0;
        while i < sample_size
            invariant
                i <= sample_size,
                sample_size <= self.entries@.len(),
                sample_size <= 1000,
                occupied <= i,
            decreases sample_size - i,
        {
            if self.entries[i].word0.load(Ordering::Relaxed) != 0 {
                occupied = occupied + 1;
            }
            i = i + 1;
        }
        let r = permille(occupied, sample_size);
        proof {
            assert(sample_size == sampled(self.size()));
        }
        r
    }
}

} // verus!
