use crate::chess_move::{move_none, Move};
use crate::params::{EVAL_NONE, MATE_THRESHOLD, MAX_PLY};
use vstd::prelude::*;

verus! {

/// What a stored score says of the true score: exact, at least it, or at most it.
#[derive(Copy, Clone, Debug, PartialEq, Eq, Structural)]
pub enum TTFlag {
    Exact,
    LowerBound,
    UpperBound,
}

/// The flag whose code is the two low bits of `bits` (3 reads as an upper bound).
pub open spec fn flag_of_bits(bits: u8) -> TTFlag {
    if bits & 3 == 0 {
        TTFlag::Exact
    } else if bits & 3 == 1 {
        TTFlag::LowerBound
    } else {
        TTFlag::UpperBound
    }
}

/// The two-bit code of a flag.
pub open spec fn flag_code(f: TTFlag) -> u8 {
    match f {
        TTFlag::Exact => 0,
        TTFlag::LowerBound => 1,
        TTFlag::UpperBound => 2,
    }
}

impl TTFlag {
    /// The flag whose code is the two low bits of `bits`.
    pub fn from_bits(bits: u8) -> (r: Self)
        ensures
            r == flag_of_bits(bits),
    {
        let b = bits & 3;
        if b == 0 {
            TTFlag::Exact
        } else if b == 1 {
            TTFlag::LowerBound
        } else {
            TTFlag::UpperBound
        }
    }

    fn code(self) -> (r: u8)
        ensures
            r == flag_code(self),
    {
        match self {
            TTFlag::Exact => 0,
            TTFlag::LowerBound => 1,
            TTFlag::UpperBound => 2,
        }
    }
}

/// A transposition-table entry: best move, static evaluation, search score and depth, and
/// the score's flag (low two bits) with the search generation (high six bits).
#[derive(Copy, Clone, Debug, PartialEq, Eq, Structural)]
pub struct TTEntry {
    pub mov: Move,
    pub eval: i16,
    pub value: i16,
    pub depth: u8,
    pub flag_age: u8,
}

/// A score as stored: mate scores count from the node where they were found (`ply` plies
/// from the root) rather than from the root.
pub open spec fn spec_score_to_tt(score: i16, ply: u16) -> int {
    if score > MATE_THRESHOLD {
        score + ply
    } else if score < -MATE_THRESHOLD {
        score - ply
    } else {
        score as int
    }
}

/// A stored score read back at `ply` plies from the root (the inverse of
/// [`spec_score_to_tt`]).
pub open spec fn spec_score_from_tt(score: i16, ply: u16) -> int {
    if score > MATE_THRESHOLD {
        score - ply
    } else if score < -MATE_THRESHOLD {
        score + ply
    } else {
        score as int
    }
}

/// The 64-bit word an entry is packed into: move, eval, score, depth and flag-and-age from
/// the low bits up.
pub open spec fn entry_bits(e: TTEntry) -> u64 {
    (e.mov.0 as u64) | ((e.eval as u16 as u64) << 16u64) | ((e.value as u16 as u64) << 32u64) | ((
    e.depth as u64) << 48u64) | ((e.flag_age as u64) << 56u64)
}

/// The entry a 64-bit word unpacks to.
pub open spec fn entry_of_bits(x: u64) -> TTEntry {
    TTEntry {
        mov: Move(x as u16),
        eval: (x >> 16u64) as u16 as i16,
        value: (x >> 32u64) as u16 as i16,
        depth: (x >> 48u64) as u8,
        flag_age: (x >> 56u64) as u8,
    }
}

impl Default for TTEntry {
    /// No move, no evaluation, score zero at depth zero, exact, generation zero.
    fn default() -> (r: Self)
        ensures
            r.mov == move_none(),
            r.eval == EVAL_NONE,
            r.value == 0,
            r.depth == 0,
            r.flag_age == 0,
    {
        TTEntry { mov: Move::none(), eval: EVAL_NONE, value: 0, depth: 0, flag_age: 0 }
    }
}

impl TTEntry {
    /// An entry of generation zero.
    pub fn new(mov: Move, value: i16, eval: i16, depth: u8, flag: TTFlag) -> (r: Self)
        ensures
            r == (TTEntry { mov, eval, value, depth, flag_age: flag_code(flag) }),
    {
        TTEntry { mov, eval, value, depth, flag_age: flag.code() }
    }

    /// An entry of generation `age` (its low six bits).
    pub fn new_with_age(mov: Move, value: i16, eval: i16, depth: u8, flag: TTFlag, age: u8) -> (r: Self)
        ensures
            r == (TTEntry { mov, eval, value, depth, flag_age: ((age & 0x3f) << 2u8) | flag_code(flag) }),
    {
        TTEntry { mov, eval, value, depth, flag_age: ((age & 0x3f) << 2) | flag.code() }
    }

    /// Sets the generation to `age` (its low six bits), keeping the flag.
    pub fn set_age(&mut self, age: u8)
        ensures
            *final(self) == (TTEntry { flag_age: (old(self).flag_age & 3) | ((age & 0x3f) << 2u8), ..*old(self) }),
    {
        self.flag_age = (self.flag_age & 3) | ((age & 0x3f) << 2);
    }

    /// The flag of the stored score.
    pub fn flag(&self) -> (r: TTFlag)
        ensures
            r == flag_of_bits(self.flag_age),
    {
        TTFlag::from_bits(self.flag_age)
    }

    /// The generation the entry was stored in.
    pub fn age(&self) -> (r: u8)
        ensures
            r == self.flag_age >> 2u8,
            r < 64,
    {
        proof {
            lemma_age_bound(self.flag_age);
        }
        self.flag_age >> 2
    }

    /// The flag and the generation.
    pub fn flag_and_age(&self) -> (r: (TTFlag, u8))
        ensures
            r == (flag_of_bits(self.flag_age), self.flag_age >> 2u8),
    {
        (self.flag(), self.age())
    }

    /// The score as stored (see [`spec_score_to_tt`]).
    pub fn score_to_tt(score: i16, ply: u16) -> (r: i16)
        requires
            -32767 + MAX_PLY <= score <= 32767 - MAX_PLY,
            ply <= MAX_PLY,
        ensures
            r == spec_score_to_tt(score, ply),
    {
        if score > MATE_THRESHOLD {
            score + ply as i16
        } else if score < -MATE_THRESHOLD {
            score - ply as i16
        } else {
            score
        }
    }

    /// The stored score read back (see [`spec_score_from_tt`]).
    pub fn score_from_tt(score: i16, ply: u16) -> (r: i16)
        requires
            ply <= MAX_PLY,
        ensures
            r == spec_score_from_tt(score, ply),
    {
        if score > MATE_THRESHOLD {
            score - ply as i16
        } else if score < -MATE_THRESHOLD {
            score + ply as i16
        } else {
            score
        }
    }

    /// The entry packed into 64 bits.
    pub fn to_bits(self) -> (r: u64)
        ensures
            r == entry_bits(self),
    {
        (self.mov.0 as u64) | ((self.eval as u16 as u64) << 16) | ((self.value as u16 as u64) << 32)
            | ((self.depth as u64) << 48) | ((self.flag_age as u64) << 56)
    }

    /// The entry a 64-bit word unpacks to.
    pub fn from_bits(bits: u64) -> (r: Self)
        ensures
            r == entry_of_bits(bits),
    {
        TTEntry {
            mov: Move(bits as u16),
            eval: (bits >> 16) as u16 as i16,
            value: (bits >> 32) as u16 as i16,
            depth: (bits >> 48) as u8,
            flag_age: (bits >> 56) as u8,
        }
    }
}

proof fn lemma_age_bound(fa: u8)
    by (bit_vector)
    ensures
        fa >> 2u8 < 64,
{
}

proof fn lemma_pack_bv(m: u16, ev: u16, va: u16, d: u8, fa: u8)
    by (bit_vector)
    ensures
        ({
            let x = (m as u64) | ((ev as u64) << 16u64) | ((va as u64) << 32u64) | ((d as u64)
                << 48u64) | ((fa as u64) << 56u64);
            &&& x as u16 == m
            &&& (x >> 16u64) as u16 == ev
            &&& (x >> 32u64) as u16 == va
            &&& (x >> 48u64) as u8 == d
            &&& (x >> 56u64) as u8 == fa
        }),
{
}

proof fn lemma_i16_roundtrip(v: i16)
    by (bit_vector)
    ensures
        (v as u16) as i16 == v,
{
}

/// Unpacking a packed entry gives the entry back.
pub proof fn lemma_entry_roundtrip(e: TTEntry)
    ensures
        entry_of_bits(entry_bits(e)) == e,
{
    lemma_pack_bv(e.mov.0, e.eval as u16, e.value as u16, e.depth, e.flag_age);
    lemma_i16_roundtrip(e.eval);
    lemma_i16_roundtrip(e.value);
}

/// Reading back a stored score at the ply it was stored at gives the score back.
pub proof fn lemma_score_roundtrip(score: i16, ply: u16)
    requires
        -32767 + MAX_PLY <= score <= 32767 - MAX_PLY,
        ply <= MAX_PLY,
    ensures
        spec_score_from_tt(spec_score_to_tt(score, ply) as i16, ply) == score,
{
}


/// Slots per bucket.
pub const BUCKET_SIZE: usize = 4;

/// The key a slot was stored under: its data word xor its checksum word.
pub open spec fn slot_key(slot: (u64, u64)) -> u64 {
    slot.0 ^ slot.1
}

/// The bucket a hash maps to among `n` buckets: the high part of `hash * n`.
pub open spec fn bucket_of(hash: u64, n: int) -> int {
    (hash as int * n) / 0x1_0000_0000_0000_0000int
}

/// The first slot, at `i` or after within the bucket starting at `base`, stored under
/// `hash`.
pub open spec fn find_slot(slots: Seq<(u64, u64)>, base: int, hash: u64, i: int) -> Option<int>
    decreases 4 - i,
{
    if i >= 4 || i < 0 {
        None
    } else if slot_key(slots[base + i]) == hash {
        Some(base + i)
    } else {
        find_slot(slots, base, hash, i + 1)
    }
}

/// The entry a probe finds for `hash` at `ply` plies from the root: that of the first slot
/// of its bucket stored under `hash`, its score read back for `ply`.
pub open spec fn spec_probe(slots: Seq<(u64, u64)>, hash: u64, ply: u16) -> Option<TTEntry> {
    let base = bucket_of(hash, (slots.len() / 4) as int) * 4;
    match find_slot(slots, base, hash, 0) {
        Some(k) => {
            let e = entry_of_bits(slots[k].0);
            Some(TTEntry { value: spec_score_from_tt(e.value, ply) as i16, ..e })
        },
        None => None,
    }
}

/// How worth keeping an entry is in generation `age`: its depth, less four per
/// generation it is old.
pub open spec fn quality(age: u8, e: TTEntry) -> int {
    e.depth as int - ((age as int - (e.flag_age >> 2u8) as int) % 64) * 4
}

/// The slot, from `i` on within the bucket at `base`, that the least worth keeping
/// entry occupies, the first one on ties; `best` and `best_q` track the best so far.
pub open spec fn least_slot(slots: Seq<(u64, u64)>, base: int, age: u8, i: int, best: int, best_q: int) -> int
    decreases 4 - i,
{
    if i >= 4 || i < 0 {
        best
    } else {
        let q = quality(age, entry_of_bits(slots[base + i].0));
        if q < best_q {
            least_slot(slots, base, age, i + 1, base + i, q)
        } else {
            least_slot(slots, base, age, i + 1, best, best_q)
        }
    }
}

/// The slot a store of `hash` writes to: the one already stored under `hash`, or else the
/// least worth keeping.
pub open spec fn victim_slot(slots: Seq<(u64, u64)>, age: u8, hash: u64) -> int {
    let base = bucket_of(hash, (slots.len() / 4) as int) * 4;
    match find_slot(slots, base, hash, 0) {
        Some(k) => k,
        None => least_slot(slots, base, age, 0, base, 0x7fff_ffff),
    }
}

/// The entry a store of `e` for `hash` at `ply` writes before the victim is looked at:
/// its score made relative to the node, its generation the table's.
pub open spec fn prepared(e: TTEntry, age: u8, ply: u16) -> TTEntry {
    TTEntry {
        value: spec_score_to_tt(e.value, ply) as i16,
        flag_age: (e.flag_age & 3) | ((age & 0x3f) << 2u8),
        ..e
    }
}

/// Whether a store keeps the victim: it holds the same position from the current search
/// at a depth more than three beyond that of the new bound.
pub open spec fn keeps_victim(victim: TTEntry, new_e: TTEntry, age: u8) -> bool {
    &&& (victim.flag_age >> 2u8) == age
    &&& flag_of_bits(new_e.flag_age) != TTFlag::Exact
    &&& new_e.depth as int + 3 < victim.depth as int
}

/// The slots after storing `e` for `hash` at `ply`: the victim slot gets the new entry,
/// which inherits the victim's move and evaluation when it has none and the victim holds
/// the same position; a deeper entry of the same position from the current search is kept
/// instead of a shallow bound, gaining only a move if it had none.
pub open spec fn spec_store(slots: Seq<(u64, u64)>, age: u8, hash: u64, e: TTEntry, ply: u16) -> Seq<(u64, u64)> {
    let v = victim_slot(slots, age, hash);
    let victim = entry_of_bits(slots[v].0);
    let same = slot_key(slots[v]) == hash;
    let e1 = prepared(e, age, ply);
    let e2 = TTEntry {
        mov: if e1.mov == move_none() && same {
            victim.mov
        } else {
            e1.mov
        },
        eval: if e1.eval == EVAL_NONE && same {
            victim.eval
        } else {
            e1.eval
        },
        ..e1
    };
    if same && keeps_victim(victim, e2, age) {
        if victim.mov == move_none() && e2.mov != move_none() {
            let updated = TTEntry { mov: e2.mov, ..victim };
            slots.update(v, (entry_bits(updated), entry_bits(updated) ^ hash))
        } else {
            slots
        }
    } else {
        slots.update(v, (entry_bits(e2), entry_bits(e2) ^ hash))
    }
}

/// A table of buckets of four slots; each slot holds an entry's packed word and that word
/// xor the position's hash, so that a slot's key can be checked on reading.
pub struct TranspositionTable {
    pub slots: Vec<(u64, u64)>,
    pub age: u8,
}

proof fn lemma_bucket_bound(hash: u64, n: int)
    requires
        n >= 1,
    ensures
        0 <= bucket_of(hash, n) < n,
{
    assert(0 <= hash as int * n < 0x1_0000_0000_0000_0000int * n) by (nonlinear_arith)
        requires
            0 <= hash < 0x1_0000_0000_0000_0000int,
            n >= 1,
    ;
    assert(0 <= (hash as int * n) / 0x1_0000_0000_0000_0000int < n) by (nonlinear_arith)
        requires
            0 <= hash as int * n < 0x1_0000_0000_0000_0000int * n,
            n >= 1,
    ;
}

impl TranspositionTable {
    /// At least one bucket, four slots each, and a generation below 64.
    pub open spec fn wf(&self) -> bool {
        &&& self.slots@.len() % 4 == 0
        &&& 4 <= self.slots@.len() < 0x1_0000_0000_0000
        &&& self.age < 64
    }

    /// Number of buckets.
    pub open spec fn buckets(&self) -> int {
        (self.slots@.len() / 4) as int
    }

    /// A table of about `size_mb` megabytes (64 bytes a bucket), at least one bucket, all
    /// slots empty, generation zero.
    pub fn new(size_mb: usize) -> (r: Self)
        requires
            size_mb <= 4095,
        ensures
            r.wf(),
            r.age == 0,
            r.buckets() == (if size_mb * 16384 >= 1 {
                size_mb * 16384
            } else {
                1
            }),
            forall|i: int| 0 <= i < r.slots@.len() ==> r.slots@[i] == (0u64, 0u64),
    {
        let mut nb = size_mb * 1024 * 1024 / 64;
        if nb < 1 {
            nb = 1;
        }
        let total = nb * 4;
        let mut slots: Vec<(u64, u64)> = Vec::new();
        let mut i: usize = 0;
        while i < total
            invariant
                i <= total,
                slots@.len() == i,
                forall|j: int| 0 <= j < i ==> slots@[j] == (0u64, 0u64),
            decreases total - i,
        {
            slots.push((0, 0));
            i += 1;
        }
        TranspositionTable { slots, age: 0 }
    }

    /// Starts a new search generation.
    pub fn new_search(&mut self)
        requires
            old(self).wf(),
        ensures
            final(self).wf(),
            final(self).slots@ == old(self).slots@,
            final(self).age == (old(self).age + 1) % 64,
    {
        let next: u8 = self.age + 1;
        assert(next & 0x3f == next % 64) by (bit_vector);
        self.age = next & 0x3f;
    }

    /// Empties every slot.
    pub fn clear(&mut self)
        requires
            old(self).wf(),
        ensures
            final(self).wf(),
            final(self).age == old(self).age,
            final(self).slots@.len() == old(self).slots@.len(),
            forall|i: int| 0 <= i < final(self).slots@.len() ==> final(self).slots@[i] == (0u64, 0u64),
    {
        let n = self.slots.len();
        let mut i: usize = 0;
        while i < n
            invariant
                i <= n,
                n == self.slots@.len(),
                n == old(self).slots@.len(),
                self.age == old(self).age,
                forall|j: int| 0 <= j < i ==> self.slots@[j] == (0u64, 0u64),
            decreases n - i,
        {
            self.slots.set(i, (0, 0));
            i += 1;
        }
    }

    /// First slot of the bucket `hash` maps to.
    fn bucket_base(&self, hash: u64) -> (r: usize)
        requires
            self.wf(),
        ensures
            r == bucket_of(hash, self.buckets()) * 4,
            r + 4 <= self.slots@.len(),
    {
        let n = (self.slots.len() / 4) as u128;
        proof {
            lemma_bucket_bound(hash, self.buckets());
        }
        let idx = ((hash as u128) * n / 0x1_0000_0000_0000_0000u128) as usize;
        idx * 4
    }

    /// The entry stored for `hash`, its score read back for a node `ply` plies from the
    /// root (see [`spec_probe`]).
    pub fn probe(&self, hash: u64, ply: u16) -> (r: Option<TTEntry>)
        requires
            self.wf(),
            ply <= MAX_PLY,
        ensures
            r == spec_probe(self.slots@, hash, ply),
    {
        let base = self.bucket_base(hash);
        let mut i: usize = 0;
        while i < 4
            invariant
                i <= 4,
                self.wf(),
                base == bucket_of(hash, self.buckets()) * 4,
                base + 4 <= self.slots@.len(),
                find_slot(self.slots@, base as int, hash, 0) == find_slot(self.slots@, base as int, hash, i as int),
                ply <= MAX_PLY,
            decreases 4 - i,
        {
            let (data, check) = self.slots[base + i];
            if data ^ check == hash {
                let mut e = TTEntry::from_bits(data);
                e.value = TTEntry::score_from_tt(e.value, ply);
                return Some(e);
            }
            i += 1;
        }
        None
    }

    /// The slot a store of `hash` writes to (see [`victim_slot`]).
    fn select_victim(&self, hash: u64) -> (r: usize)
        requires
            self.wf(),
        ensures
            r == victim_slot(self.slots@, self.age, hash),
            bucket_of(hash, self.buckets()) * 4 <= r < bucket_of(hash, self.buckets()) * 4 + 4,
            r < self.slots@.len(),
    {
        let base = self.bucket_base(hash);
        let ghost s = self.slots@;
        let mut i: usize = 0;
        while i < 4
            invariant
                i <= 4,
                self.wf(),
                s == self.slots@,
                base == bucket_of(hash, self.buckets()) * 4,
                base + 4 <= s.len(),
                find_slot(s, base as int, hash, 0) == find_slot(s, base as int, hash, i as int),
            decreases 4 - i,
        {
            let (data, check) = self.slots[base + i];
            if data ^ check == hash {
                return base + i;
            }
            i += 1;
        }
        let mut best = base;
        let mut best_q: i32 = 0x7fff_ffff;
        let mut j: usize = 0;
        while j < 4
            invariant
                j <= 4,
                self.wf(),
                s == self.slots@,
                base == bucket_of(hash, self.buckets()) * 4,
                base + 4 <= s.len(),
                base <= best < base + 4,
                least_slot(s, base as int, self.age, 0, base as int, 0x7fff_ffff) == least_slot(
                    s,
                    base as int,
                    self.age,
                    j as int,
                    best as int,
                    best_q as int,
                ),
                -1024 <= best_q <= 0x7fff_ffff,
            decreases 4 - j,
        {
            let e = TTEntry::from_bits(self.slots[base + j].0);
            let q = self.quality(&e);
            if q < best_q {
                best_q = q;
                best = base + j;
            }
            j += 1;
        }
        best
    }

    /// See [`quality`].
    fn quality(&self, e: &TTEntry) -> (r: i32)
        requires
            self.age < 64,
        ensures
            r == quality(self.age, *e),
            -1024 <= r <= 255,
    {
        let ea = e.age();
        let diff: i32 = (self.age as i32 - ea as i32 + 64) % 64;
        assert(diff == (self.age as int - ea as int) % 64) by (nonlinear_arith)
            requires
                diff == (self.age as int - ea as int + 64) % 64,
                0 <= self.age < 64,
                0 <= ea < 64,
        ;
        e.depth as i32 - diff * 4
    }

    /// Stores `e` for `hash`, found `ply` plies from the root (see [`spec_store`]).
    #[verifier::rlimit(60)]
    pub fn store(&mut self, hash: u64, e: TTEntry, ply: u16)
        requires
            old(self).wf(),
            ply <= MAX_PLY,
            -32767 + MAX_PLY <= e.value <= 32767 - MAX_PLY,
        ensures
            final(self).wf(),
            final(self).age == old(self).age,
            final(self).slots@ == spec_store(old(self).slots@, old(self).age, hash, e, ply),
    {
        let mut entry = e;
        entry.value = TTEntry::score_to_tt(entry.value, ply);
        entry.set_age(self.age);
        let v = self.select_victim(hash);
        let (vdata, vcheck) = self.slots[v];
        let victim = TTEntry::from_bits(vdata);
        let same_pos = vdata ^ vcheck == hash;
        if entry.mov.is_none() && same_pos {
            entry.mov = victim.mov;
        }
        if entry.eval == EVAL_NONE && same_pos {
            entry.eval = victim.eval;
        }
        if same_pos {
            let is_current = victim.age() == self.age;
            let not_exact = match entry.flag() {
                TTFlag::Exact => false,
                _ => true,
            };
            if is_current && not_exact && (entry.depth as i16) + 3 < (victim.depth as i16) {
                if victim.mov.is_none() && !entry.mov.is_none() {
                    let mut updated = victim;
                    updated.mov = entry.mov;
                    let bits = updated.to_bits();
                    self.slots.set(v, (bits, bits ^ hash));
                }
                return;
            }
        }
        let bits = entry.to_bits();
        self.slots.set(v, (bits, bits ^ hash));
    }

    /// The share of recent entries, in thousandths, among the slots of the first thousand
    /// buckets: entries of the current generation with a depth above zero.
    pub fn hashfull(&self) -> (r: usize)
        requires
            self.wf(),
        ensures
            r == recent_count(self.slots@, self.age, hash_sample(self.slots@.len()) * 4) * 1000 / (
            hash_sample(self.slots@.len()) * 4),
            r <= 1000,
    {
        let nb = self.slots.len() / 4;
        let sample = if nb < 1000 {
            nb
        } else {
            1000
        };
        let mut used: usize = 0;
        let mut i: usize = 0;
        while i < sample * 4
            invariant
                i <= sample * 4,
                used <= i,
                used == recent_count(self.slots@, self.age, i as int),
                sample == hash_sample(self.slots@.len()),
                sample <= nb,
                sample <= 1000,
                nb == self.slots@.len() / 4,
                self.wf(),
            decreases sample * 4 - i,
        {
            let e = TTEntry::from_bits(self.slots[i].0);
            if e.depth > 0 && e.age() == self.age {
                used += 1;
            }
            i += 1;
        }
        assert(used * 1000 / (sample * 4) <= 1000) by (nonlinear_arith)
            requires
                used <= sample * 4,
                sample >= 1,
        ;
        used * 1000 / (sample * 4)
    }
}

/// The number of buckets that [`TranspositionTable::hashfull`] samples: the first
/// thousand, or all of them when there are fewer.
pub open spec fn hash_sample(n_slots: nat) -> int {
    if n_slots / 4 < 1000 {
        (n_slots / 4) as int
    } else {
        1000
    }
}

/// Among the first `n` slots, those holding an entry of generation `age` with a depth
/// above zero.
pub open spec fn recent_count(slots: Seq<(u64, u64)>, age: u8, n: int) -> int
    decreases n,
{
    if n <= 0 {
        0
    } else {
        let e = entry_of_bits(slots[n - 1].0);
        recent_count(slots, age, n - 1) + if e.depth > 0 && e.flag_age >> 2u8 == age {
            1int
        } else {
            0int
        }
    }
}


proof fn lemma_find_slot(s: Seq<(u64, u64)>, base: int, hash: u64, i: int)
    requires
        0 <= i <= 4,
        0 <= base,
        base + 4 <= s.len(),
    ensures
        find_slot(s, base, hash, i) matches Some(k) ==> base + i <= k < base + 4 && slot_key(s[k]) == hash
            && forall|j: int| base + i <= j < k ==> slot_key(#[trigger] s[j]) != hash,
        find_slot(s, base, hash, i) is None ==> forall|j: int| base + i <= j < base + 4 ==> slot_key(
            #[trigger] s[j],
        ) != hash,
    decreases 4 - i,
{
    if i < 4 {
        lemma_find_slot(s, base, hash, i + 1);
    }
}

proof fn lemma_find_updated(s: Seq<(u64, u64)>, base: int, hash: u64, i: int, v: int, slot: (u64, u64))
    requires
        0 <= i <= 4,
        0 <= base,
        base + 4 <= s.len(),
        base + i <= v < base + 4,
        slot_key(slot) == hash,
        forall|j: int| base + i <= j < v ==> slot_key(#[trigger] s[j]) != hash,
    ensures
        find_slot(s.update(v, slot), base, hash, i) == Some(v),
    decreases 4 - i,
{
    if base + i < v {
        lemma_find_updated(s, base, hash, i + 1, v, slot);
    }
}

proof fn lemma_least_slot(s: Seq<(u64, u64)>, base: int, age: u8, i: int, best: int, best_q: int)
    requires
        0 <= i <= 4,
        base <= best < base + 4,
    ensures
        base <= least_slot(s, base, age, i, best, best_q) < base + 4,
    decreases 4 - i,
{
    if i < 4 {
        let q = quality(age, entry_of_bits(s[base + i].0));
        if q < best_q {
            lemma_least_slot(s, base, age, i + 1, base + i, q);
        } else {
            lemma_least_slot(s, base, age, i + 1, best, best_q);
        }
    }
}

proof fn lemma_key_bv(b: u64, h: u64)
    by (bit_vector)
    ensures
        b ^ (b ^ h) == h,
{
}

proof fn lemma_flag_age_bv(f: u8, age: u8)
    by (bit_vector)
    requires
        age < 64,
    ensures
        ((f & 3) | ((age & 0x3f) << 2u8)) & 3 == f & 3,
        ((f & 3) | ((age & 0x3f) << 2u8)) >> 2u8 == age,
{
}

/// A probe right after a store of `e` for `hash` at the same ply finds an entry for
/// `hash`. Unless a deeper entry of the same position from the current search was kept,
/// it is the stored entry: same score, depth and flag, the current generation, and the
/// stored move and evaluation (or, when the entry had none and the slot held the same
/// position, the ones already there).
pub proof fn lemma_store_then_probe(slots: Seq<(u64, u64)>, age: u8, hash: u64, e: TTEntry, ply: u16)
    requires
        slots.len() % 4 == 0,
        4 <= slots.len(),
        age < 64,
        ply <= MAX_PLY,
        -32767 + MAX_PLY <= e.value <= 32767 - MAX_PLY,
    ensures
        ({
            let v = victim_slot(slots, age, hash);
            let victim = entry_of_bits(slots[v].0);
            let same = slot_key(slots[v]) == hash;
            let r = spec_probe(spec_store(slots, age, hash, e, ply), hash, ply);
            &&& r is Some
            &&& !(same && keeps_victim(victim, prepared(e, age, ply), age)) ==> {
                &&& r.unwrap().value == e.value
                &&& r.unwrap().depth == e.depth
                &&& flag_of_bits(r.unwrap().flag_age) == flag_of_bits(e.flag_age)
                &&& r.unwrap().flag_age >> 2u8 == age
                &&& r.unwrap().mov == (if e.mov == move_none() && same {
                    victim.mov
                } else {
                    e.mov
                })
                &&& r.unwrap().eval == (if e.eval == EVAL_NONE && same {
                    victim.eval
                } else {
                    e.eval
                })
            }
        }),
{
    let n = slots.len() / 4;
    lemma_bucket_bound(hash, n as int);
    let base = bucket_of(hash, n as int) * 4;
    assert(base + 4 <= slots.len());
    lemma_find_slot(slots, base, hash, 0);
    let v = victim_slot(slots, age, hash);
    if find_slot(slots, base, hash, 0) is None {
        lemma_least_slot(slots, base, age, 0, base, 0x7fff_ffff);
    }
    let victim = entry_of_bits(slots[v].0);
    let same = slot_key(slots[v]) == hash;
    let e1 = prepared(e, age, ply);
    let e2 = TTEntry {
        mov: if e1.mov == move_none() && same {
            victim.mov
        } else {
            e1.mov
        },
        eval: if e1.eval == EVAL_NONE && same {
            victim.eval
        } else {
            e1.eval
        },
        ..e1
    };
    let after = spec_store(slots, age, hash, e, ply);
    assert(after.len() == slots.len());
    if same && keeps_victim(victim, e2, age) {
        if victim.mov == move_none() && e2.mov != move_none() {
            let updated = TTEntry { mov: e2.mov, ..victim };
            lemma_key_bv(entry_bits(updated), hash);
            lemma_find_updated(slots, base, hash, 0, v, (entry_bits(updated), entry_bits(updated) ^ hash));
        }
    } else {
        lemma_key_bv(entry_bits(e2), hash);
        lemma_find_updated(slots, base, hash, 0, v, (entry_bits(e2), entry_bits(e2) ^ hash));
        lemma_entry_roundtrip(e2);
        lemma_score_roundtrip(e.value, ply);
        lemma_flag_age_bv(e.flag_age, age);
    }
}

} // verus!
