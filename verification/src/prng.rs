use vstd::prelude::*;

verus! {

/// The seed every generator starts from.
pub const PRNG_SEED: u64 = 1070372;

/// The multiplier applied to the state to produce an output.
pub const PRNG_MULTIPLIER: u64 = 2685821657736338717;

/// One xorshift step of the generator state.
pub open spec fn xorshift(s: u64) -> u64 {
    let s1 = s ^ (s >> 12u64);
    let s2 = s1 ^ (s1 << 25u64);
    s2 ^ (s2 >> 27u64)
}

/// The state after `k` steps from `seed`.
pub open spec fn state_after(seed: u64, k: nat) -> u64
    decreases k,
{
    if k == 0 {
        seed
    } else {
        xorshift(state_after(seed, (k - 1) as nat))
    }
}

/// The output that a step reaching state `s` produces.
pub open spec fn output_of(s: u64) -> u64 {
    s.wrapping_mul(PRNG_MULTIPLIER)
}

/// The `k`-th output (counting from 0) of a generator started from [`PRNG_SEED`].
pub open spec fn nth_output(k: nat) -> u64 {
    output_of(state_after(PRNG_SEED, k + 1))
}

/// A xorshift64* pseudo-random generator; fully deterministic.
pub struct Prng {
    pub seed: u64,
}

impl Prng {
    /// A generator at the fixed starting seed.
    pub fn new() -> (r: Self)
        ensures
            r.seed == PRNG_SEED,
    {
        Prng { seed: PRNG_SEED }
    }

    /// Advances the state one step and returns the output of the new state.
    pub fn random(&mut self) -> (r: u64)
        ensures
            final(self).seed == xorshift(old(self).seed),
            r == output_of(final(self).seed),
    {
        let mut s = self.seed;
        s = s ^ (s >> 12);
        s = s ^ (s << 25);
        s = s ^ (s >> 27);
        self.seed = s;
        s.wrapping_mul(PRNG_MULTIPLIER)
    }

    /// The next `n` outputs, in order.
    pub fn random_array(&mut self, n: usize) -> (r: Vec<u64>)
        ensures
            r.len() == n,
            final(self).seed == state_after(old(self).seed, n as nat),
            forall|i: int|
                0 <= i < n ==> r[i] == output_of(state_after(old(self).seed, (i + 1) as nat)),
    {
        let mut array: Vec<u64> = Vec::new();
        let mut i: usize = 0;
        while i < n
            invariant
                i <= n,
                array.len() == i,
                self.seed == state_after(old(self).seed, i as nat),
                forall|j: int|
                    0 <= j < i ==> array[j] == output_of(state_after(old(self).seed, (j + 1) as nat)),
            decreases n - i,
        {
            let v = self.random();
            array.push(v);
            i += 1;
        }
        array
    }

    /// The AND of the next three outputs: a number with few bits set.
    pub fn candidate(&mut self) -> (r: u64)
        ensures
            final(self).seed == state_after(old(self).seed, 3),
            r == output_of(state_after(old(self).seed, 1)) & output_of(state_after(old(self).seed, 2))
                & output_of(state_after(old(self).seed, 3)),
    {
        proof {
            reveal_with_fuel(state_after, 4);
        }
        let a = self.random();
        let b = self.random();
        let c = self.random();
        a & b & c
    }
}

/// Two generators in the same state produce the same outputs: the sequence depends on the
/// seed alone.
pub proof fn lemma_prng_deterministic(s: u64, k: nat, j: nat)
    ensures
        state_after(state_after(s, k), j) == state_after(s, k + j),
    decreases j,
{
    if j > 0 {
        lemma_prng_deterministic(s, k, (j - 1) as nat);
    }
}

} // verus!
