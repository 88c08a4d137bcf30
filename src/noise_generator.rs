use vstd::prelude::*;

verus! {

/// Seed that a fresh or reset generator starts from.
pub const NOISE_SEED: u32 = 22222;

/// Multiplier of the linear-congruential recurrence.
pub const NOISE_MULTIPLIER: u32 = 196314165;

/// Increment of the linear-congruential recurrence.
pub const NOISE_INCREMENT: u32 = 907633515;

/// Scale of a noise value: a value `v` stands for the sample `v / NOISE_SCALE`.
pub const NOISE_SCALE: i32 = 16777216;

/// The seed that follows `seed`: `seed * NOISE_MULTIPLIER + NOISE_INCREMENT` modulo 2^32.
pub open spec fn next_seed(seed: u32) -> u32 {
    ((seed as int * NOISE_MULTIPLIER as int + NOISE_INCREMENT as int) % 0x1_0000_0000) as u32
}

/// The noise value drawn from a seed: its upper 25 bits, centred on zero.
pub open spec fn noise_of(seed: u32) -> i32 {
    ((seed as int / 128) - NOISE_SCALE as int) as i32
}

/// Linear-congruential generator of uniform noise in `[-NOISE_SCALE, NOISE_SCALE)`.
pub struct NoiseGenerator {
    pub noise_seed: u32,
}

impl NoiseGenerator {
    /// A generator at the fixed start seed.
    pub fn new() -> (r: Self)
        ensures
            r.noise_seed == NOISE_SEED,
    {
        NoiseGenerator { noise_seed: NOISE_SEED }
    }

    /// Returns the generator to the fixed start seed, so that what it draws next
    /// does not depend on what it drew before.
    pub fn reset(&mut self)
        ensures
            final(self).noise_seed == NOISE_SEED,
    {
        self.noise_seed = NOISE_SEED;
    }

    /// Advances the seed and returns the next noise value, in `[-NOISE_SCALE, NOISE_SCALE)`.
    pub fn next_value(&mut self) -> (r: i32)
        ensures
            final(self).noise_seed == next_seed(old(self).noise_seed),
            r == noise_of(final(self).noise_seed),
            -NOISE_SCALE <= r < NOISE_SCALE,
    {
        let ghost o = self.noise_seed;
        let m: u32 = self.noise_seed.wrapping_mul(NOISE_MULTIPLIER);
        let s: u32 = m.wrapping_add(NOISE_INCREMENT);
        proof {
            let p = o as int * NOISE_MULTIPLIER as int;
            assert(m as int == p % 0x1_0000_0000);
            vstd::arithmetic::div_mod::lemma_add_mod_noop(p, NOISE_INCREMENT as int, 0x1_0000_0000);
            vstd::arithmetic::div_mod::lemma_small_mod(NOISE_INCREMENT as nat, 0x1_0000_0000);
            vstd::arithmetic::div_mod::lemma_small_mod(s as nat, 0x1_0000_0000);
            assert(s == next_seed(o));
        }
        self.noise_seed = s;
        let hi: u32 = s >> 7u32;
        assert(hi == s / 128) by (bit_vector)
            requires
                hi == s >> 7u32,
        ;
        (hi as i32) - NOISE_SCALE
    }
}

} // verus!
