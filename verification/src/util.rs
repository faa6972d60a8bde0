//! Session context and the pseudo-random generator.

use vstd::prelude::*;
use vstd::arithmetic::div_mod::lemma_fundamental_div_mod;
use vstd::arithmetic::div_mod::lemma_fundamental_div_mod_converse;

verus! {

/// Session-wide audio parameters.
#[derive(Clone, Copy, Debug, Default)]
pub struct AudioContext {
    pub sampling_frequency: i32,
}

impl AudioContext {
    pub fn new(sfreq: i32) -> (ctx: Self)
        ensures
            ctx.sampling_frequency == sfreq,
    {
        AudioContext { sampling_frequency: sfreq }
    }
}

/// The modulus of the generator: the Mersenne prime 2^31 - 1.
pub open spec fn rand31_modulus() -> int {
    0x7fff_ffff
}

/// The successor of `seed` in the Park-Miller "minimal standard" sequence.
///
/// This is `16807 * seed` reduced modulo 2^31 - 1, except that a nonzero
/// multiple of the modulus maps to the modulus itself rather than to zero:
/// the generator folds the product once and never divides.
pub open spec fn rand31_next(seed: u32) -> u32 {
    let r = (16807 * seed) % rand31_modulus();
    if r == 0 && seed != 0 {
        0x7fff_ffffu32
    } else {
        r as u32
    }
}

/// The state reached from `seed` after `n` draws.
pub open spec fn rand31_iterate(seed: u32, n: nat) -> u32
    decreases n,
{
    if n == 0 {
        seed
    } else {
        rand31_next(rand31_iterate(seed, (n - 1) as nat))
    }
}

/// The generator stays on its cycle: from a seed between 1 and 2^31 - 2 it
/// draws a number between 1 and 2^31 - 2, the product reduced modulo
/// 2^31 - 1, and so it never gets stuck at zero.
pub proof fn lemma_rand31_cycle(seed: u32)
    requires
        1 <= seed < rand31_modulus(),
    ensures
        1 <= rand31_next(seed) < rand31_modulus(),
        rand31_next(seed) == (16807 * seed) % rand31_modulus(),
{
    let m = rand31_modulus();
    let product = 16807 * seed;
    let k = product / m;
    lemma_fundamental_div_mod(product, m);
    if product % m == 0 {
        // 16807 has an inverse modulo m, so m would divide the seed
        let z = 1407677000 * k - 11017 * seed;
        assert(16807 * 1407677000 == 1 + 11017 * m);
        assert(seed == m * z);
        assert(false);
    }
}

/// From a seed on the cycle every later state is on the cycle too.
pub proof fn lemma_rand31_iterate_cycle(seed: u32, n: nat)
    requires
        1 <= seed < rand31_modulus(),
    ensures
        1 <= rand31_iterate(seed, n) < rand31_modulus(),
    decreases n,
{
    if n > 0 {
        lemma_rand31_iterate_cycle(seed, (n - 1) as nat);
        lemma_rand31_cycle(rand31_iterate(seed, (n - 1) as nat));
    }
}

/// Every draw is a 31-bit number, whatever the seed.
pub proof fn lemma_rand31_range(seed: u32)
    ensures
        rand31_next(seed) <= rand31_modulus(),
{
}

proof fn lemma_rand31_split(seed: u32)
    ensures
        (seed & 0xffff) == seed % 65536,
        (seed >> 16) == seed / 65536,
{
    assert((seed & 0xffff) == seed % 65536) by (bit_vector);
    assert((seed >> 16) == seed / 65536) by (bit_vector);
}

proof fn lemma_rand31_fold(hi: u32)
    requires
        hi <= 16807 * 65535,
    ensures
        ((hi & 0x7fff) << 16) == (hi % 32768) * 65536,
        (hi >> 15) == hi / 32768,
{
    assert(((hi & 0x7fff) << 16) == (hi % 32768) * 65536) by (bit_vector);
    assert((hi >> 15) == hi / 32768) by (bit_vector);
}

/// Generate a 31-bit pseudo-random number.
///
/// This is the Park-Miller "minimal standard" generator, computed with
/// David G. Carta's optimization: 32-bit arithmetic and no division. The
/// seed is replaced by the number drawn.
pub fn rand31(seed: &mut u32) -> (r: u32)
    ensures
        r == rand31_next(*old(seed)),
        *final(seed) == r,
        r <= 0x7fff_ffff,
{
    let s: u32 = *seed;
    proof {
        lemma_rand31_split(s);
    }
    let lo: u32 = 16807 * (s & 0xffff);
    let hi: u32 = 16807 * (s >> 16);
    proof {
        lemma_rand31_fold(hi);
    }
    let mid: u32 = lo + ((hi & 0x7fff) << 16) + (hi >> 15);
    proof {
        let m = rand31_modulus();
        let q = (hi / 32768) as int;
        assert(16807 * s == q * m + mid);
        if mid > 0x7fff_ffff {
            lemma_fundamental_div_mod_converse(16807 * s, m, q + 1, mid - m);
        } else if mid == 0x7fff_ffff {
            lemma_fundamental_div_mod_converse(16807 * s, m, q + 1, 0);
        } else {
            lemma_fundamental_div_mod_converse(16807 * s, m, q, mid as int);
        }
    }
    let r: u32 = if mid > 0x7fff_ffff {
        mid - 0x7fff_ffff
    } else {
        mid
    };
    *seed = r;
    r
}

/// A source of white noise: the generator with a seed of its own.
#[derive(Debug)]
pub struct WhiteNoise {
    state: u32,
}

impl WhiteNoise {
    /// The number drawn last, which is the seed of the next.
    pub closed spec fn state(&self) -> u32 {
        self.state
    }

    pub fn new() -> (noise: Self)
        ensures
            noise.state() == 1,
    {
        Self { state: 1 }
    }

    /// Draw the next number: 31 bits, to be scaled by whoever wants a
    /// sample.
    pub fn draw(&mut self) -> (r: u32)
        ensures
            r == rand31_next(old(self).state()),
            final(self).state() == r,
            r <= 0x7fff_ffff,
    {
        rand31(&mut self.state)
    }
}

} // verus!
