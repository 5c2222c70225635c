//! PCG32 random sampler: small, fast, statistically solid, and
//! deterministically seedable per (pixel, sample) so renders reproduce
//! exactly.

use vstd::prelude::*;

use crate::double;

verus! {

/// Multiplier of the underlying 64-bit linear congruential generator.
pub const PCG_MULTIPLIER: u64 = 6364136223846793005;

/// A PCG32 generator: a 64-bit state and an odd stream increment.
pub struct Pcg32 {
    state: u64,
    inc: u64,
}

/// `x` rotated right by `r` bits.
pub open spec fn rotated_right(x: u32, r: u32) -> u32 {
    (x >> r) | (x << ((32 - r) % 32) as u32)
}

/// The state that follows `state` on the stream `inc`.
pub open spec fn pcg_step(state: u64, inc: u64) -> u64 {
    state.wrapping_mul(PCG_MULTIPLIER).wrapping_add(inc)
}

/// The number that the generator hands out from `state`.
pub open spec fn pcg_output(state: u64) -> u32 {
    rotated_right((((state >> 18) ^ state) >> 27) as u32, (state >> 59) as u32)
}

/// The (state, increment) of a generator seeded with `seed` on `stream`.
pub open spec fn pcg_seeded(seed: u64, stream: u64) -> (u64, u64) {
    let inc = (stream << 1) | 1;
    (pcg_step(pcg_step(0, inc).wrapping_add(seed), inc), inc)
}

/// splitmix64 finaliser.
pub open spec fn splitmix(z: u64) -> u64 {
    let a = (z ^ (z >> 30)).wrapping_mul(0xbf58476d1ce4e5b9);
    let b = (a ^ (a >> 27)).wrapping_mul(0x94d049bb133111eb);
    b ^ (b >> 31)
}

/// The (state, increment) used for sample `sample` of pixel `pixel`.
pub open spec fn pcg_pixel_sample(pixel: u64, sample: u64) -> (u64, u64) {
    pcg_seeded(
        splitmix(pixel.wrapping_mul(0x9e3779b97f4a7c15) ^ sample),
        splitmix(sample) | 1,
    )
}

/// The generator of sample `sample` of pixel `pixel`.
pub closed spec fn sample_rng(pixel: u64, sample: u64) -> Pcg32 {
    let s = pcg_pixel_sample(pixel, sample);
    Pcg32 { state: s.0, inc: s.1 }
}

/// Integer in `[0, n)` picked by the 32-bit draw `u`: `u / 2^32 * n` in double
/// precision (each factor and the product rounded to 53 significant bits),
/// truncated, and kept below `n`.
pub open spec fn pick_below(u: u32, n: usize) -> int {
    let scaled = double::rounded_53((u * double::rounded_53(n as nat)) as nat) / 0x1_0000_0000;
    if scaled < n { scaled as int } else { n - 1 }
}

/// The first `count` draws of a generator in (state, increment) `s`.
pub open spec fn pcg_draws(s: (u64, u64), count: nat) -> Seq<u32>
    decreases count,
{
    if count == 0 {
        seq![]
    } else {
        seq![pcg_output(s.0)] + pcg_draws((pcg_step(s.0, s.1), s.1), (count - 1) as nat)
    }
}

fn splitmix_exec(z: u64) -> (r: u64)
    ensures
        r == splitmix(z),
{
    let a: u64 = (z ^ (z >> 30)).wrapping_mul(0xbf58476d1ce4e5b9);
    let b: u64 = (a ^ (a >> 27)).wrapping_mul(0x94d049bb133111eb);
    b ^ (b >> 31)
}

impl View for Pcg32 {
    type V = (u64, u64);

    closed spec fn view(&self) -> (u64, u64) {
        (self.state, self.inc)
    }
}

impl Pcg32 {
    /// A generator seeded with `seed` on stream `stream`.
    pub fn new(seed: u64, stream: u64) -> (rng: Self)
        ensures
            rng@ == pcg_seeded(seed, stream),
    {
        let mut rng = Pcg32 { state: 0, inc: (stream << 1) | 1 };
        rng.next_u32();
        rng.state = rng.state.wrapping_add(seed);
        rng.next_u32();
        rng
    }

    /// Deterministic per-(pixel, sample) seeding.
    pub fn for_pixel_sample(pixel: u64, sample: u64) -> (rng: Self)
        ensures
            rng@ == pcg_pixel_sample(pixel, sample),
            rng == sample_rng(pixel, sample),
    {
        Self::new(
            splitmix_exec(pixel.wrapping_mul(0x9e3779b97f4a7c15) ^ sample),
            splitmix_exec(sample) | 1,
        )
    }

    /// Next 32 uniform bits.
    pub fn next_u32(&mut self) -> (r: u32)
        ensures
            r == pcg_output(old(self)@.0),
            final(self)@ == (pcg_step(old(self)@.0, old(self)@.1), old(self)@.1),
    {
        let old: u64 = self.state;
        self.state = old.wrapping_mul(PCG_MULTIPLIER).wrapping_add(self.inc);
        let xorshifted: u32 = (((old >> 18) ^ old) >> 27) as u32;
        let rot: u32 = (old >> 59) as u32;
        assert((old >> 59) < 32) by (bit_vector);
        (xorshifted >> rot) | (xorshifted << ((32 - rot) % 32))
    }

    /// Uniform in `[0, 1)`: the bits of the double that is the next draw over `2^32`.
    pub fn next_f64(&mut self) -> (r: u64)
        ensures
            r == double::dyadic(pcg_output(old(self)@.0) as int, 32),
            final(self)@ == (pcg_step(old(self)@.0, old(self)@.1), old(self)@.1),
    {
        let u: u32 = self.next_u32();
        double::dyadic_double(u as i64, 32)
    }

    /// Two uniforms in `[0, 1)`, one after the other.
    pub fn next_2d(&mut self) -> (r: (u64, u64))
        ensures
            ({
                let next = (pcg_step(old(self)@.0, old(self)@.1), old(self)@.1);
                &&& r.0 == double::dyadic(pcg_output(old(self)@.0) as int, 32)
                &&& r.1 == double::dyadic(pcg_output(next.0) as int, 32)
                &&& final(self)@ == (pcg_step(next.0, next.1), next.1)
            }),
    {
        let a: u64 = self.next_f64();
        let b: u64 = self.next_f64();
        (a, b)
    }

    /// Uniform integer in `[0, n)`.
    pub fn next_below(&mut self, n: usize) -> (r: usize)
        requires
            n > 0,
        ensures
            r < n,
            r == pick_below(pcg_output(old(self)@.0), n),
            final(self)@ == (pcg_step(old(self)@.0, old(self)@.1), old(self)@.1),
    {
        let u: u32 = self.next_u32();
        let a: u128 = double::round_53(n as u128);
        assert(0 <= u * a <= 0x2_0000_0000_0000_0000 * 0x1_0000_0000) by (nonlinear_arith)
            requires
                0 <= a <= 0x2_0000_0000_0000_0000,
                0 <= u <= 0x1_0000_0000,
        ;
        let p: u128 = double::round_53(u as u128 * a) / 0x1_0000_0000;
        if p < n as u128 {
            p as usize
        } else {
            n - 1
        }
    }
}

/// Seeding decides every later draw: two generators seeded alike hand out the
/// same numbers for ever, whatever was drawn elsewhere in between.
pub proof fn same_seed_same_draws(a: Pcg32, b: Pcg32, pixel: u64, sample: u64, count: nat)
    requires
        a@ == pcg_pixel_sample(pixel, sample),
        b@ == pcg_pixel_sample(pixel, sample),
    ensures
        pcg_draws(a@, count) == pcg_draws(b@, count),
{
}

} // verus!
