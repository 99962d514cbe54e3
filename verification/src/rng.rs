//! A small deterministic generator (PCG32), so that a seed fully determines
//! a run on every platform. No global state.

use vstd::prelude::*;

verus! {

/// The PCG32 multiplier.
pub const PCG_MULTIPLIER: u64 = 6364136223846793005;

/// `x` rotated right by `r mod 32` bits.
pub open spec fn rotr32(x: u32, r: u32) -> u32 {
    let k = r % 32;
    if k == 0 {
        x
    } else {
        ((x >> k) | (x << ((32 - k) as u32))) as u32
    }
}

/// The state after one step: `state * multiplier + inc`, wrapping.
pub open spec fn pcg_step(state: u64, inc: u64) -> u64 {
    ((state * PCG_MULTIPLIER + inc) % 0x1_0000_0000_0000_0000) as u64
}

/// The 32 bits a step outputs from the state it starts from.
pub open spec fn pcg_output(old: u64) -> u32 {
    rotr32((((old >> 18u64) ^ old) >> 27u64) as u32, (old >> 59u64) as u32)
}

/// The odd increment a stream selects.
pub open spec fn pcg_inc(stream: u64) -> u64 {
    ((stream << 1u64) | 1u64) as u64
}

/// The state `new` starts a generator in.
pub open spec fn pcg_seeded(seed: u64, stream: u64) -> u64 {
    let inc = pcg_inc(stream);
    pcg_step(((pcg_step(0, inc) + seed) % 0x1_0000_0000_0000_0000) as u64, inc)
}

/// A generator (state, increment) after one draw.
pub open spec fn pcg_next(g: (u64, u64)) -> (u64, u64) {
    (pcg_step(g.0, g.1), g.1)
}

/// The integer in `0..n` that one draw from `g` gives.
pub open spec fn pcg_below(g: (u64, u64), n: int) -> int {
    (pcg_output(g.0) as int * n) / 0x1_0000_0000
}

/// `x` rotated right by `r mod 32` bits.
fn rotate_right(x: u32, r: u32) -> (out: u32)
    ensures
        out == rotr32(x, r),
{
    let k = r % 32;
    if k == 0 {
        x
    } else {
        (x >> k) | (x << (32 - k))
    }
}

/// PCG32: 64-bit state, 32-bit output.
#[derive(Debug, Clone)]
pub struct Pcg32 {
    state: u64,
    inc: u64,
}

impl View for Pcg32 {
    /// The state and the increment.
    type V = (u64, u64);

    closed spec fn view(&self) -> (u64, u64) {
        (self.state, self.inc)
    }
}

impl Pcg32 {
    /// A generator for `seed` on `stream`. Different streams with the same
    /// seed give independent sequences (used for restarts).
    pub fn new(seed: u64, stream: u64) -> (r: Self)
        ensures
            r@ == (pcg_seeded(seed, stream), pcg_inc(stream)),
    {
        let mut rng = Pcg32 { state: 0, inc: (stream << 1) | 1 };
        rng.next_u32();
        rng.state = rng.state.wrapping_add(seed);
        rng.next_u32();
        rng
    }

    /// Next 32 random bits.
    pub fn next_u32(&mut self) -> (r: u32)
        ensures
            r == pcg_output(old(self)@.0),
            final(self)@ == (pcg_step(old(self)@.0, old(self)@.1), old(self)@.1),
    {
        let old = self.state;
        self.state = old.wrapping_mul(PCG_MULTIPLIER).wrapping_add(self.inc);
        proof {
            vstd::arithmetic::div_mod::lemma_add_mod_noop(old * PCG_MULTIPLIER, self.inc as int, 0x1_0000_0000_0000_0000);
            vstd::arithmetic::div_mod::lemma_mod_twice(self.inc as int, 0x1_0000_0000_0000_0000);
        }
        let xorshifted = (((old >> 18u64) ^ old) >> 27u64) as u32;
        let rot = (old >> 59u64) as u32;
        rotate_right(xorshifted, rot)
    }

    /// Uniform integer in `0..n`: the top 32 bits of the next output times
    /// `n`.
    pub fn below(&mut self, n: usize) -> (r: usize)
        requires
            0 < n <= 0x1_0000_0000,
        ensures
            r < n,
            r == pcg_below(old(self)@, n as int),
            final(self)@ == pcg_next(old(self)@),
    {
        let x = self.next_u32() as u64;
        let m = n as u64;
        proof {
            assert(x * m <= 0xffff_ffff * 0x1_0000_0000) by (nonlinear_arith)
                requires
                    x <= 0xffff_ffff,
                    m <= 0x1_0000_0000,
            ;
            assert((x * m) / 0x1_0000_0000 < m) by (nonlinear_arith)
                requires
                    x < 0x1_0000_0000,
                    0 < m,
            ;
        }
        let p = x * m;
        let q = p >> 32u64;
        proof {
            assert(p >> 32u64 == p / 0x1_0000_0000) by (bit_vector);
        }
        q as usize
    }
}

/// Different streams below 2^63 select different increments, so a seed
/// with two such streams gives two different generators. (The stream's top
/// bit is shifted out, so streams that differ only there coincide.)
pub proof fn law_streams_differ(s1: u64, s2: u64)
    requires
        s1 != s2,
        s1 < 0x8000_0000_0000_0000,
        s2 < 0x8000_0000_0000_0000,
    ensures
        pcg_inc(s1) != pcg_inc(s2),
{
    assert(s1 != s2 && s1 < 0x8000_0000_0000_0000 && s2 < 0x8000_0000_0000_0000 ==> ((s1 << 1u64) | 1u64)
        != ((s2 << 1u64) | 1u64)) by (bit_vector);
}

} // verus!
