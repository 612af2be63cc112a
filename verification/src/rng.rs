//! Deterministic 32-bit pseudo-random source (Mulberry32).
//!
//! The generator produces raw 32-bit words; a word stands for the uniform
//! draw `word / 2^32` in `[0, 1)`. Helpers below compare such a word against
//! a ppm probability and map it onto a pool index, both exactly.

use vstd::prelude::*;

verus! {

use crate::SCALE;
use vstd::arithmetic::div_mod::lemma_fundamental_div_mod;
use vstd::wrapping::u32_specs;

/// One Mulberry32 state advance: add 0x6D2B79F5, wrapping at 32 bits.
pub open spec fn m32_next(state: u32) -> u32 {
    u32_specs::wrapping_add(state, 0x6D2B79F5)
}

/// The output word drawn from an already-advanced Mulberry32 state:
/// two 32-bit wrap-multiplies and a final xor-shift.
pub open spec fn m32_output(s: u32) -> u32 {
    let a = u32_specs::wrapping_mul(s ^ (s >> 15u32), 1u32 | s);
    let b = u32_specs::wrapping_mul(a ^ (a >> 7u32), 61u32 | a);
    let t = a ^ u32_specs::wrapping_add(a, b);
    t ^ (t >> 14u32)
}

/// The generator state after `k` draws.
pub open spec fn m32_iter(state: u32, k: nat) -> u32
    decreases k,
{
    if k == 0 {
        state
    } else {
        m32_next(m32_iter(state, (k - 1) as nat))
    }
}

/// A seeded pseudo-random source. Every draw is a pure function of the
/// state, so a run is reproducible from its seed alone; an unseeded run
/// takes its seed from host entropy outside the engine.
pub struct RandomSource {
    pub state: u32,
}

impl RandomSource {
    pub fn new(seed: u32) -> (r: RandomSource)
        ensures
            r.state == seed,
    {
        RandomSource { state: seed }
    }

    /// Advance the state and return the next word; the uniform draw in
    /// `[0, 1)` is this word divided by 2^32.
    pub fn random(&mut self) -> (r: u32)
        ensures
            final(self).state == m32_next(old(self).state),
            r == m32_output(final(self).state),
    {
        self.state = self.state.wrapping_add(0x6D2B79F5);
        let s = self.state;
        let a = (s ^ (s >> 15)).wrapping_mul(1 | s);
        let b = (a ^ (a >> 7)).wrapping_mul(61 | a);
        let t = a ^ a.wrapping_add(b);
        t ^ (t >> 14)
    }
}

/// The fixed-point form of `uniform < p`: `word / 2^32 < p_ppm / SCALE`.
pub open spec fn word_below_ppm(word: u32, p_ppm: int) -> bool {
    (word as int) * (SCALE as int) < p_ppm * 0x1_0000_0000
}

pub fn is_word_below_ppm(word: u32, p_ppm: i64) -> (r: bool)
    requires
        0 <= p_ppm,
    ensures
        r == word_below_ppm(word, p_ppm as int),
{
    proof {
        assert(word as int * SCALE as int <= u128::MAX && p_ppm * 0x1_0000_0000int <= u128::MAX)
            by (nonlinear_arith)
            requires
                word <= u32::MAX,
                0 <= p_ppm <= i64::MAX,
                SCALE == 1_000_000;
    }
    (word as u128) * (SCALE as u128) < (p_ppm as u128) * 0x1_0000_0000
}

/// The fixed-point form of `floor(uniform * len)`.
pub open spec fn pick_index_spec(word: u32, len: int) -> int {
    (word as int * len) / 0x1_0000_0000
}

pub fn pick_index(word: u32, len: usize) -> (idx: usize)
    requires
        1 <= len,
    ensures
        idx == pick_index_spec(word, len as int),
        idx < len,
{
    proof {
        assert(word as int * len as int <= u128::MAX) by (nonlinear_arith)
            requires
                word <= u32::MAX,
                len <= u64::MAX;
    }
    let wide: u128 = (word as u128) * (len as u128);
    let idx: u128 = wide / 0x1_0000_0000;
    proof {
        let q = wide as int / 0x1_0000_0000int;
        let r = wide as int % 0x1_0000_0000int;
        lemma_fundamental_div_mod(wide as int, 0x1_0000_0000int);
        assert(q < len) by (nonlinear_arith)
            requires
                wide as int == q * 0x1_0000_0000int + r,
                0 <= r < 0x1_0000_0000int,
                wide as int == word as int * len as int,
                word < 0x1_0000_0000int,
                1 <= len;
    }
    idx as usize
}

} // verus!
