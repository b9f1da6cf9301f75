//! Uniform random draws for jittering, lens sampling and scattering.
//!
//! `Sampler::System` draws from the operating system's generator through
//! the `rand` crate; `Sampler::Seeded` is a self-contained linear
//! congruential generator whose every draw is pinned exactly by the
//! contract, so a render can be reproduced byte for byte.

use vstd::prelude::*;

verus! {

pub const LCG_MUL: u64 = 6364136223846793005;

pub const LCG_ADD: u64 = 1442695040888963407;

/// One step of the linear congruential generator, modulo 2^64.
pub open spec fn lcg64(s: u64) -> u64 {
    ((s * LCG_MUL + LCG_ADD) % 0x1_0000_0000_0000_0000) as u64
}

/// The value a seeded sampler hands out for the state `s` on the range `[lo, hi)`.
pub open spec fn seeded_pick(s: u64, lo: int, hi: int) -> int
    recommends
        lo < hi,
{
    lo + (lcg64(s) as int) % (hi - lo)
}

pub enum Sampler {
    /// Draws from the operating system's generator; no draw is reproducible.
    System,
    /// A linear congruential generator on the carried state.
    Seeded(u64),
}

impl Sampler {
    /// Draw a value uniformly from `[lo, hi)`.
    pub fn sample(&mut self, lo: i64, hi: i64) -> (r: i64)
        requires
            lo < hi,
            hi - lo <= i64::MAX,
        ensures
            lo <= r < hi,
            (*old(self) matches Sampler::Seeded(s) ==> *final(self) == Sampler::Seeded(lcg64(s))
                && r as int == seeded_pick(s, lo as int, hi as int)),
            (*old(self) matches Sampler::System ==> *final(self) == Sampler::System),
    {
        match self {
            Sampler::System => draw_from_os(lo, hi),
            Sampler::Seeded(s) => {
                let x: u64 = lcg_step(*s);
                *s = x;
                let span: u64 = (hi - lo) as u64;
                let m: u64 = x % span;
                lo + (m as i64)
            },
        }
    }
}

/// One exact step of the linear congruential generator.
fn lcg_step(s: u64) -> (r: u64)
    ensures
        r == lcg64(s),
{
    proof {
        assert((s as int) * (LCG_MUL as int) + (LCG_ADD as int) <= u128::MAX)
            by (nonlinear_arith)
            requires
                s <= u64::MAX,
        ;
    }
    let p: u128 = (s as u128) * (LCG_MUL as u128) + (LCG_ADD as u128);
    (p % 0x1_0000_0000_0000_0000u128) as u64
}

/// Relies on `rand::Rng::gen_range` over the thread-local generator: it
/// panics only on an empty range and returns a value of the given range.
#[verifier::external_body]
fn draw_from_os(lo: i64, hi: i64) -> (r: i64)
    requires
        lo < hi,
    ensures
        lo <= r < hi,
{
    rand::Rng::gen_range(&mut rand::thread_rng(), lo..hi)
}

} // verus!
