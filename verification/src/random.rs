//! The pluggable source of randomness for the scheduler.
//!
//! Selection weights are fixed-point numbers in units of `FP_ONE`, so any
//! generator — the deterministic one below, or one backed by a real
//! Beta-distribution sampler outside the library — can be substituted, and
//! tests can replay a fixed seed.

use vstd::prelude::*;

verus! {

/// One unit of selection weight, as a fixed-point integer.
pub const FP_ONE: u64 = 1_000_000;

/// A substitutable random source. `beta_fp` should draw from the Beta
/// distribution with the given shape parameters, scaled to `[0, FP_ONE]`;
/// the contracts promise only the ranges, which is all the scheduler's
/// guarantees rest on, so a deterministic replacement is admissible.
pub trait RandomSource {
    /// A draw below `n`, ideally uniform.
    fn next_below(&mut self, n: u64) -> (r: u64)
        requires
            n >= 1,
        ensures
            r < n,
    ;

    /// A draw from `[0, FP_ONE]`, ideally Beta(`alpha`, `beta`) distributed.
    fn beta_fp(&mut self, alpha: u64, beta: u64) -> (r: u64)
        requires
            alpha >= 1,
            beta >= 1,
        ensures
            r <= FP_ONE,
    ;
}

/// A small deterministic generator (the SplitMix64 step function): a
/// substitute source for repeatable runs. Its `beta_fp` draw is uniform on
/// `[0, FP_ONE]` rather than Beta-distributed.
pub struct SplitMixSource {
    state: u64,
}

impl SplitMixSource {
    pub fn new(seed: u64) -> SplitMixSource {
        SplitMixSource { state: seed }
    }

    fn next_u64(&mut self) -> u64 {
        self.state = self.state.wrapping_add(0x9E3779B97F4A7C15);
        let z0: u64 = self.state;
        let z1: u64 = (z0 ^ (z0 >> 30)).wrapping_mul(0xBF58476D1CE4E5B9);
        let z2: u64 = (z1 ^ (z1 >> 27)).wrapping_mul(0x94D049BB133111EB);
        z2 ^ (z2 >> 31)
    }
}

impl RandomSource for SplitMixSource {
    fn next_below(&mut self, n: u64) -> (r: u64) {
        self.next_u64() % n
    }

    fn beta_fp(&mut self, alpha: u64, beta: u64) -> (r: u64) {
        self.next_u64() % (FP_ONE + 1)
    }
}

} // verus!
