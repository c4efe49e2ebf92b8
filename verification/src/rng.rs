use vstd::prelude::*;

use rand::Rng;
use rand::RngCore;
use rand::SeedableRng;

verus! {

#[verifier::external_type_specification]
#[verifier::external_body]
pub struct ExLcg128Xsl64(rand_pcg::Lcg128Xsl64);

/// A seeded PCG-family pseudo-random generator (`rand_pcg`'s `Pcg64`),
/// the library's only source of randomness.
pub struct PcgRng {
    inner: rand_pcg::Pcg64,
}

impl PcgRng {
    /// Relies on rand_pcg's `Pcg64::seed_from_u64`: a deterministic
    /// generator built from the seed; it never fails.
    #[verifier::external_body]
    pub fn new(seed: u64) -> PcgRng {
        PcgRng { inner: rand_pcg::Pcg64::seed_from_u64(seed) }
    }

    /// Relies on rand_core's `RngCore::next_u64` for `Pcg64`: one draw,
    /// of which nothing is promised.
    #[verifier::external_body]
    pub fn next_u64(&mut self) -> u64 {
        self.inner.next_u64()
    }

    /// Relies on rand's `Rng::gen_range` over `0..=bound`: a draw from
    /// that range, so the result never exceeds the bound; the range is
    /// never empty, so the call never panics.
    #[verifier::external_body]
    pub fn gen_index(&mut self, bound: usize) -> (r: usize)
        ensures
            r <= bound,
    {
        self.inner.gen_range(0..=bound)
    }
}

} // verus!
