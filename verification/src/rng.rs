use vstd::prelude::*;

verus! {

#[verifier::external_type_specification]
#[verifier::external_body]
pub struct ExStdRng(rand::rngs::StdRng);

/// The random source every component takes as an explicit capability,
/// so that generation is deterministic and seedable under test.
pub struct RandomSource {
    inner: rand::rngs::StdRng,
}

impl RandomSource {
    /// Relies on rand's `SeedableRng::seed_from_u64` for `StdRng`: a
    /// generator whose draws are a function of the seed alone.
    #[verifier::external_body]
    pub fn from_seed(seed: u64) -> RandomSource {
        RandomSource { inner: rand::SeedableRng::seed_from_u64(seed) }
    }

    /// Relies on rand's `Rng::gen_range` over a half-open `usize` range:
    /// it panics only on an empty range and samples a value inside it.
    #[verifier::external_body]
    pub fn gen_range_usize(&mut self, low: usize, high: usize) -> (r: usize)
        requires
            low < high,
        ensures
            low <= r < high,
    {
        rand::Rng::gen_range(&mut self.inner, low..high)
    }

    /// Relies on rand's `Rng::gen_ratio`: a boolean that is true with
    /// probability `numerator / denominator`, always true when the ratio
    /// is one and always false when the numerator is zero; it panics on a
    /// zero denominator or a numerator above the denominator.
    #[verifier::external_body]
    pub fn gen_ratio(&mut self, numerator: u32, denominator: u32) -> (r: bool)
        requires
            0 < denominator,
            numerator <= denominator,
        ensures
            numerator == denominator ==> r,
            numerator == 0 ==> !r,
    {
        rand::Rng::gen_ratio(&mut self.inner, numerator, denominator)
    }

    /// Relies on rand's `SliceRandom::choose`: `None` exactly on an empty
    /// slice, otherwise some element of it.
    #[verifier::external_body]
    pub fn choose_name<'a>(&mut self, names: &'a Vec<String>) -> (r: Option<&'a String>)
        ensures
            r is Some <==> names@.len() > 0,
            match r {
                Some(s) => exists|i: int| 0 <= i < names@.len() && *s == names@[i],
                None => true,
            },
    {
        rand::seq::SliceRandom::choose(names.as_slice(), &mut self.inner)
    }
}

} // verus!
