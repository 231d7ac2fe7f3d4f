//! An injected source of random numbers.
//!
//! Randomness is a dependency handed to the board engine, not global state:
//! the engine only ever asks for a uniform draw below a bound and is
//! verified for every value that comes back.

use vstd::prelude::*;

use rand::Rng;

verus! {

/// rand's thread-local generator, declared so a handle can sit in a field.
#[verifier::external_type_specification]
#[verifier::external_body]
pub struct ExThreadRng(rand::rngs::ThreadRng);

/// A source of uniform random numbers for tile placement.
pub struct RandomSource {
    rng: rand::rngs::ThreadRng,
}

impl RandomSource {
    /// Relies on rand::rng: a handle to the thread-local generator.
    #[verifier::external_body]
    pub fn new() -> (r: RandomSource) {
        RandomSource { rng: rand::rng() }
    }

    /// Relies on rand's Rng::random_range over `0..n`: a uniform draw below
    /// `n`. The call panics only on an empty range, which `n >= 1` rules out;
    /// nothing more can be promised of a random value.
    #[verifier::external_body]
    pub fn below(&mut self, n: usize) -> (r: usize)
        requires
            n >= 1,
        ensures
            r < n,
    {
        self.rng.random_range(0..n)
    }
}

} // verus!
