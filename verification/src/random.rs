//! The randomness stream that dungeon generation draws from.

use vstd::prelude::*;
use rand::RngExt;
use rand::SeedableRng;

verus! {

/// `rand::rngs::StdRng`, the generator behind the stream.
#[verifier::external_type_specification]
#[verifier::external_body]
pub struct ExStdRng(rand::rngs::StdRng);

/// `SeedableRng::seed_from_u64` for `StdRng`: a generator made from a seed.
#[verifier::external_body]
fn seeded(seed: u64) -> rand::rngs::StdRng {
    rand::rngs::StdRng::seed_from_u64(seed)
}

/// `RngExt::random_range` on an inclusive range that is not empty: some
/// number of the range.
#[verifier::external_body]
fn draw(rng: &mut rand::rngs::StdRng, low: i32, high: i32) -> (n: i32)
    requires
        low <= high,
    ensures
        low <= n <= high,
{
    rng.random_range(low..=high)
}

/// A seeded stream of random numbers.
pub struct Rng {
    inner: rand::rngs::StdRng,
}

impl Rng {
    /// The stream that starts from `seed`.
    pub fn new_with_seed(seed: u32) -> Rng {
        Rng { inner: seeded(seed as u64) }
    }

    /// A number between `min` and `max`, both included, whichever of the
    /// two is the smaller.
    pub fn get_int(&mut self, min: i32, max: i32) -> (n: i32)
        ensures
            min <= n <= max || max <= n <= min,
    {
        if min <= max {
            draw(&mut self.inner, min, max)
        } else {
            draw(&mut self.inner, max, min)
        }
    }
}

} // verus!
