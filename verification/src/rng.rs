//! Randomness, drawn from rand's small fast generator through trusted
//! wrappers; everything derived from the raw bits is verified.

use crate::vec3::Q;
use vstd::prelude::*;

verus! {

/// Relies on rand's `SmallRng` as the generator type; the tracer sees it as
/// an opaque value threaded through the sampling calls.
#[verifier::external_type_specification]
#[verifier::external_body]
pub struct ExSmallRng(rand::rngs::SmallRng);

/// Relies on rand's `SeedableRng::seed_from_u64`: builds a generator from a
/// word-sized seed. Nothing is assumed about the stream it produces. Public
/// so that callers outside the library can seed the sampling they drive.
#[verifier::external_body]
pub fn rng_from_seed(seed: u64) -> rand::rngs::SmallRng {
    <rand::rngs::SmallRng as rand::SeedableRng>::seed_from_u64(seed)
}

/// Relies on rand's `RngCore::next_u64`: the next 64 random bits. Nothing is
/// assumed about the value.
#[verifier::external_body]
fn rng_next(rng: &mut rand::rngs::SmallRng) -> u64 {
    rand::RngCore::next_u64(rng)
}

/// A random fixed-point value in `[0, Q)`.
pub fn random_q(rng: &mut rand::rngs::SmallRng) -> (r: i64)
    ensures
        0 <= r < Q,
{
    let bits = rng_next(rng);
    (bits % (Q as u64)) as i64
}

/// A random fixed-point value in `[-Q, Q]`.
pub fn random_symmetric_q(rng: &mut rand::rngs::SmallRng) -> (r: i64)
    ensures
        -Q <= r <= Q,
{
    let bits = rng_next(rng);
    let m = (bits % (2 * (Q as u64) + 1)) as i64;
    m - Q
}

/// A random index below `n`.
pub fn random_index(rng: &mut rand::rngs::SmallRng, n: usize) -> (r: usize)
    requires
        n > 0,
    ensures
        0 <= r < n,
{
    let bits = rng_next(rng);
    (bits % (n as u64)) as usize
}

/// A fair coin.
pub fn random_coin(rng: &mut rand::rngs::SmallRng) -> (r: bool) {
    let bits = rng_next(rng);
    bits % 2 == 0
}

} // verus!
