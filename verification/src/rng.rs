//! Randomness plumbing. The only unverified steps of the whole sampling path
//! are the two draws below; everything downstream takes the drawn value as an
//! ordinary argument and is verified for every value it could be.

use vstd::prelude::*;
use crate::fixed::SCALE;

verus! {

/// Declares rand's thread-local generator type so that it can appear in
/// signatures; the value is opaque to verification.
#[verifier::external_type_specification]
#[verifier::external_body]
pub struct ExThreadRng(rand::rngs::ThreadRng);

/// Relies on rand::Rng::gen_range over `0..n`: a draw strictly below `n`.
/// `gen_range` panics only on an empty range, which the precondition rules
/// out; nothing is assumed about the distribution of the draw.
#[verifier::external_body]
fn gen_below(rng: &mut rand::rngs::ThreadRng, n: u64) -> (r: u64)
    requires
        n > 0,
    ensures
        r < n,
{
    rand::Rng::gen_range(rng, 0..n)
}

/// A unit draw for the cubic-bias sampler: strictly between `-SCALE` and
/// `SCALE`.
pub fn draw_unit(rng: &mut rand::rngs::ThreadRng) -> (u: i64)
    ensures
        -SCALE < u < SCALE,
{
    let v: u64 = gen_below(rng, (2 * SCALE - 1) as u64);
    (v as i64) - (SCALE - 1)
}

/// A cumulative-scan cutoff: uniform draw in `[0, total)`.
pub fn draw_cutoff(rng: &mut rand::rngs::ThreadRng, total: i64) -> (c: i64)
    requires
        total > 0,
    ensures
        0 <= c < total,
{
    let v: u64 = gen_below(rng, total as u64);
    v as i64
}

} // verus!
