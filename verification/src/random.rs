//! The library's only source of randomness, reduced to a fixed-point
//! value in `[0, 1)`.

use crate::fixed::SCALE;
use vstd::prelude::*;

verus! {

/// Relies on rand::random: draws a value from the thread-local generator.
/// Nothing is assumed of which value comes back.
#[verifier::external_body]
fn random_u32() -> u32 {
    rand::random::<u32>()
}

/// A pseudo-random fixed-point value in `[0, 1)`, that is a raw value in
/// `[0, SCALE)`.
pub fn random_unit() -> (r: i64)
    ensures
        0 <= r < SCALE,
{
    let x = random_u32();
    (x % (SCALE as u32)) as i64
}

} // verus!
