//! Random draws, made by `rand`.
//!
//! Nothing in this file is proved: the contract says what holds of every
//! draw, and the callers are verified for each of them.

use vstd::prelude::*;

verus! {

/// `Rng::gen_range` of `rand`, on the generator of the thread that
/// `thread_rng` gives and on the range `0..=high`: a number of that range,
/// which is never empty.
#[verifier::external_body]
pub(crate) fn uniform_draw(high: u32) -> (draw: u32)
    ensures
        draw <= high,
{
    rand::Rng::gen_range(&mut rand::thread_rng(), 0..=high)
}

} // verus!
