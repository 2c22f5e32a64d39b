//! Random draws used by the game rules.
//!
//! Each function here is a thin wrapper over a random number generator of an
//! outside crate. Their contracts state only what holds of every outcome.
use vstd::prelude::*;

verus! {

/// Draws an integer uniformly in `lo..=hi` with `rand::thread_rng().gen_range`.
/// Claimed: the result lies in the inclusive range. `gen_range` panics on an
/// empty range, hence `lo <= hi` is required.
#[verifier::external_body]
pub(crate) fn random_in_range(lo: i32, hi: i32) -> (r: i32)
    requires
        lo <= hi,
    ensures
        lo <= r <= hi,
{
    rand::Rng::gen_range(&mut rand::thread_rng(), lo..=hi)
}

/// Draws an index uniformly in `0..n` with `rand::thread_rng().gen_range`.
/// Claimed: the result is below `n`. `gen_range` panics on an empty range,
/// hence `n > 0` is required.
#[verifier::external_body]
pub(crate) fn random_index(n: usize) -> (r: usize)
    requires
        n > 0,
    ensures
        r < n,
{
    rand::Rng::gen_range(&mut rand::thread_rng(), 0..n)
}

/// Draws a boolean that is true with probability `numerator / denominator`,
/// with `rand::thread_rng().gen_ratio`. Claimed, as its documentation says:
/// a zero numerator always gives `false`, a numerator equal to the
/// denominator always gives `true`. It panics when `denominator == 0` or
/// `numerator > denominator`, which `requires` leaves out.
#[verifier::external_body]
pub(crate) fn random_ratio(numerator: u32, denominator: u32) -> (r: bool)
    requires
        0 < denominator,
        numerator <= denominator,
    ensures
        numerator == 0 ==> !r,
        numerator == denominator ==> r,
{
    rand::Rng::gen_ratio(&mut rand::thread_rng(), numerator, denominator)
}

/// Draws a percentage roll with `macroquad::rand::gen_range(0, 100)`, the
/// global generator of macroquad. Claimed: the result lies in `0..100`, as
/// the generator scales a `u32` draw by `r / 2^32 < 1` before truncating.
#[verifier::external_body]
pub(crate) fn percent_roll() -> (r: i32)
    ensures
        0 <= r < 100,
{
    macroquad::rand::gen_range(0i32, 100i32)
}

} // verus!
