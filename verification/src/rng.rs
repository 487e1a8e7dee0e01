//! Trusted access to the process-wide random number generator.
use rand::Rng;
use vstd::prelude::*;

verus! {

/// Relies on rand::thread_rng and rand::Rng::gen_range over `0..n`: the
/// sample is drawn uniformly from the range, so it is always below `n`;
/// the call panics on an empty range, hence `n` must be positive.
#[verifier::external_body]
pub(crate) fn random_below(n: usize) -> (r: usize)
    requires
        n >= 1,
    ensures
        r < n,
{
    rand::thread_rng().gen_range(0..n)
}

/// Relies on rand::thread_rng and rand::Rng::gen_ratio: the result is true
/// with probability `num / den`; the call panics when `den == 0` or
/// `num > den`. Nothing is promised of a single random outcome.
#[verifier::external_body]
pub(crate) fn random_ratio(num: u32, den: u32) -> bool
    requires
        1 <= den,
        num <= den,
{
    rand::thread_rng().gen_ratio(num, den)
}

} // verus!
