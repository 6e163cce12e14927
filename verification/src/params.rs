//! Parameters of the search and the form in which it reports a value.

use vstd::prelude::*;

verus! {

/// How deep the exact search goes and how many random completions stand in
/// for it below that depth.
#[derive(Clone, Copy, Debug)]
pub struct McParams {
    /// Random completions per approximated state.
    pub sims: usize,
    /// Depth from which states are approximated instead of searched.
    pub rollout_limit: usize,
}

impl Default for McParams {
    fn default() -> (p: Self)
        ensures
            p.sims == 5,
            p.rollout_limit == 1,
    {
        McParams { sims: 5, rollout_limit: 1 }
    }
}

/// An expected score as an exact fraction `num / den`.
///
/// The denominator is zero only for the mean of no samples, which has no
/// value; the numerator is then zero too.
#[derive(Clone, Copy, Debug, PartialEq, Eq, Structural)]
pub struct Expectation {
    pub num: u128,
    pub den: u128,
}

/// What a step of the computation yields: the numerator of its value and the
/// generator state it leaves behind.
pub struct Outcome {
    pub num: int,
    pub rng: u64,
}

} // verus!
