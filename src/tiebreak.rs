//! Strategies that pick one of several equally valued actions.

use vstd::prelude::*;
use rand::Rng;

verus! {

/// Picks one of `count` candidates, by index. The agent reads an index past
/// the end as counting on from the start again (modulo `count`).
pub trait TieBreaker {
    fn pick(&mut self, count: usize) -> usize;
}

/// Picks uniformly at random.
#[derive(Debug, Clone, Copy, Default)]
pub struct UniformTieBreaker;

/// Always picks the same index.
#[derive(Debug, Clone, Copy)]
pub struct FixedTieBreaker(pub usize);

/// Relies on rand's `thread_rng` and `Rng::gen_range(low, high)`: a value
/// uniformly drawn in `[low, high)`; it panics when `low >= high`.
#[verifier::external_body]
fn random_below(n: usize) -> (r: usize)
    requires
        n > 0,
    ensures
        r < n,
{
    rand::thread_rng().gen_range(0, n)
}

impl TieBreaker for UniformTieBreaker {
    fn pick(&mut self, count: usize) -> (r: usize)
        ensures
            count > 0 ==> r < count,
    {
        if count == 0 {
            0
        } else {
            random_below(count)
        }
    }
}

impl TieBreaker for FixedTieBreaker {
    fn pick(&mut self, count: usize) -> (r: usize)
        ensures
            r == old(self).0,
    {
        self.0
    }
}

} // verus!
