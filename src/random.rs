use vstd::prelude::*;
use rand::Rng;

verus! {

/// A number drawn uniformly from `0..bound`.
///
/// Relies on `rand::thread_rng` for a generator and on `rand::Rng::gen_range`,
/// which for a non-empty range returns a value inside it.
#[verifier::external_body]
pub(crate) fn random_below(bound: usize) -> (r: usize)
    requires
        bound > 0,
    ensures
        r < bound,
{
    rand::thread_rng().gen_range(0..bound)
}

} // verus!
