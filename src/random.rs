use vstd::prelude::*;

verus! {

/// Relies on `rand::random_range`: a uniformly drawn value of the half-open
/// range `low..high`. It panics on an empty range, hence `low < high`.
#[verifier::external_body]
pub(crate) fn random_between(low: i64, high: i64) -> (r: i64)
    requires
        low < high,
    ensures
        low <= r < high,
{
    rand::random_range(low..high)
}

} // verus!
