use vstd::prelude::*;

verus! {

/// Relies on rand's thread-local generator and `RngExt::random_range`: the
/// sample lies in the half-open range `lo..hi`, and the call panics only on
/// an empty range, which the precondition rules out. Nothing more is assumed
/// of the draw.
#[verifier::external_body]
pub(crate) fn random_in_range(lo: i64, hi: i64) -> (r: i64)
    requires
        lo < hi,
    ensures
        lo <= r < hi,
{
    rand::RngExt::random_range(&mut rand::rng(), lo..hi)
}

} // verus!
