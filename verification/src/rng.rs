//! The crate's one randomness source, wrapped so the rest of the library can
//! be verified against a range contract.

use rand::Rng;
use vstd::prelude::*;

verus! {

/// Relies on `rand::Rng::gen_range` over `rand::thread_rng()`: it returns a
/// value uniformly distributed in `[lo, hi)` and panics only on an empty
/// range, which the precondition rules out. Nothing is assumed beyond the
/// range; no two calls need agree.
#[verifier::external_body]
pub(crate) fn rand_in_range(lo: i64, hi: i64) -> (r: i64)
    requires
        lo < hi,
    ensures
        lo <= r < hi,
{
    rand::thread_rng().gen_range(lo..hi)
}

} // verus!
