//! The uniform choice used when no explicit target partition is given.

use vstd::prelude::*;

verus! {

/// Relies on rand::random_range: an index drawn uniformly below `n`.
#[verifier::external_body]
pub fn pick_index(n: usize) -> (r: usize)
    requires
        n > 0,
    ensures
        r < n,
{
    rand::random_range(0..n)
}

} // verus!
