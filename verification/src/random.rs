//! The sizes of random draws.

use vstd::prelude::*;

use crate::range::{div_ceil, spec_div_ceil};

verus! {

/// The number of pairs of uniform draws that `size` normal draws take: each pair gives two.
pub fn normal_pairs(size: usize) -> (pairs: usize)
    ensures
        pairs == spec_div_ceil(size as int, 2),
        2 * pairs == size || 2 * pairs == size + 1,
{
    div_ceil(size, 2)
}

/// The first `size` of the draws: where `size` is odd, the last pair gave one draw too many.
/// Fewer draws than `size` are handed back as they are.
pub fn truncate_draws<T>(draws: Vec<T>, size: usize) -> (kept: Vec<T>)
    ensures
        draws@.len() >= size ==> kept@ == draws@.take(size as int),
        draws@.len() < size ==> kept@ == draws@,
{
    let mut kept = draws;
    if kept.len() > size {
        kept.truncate(size);
    } else {
        assert(kept@.len() == size ==> kept@.take(size as int) =~= kept@);
    }
    kept
}

} // verus!
