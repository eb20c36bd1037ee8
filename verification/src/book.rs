//! Centring the book-gutter estimate on a flat minimum of the smoothed
//! column profile.

use vstd::prelude::*;

verus! {

/// `left..=right` is the run around `index` that `is_flat` answered `true`
/// for (the index itself excepted), bounded by the ends of `0..len` or by an
/// answer of `false` on each side.
pub open spec fn plateau<F: Fn(usize) -> bool>(len: usize, index: usize, is_flat: F, left: usize, right: usize) -> bool {
    &&& left <= index <= right < len
    &&& forall|i: usize| left <= i < index ==> #[trigger] is_flat.ensures((i,), true)
    &&& forall|i: usize| index < i <= right ==> #[trigger] is_flat.ensures((i,), true)
    &&& left == 0 || is_flat.ensures(((left - 1) as usize,), false)
    &&& right + 1 == len || is_flat.ensures(((right + 1) as usize,), false)
}

/// The midpoint of the flat run of positions around `index` in a profile of
/// `len` positions, where `is_flat(i)` tells whether position `i` lies on the
/// same level as `index`. Positions are examined outward from `index`.
pub fn plateau_centre<F: Fn(usize) -> bool>(len: usize, index: usize, is_flat: F) -> (centre: usize)
    requires
        index < len,
        forall|i: usize| is_flat.requires((i,)),
    ensures
        exists|left: usize, right: usize|
            plateau(len, index, is_flat, left, right) && centre == (left + right) / 2,
{
    let mut left = index;
    loop
        invariant
            left <= index < len,
            forall|i: usize| is_flat.requires((i,)),
            forall|i: usize| left <= i < index ==> #[trigger] is_flat.ensures((i,), true),
        ensures
            left == 0 || is_flat.ensures(((left - 1) as usize,), false),
        decreases left,
    {
        if left == 0 {
            break;
        }
        if !is_flat(left - 1) {
            break;
        }
        left = left - 1;
    }
    let mut right = index;
    loop
        invariant
            left <= index <= right < len,
            forall|i: usize| is_flat.requires((i,)),
            forall|i: usize| index < i <= right ==> #[trigger] is_flat.ensures((i,), true),
        ensures
            right + 1 == len || is_flat.ensures(((right + 1) as usize,), false),
        decreases len - right,
    {
        if right + 1 == len {
            break;
        }
        if !is_flat(right + 1) {
            break;
        }
        right = right + 1;
    }
    assert(plateau(len, index, is_flat, left, right));
    left + (right - left) / 2
}

} // verus!
