//! Scaffolding for an in-place merge sort: the split step that yields the
//! index ranges of the two halves, and the not-yet-merging combine step.

use core::ops::Range;
use vstd::prelude::*;

verus! {

/// Elements a merge sort can order.
pub trait NumTrait: PartialEq + PartialOrd + Ord {

}

/// Yields the index ranges of the two halves of a slice: two empty ranges
/// for a slice shorter than two, and otherwise the ranges on either side of
/// the split point `len / 2 - 1`, which stays outside both halves, as does
/// the back element.
pub fn split<T: NumTrait>(coll: &[T]) -> (halves: (Range<usize>, Range<usize>))
    ensures
        coll@.len() < 2 ==> halves.0.start == 0 && halves.0.end == 0 && halves.1.start == 0
            && halves.1.end == 0,
        coll@.len() >= 2 ==> halves.0.start == 0 && halves.0.end == coll@.len() / 2 - 1
            && halves.1.start == coll@.len() / 2 && halves.1.end == coll@.len() - 1,
{
    if coll.len() < 2 {
        return (0..0, 0..0);
    }
    let split_pt = (coll.len() / 2) - 1;
    let half1 = 0..split_pt;
    let half2 = split_pt + 1..coll.len() - 1;
    (half1, half2)
}

/// The merge step of the sort: it does not rearrange anything yet, so both
/// halves come back exactly as they went in.
pub fn combine<T: NumTrait>(coll1: &mut Vec<T>, coll2: &mut Vec<T>)
    ensures
        *final(coll1) == *old(coll1),
        *final(coll2) == *old(coll2),
{
}

} // verus!
