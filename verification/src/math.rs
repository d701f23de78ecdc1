use vstd::prelude::*;

verus! {

/// Length of the part that the vertical intervals `[y1, y1 + height1)` and
/// `[y2, y2 + height2)` have in common; zero where they are apart or inverted.
pub open spec fn intersect_length(y1: int, height1: int, y2: int, height2: int) -> int {
    let lower_point = if y1 + height1 <= y2 + height2 {
        y1 + height1
    } else {
        y2 + height2
    };
    let upper_point = if y1 >= y2 {
        y1
    } else {
        y2
    };
    if lower_point < upper_point {
        0
    } else {
        lower_point - upper_point
    }
}

/// The overlap of two intervals is never negative.
pub proof fn lemma_intersect_nonnegative(y1: int, height1: int, y2: int, height2: int)
    ensures
        intersect_length(y1, height1, y2, height2) >= 0,
{
}

/// Intervals of which one ends where or before the other starts do not overlap.
pub proof fn lemma_intersect_disjoint(y1: int, height1: int, y2: int, height2: int)
    requires
        y1 + height1 <= y2 || y2 + height2 <= y1,
    ensures
        intersect_length(y1, height1, y2, height2) == 0,
{
}

/// Two intervals that start at the same point overlap by the shorter of the
/// two heights; identical intervals overlap by their whole height.
pub proof fn lemma_intersect_same_start(y: int, height1: int, height2: int)
    requires
        height1 >= 0,
        height2 >= 0,
    ensures
        intersect_length(y, height1, y, height2) == if height1 <= height2 {
            height1
        } else {
            height2
        },
{
}

/// The overlap is symmetric in the two intervals and never longer than either
/// of them, provided neither is inverted.
pub proof fn lemma_intersect_bounded(y1: int, height1: int, y2: int, height2: int)
    requires
        height1 >= 0,
        height2 >= 0,
    ensures
        intersect_length(y1, height1, y2, height2) == intersect_length(y2, height2, y1, height1),
        intersect_length(y1, height1, y2, height2) <= height1,
        intersect_length(y1, height1, y2, height2) <= height2,
{
}

/// Computes the overlap of `[y1, y1 + height1)` and `[y2, y2 + height2)`.
/// Total on all inputs: the sums are taken in a wider type, and the result
/// always fits the inputs' type again.
pub fn line_intersect_length(y1: i64, height1: i64, y2: i64, height2: i64) -> (length: i64)
    ensures
        length == intersect_length(y1 as int, height1 as int, y2 as int, height2 as int),
        length >= 0,
{
    let end1: i128 = y1 as i128 + height1 as i128;
    let end2: i128 = y2 as i128 + height2 as i128;
    let lower_point: i128 = if end1 <= end2 {
        end1
    } else {
        end2
    };
    let upper_point: i128 = if y1 >= y2 {
        y1 as i128
    } else {
        y2 as i128
    };
    if lower_point < upper_point {
        0
    } else {
        (lower_point - upper_point) as i64
    }
}

} // verus!
