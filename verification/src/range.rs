//! Overlap of half-open ranges.

use std::ops::Range;
use vstd::prelude::*;
use vstd::std_specs::cmp::PartialOrdIs;
use vstd::std_specs::cmp::PartialOrdSpec;

verus! {

/// What `range_overlaps` computes, over the order that `T` declares.
pub open spec fn range_overlaps_spec<T: PartialOrd<T>>(a: Range<T>, b: Range<T>) -> bool {
    if a.start.is_lt(&b.start) {
        a.end.is_gt(&b.start)
    } else {
        b.end.is_gt(&a.start)
    }
}

/// Whether two half-open ranges `[start, end)` share a point, provided both
/// are non-empty. The range that begins first must end after the other begins.
pub fn range_overlaps<T>(a: &Range<T>, b: &Range<T>) -> (r: bool) where T: PartialOrd<T>
    ensures
        T::obeys_partial_cmp_spec() ==> r == range_overlaps_spec(*a, *b),
{
    if a.start < b.start {
        a.end > b.start
    } else {
        b.end > a.start
    }
}

/// Whether `x` lies in the half-open range `[start, end)`.
pub open spec fn in_range(x: int, start: int, end: int) -> bool {
    start <= x < end
}

/// Whether two half-open ranges of integers have a common member.
pub open spec fn ranges_intersect(a_start: int, a_end: int, b_start: int, b_end: int) -> bool {
    exists|x: int| #[trigger] in_range(x, a_start, a_end) && in_range(x, b_start, b_end)
}

/// For non-empty ranges of integers, the two-comparison test decides exactly
/// whether the ranges have a common member.
pub proof fn lemma_overlap_is_intersection(a_start: int, a_end: int, b_start: int, b_end: int)
    requires
        a_start < a_end,
        b_start < b_end,
    ensures
        ranges_intersect(a_start, a_end, b_start, b_end) <==> (if a_start < b_start {
            a_end > b_start
        } else {
            b_end > a_start
        }),
{
    if a_start < b_start {
        if a_end > b_start {
            assert(in_range(b_start, a_start, a_end) && in_range(b_start, b_start, b_end));
        }
    } else {
        if b_end > a_start {
            assert(in_range(a_start, a_start, a_end) && in_range(a_start, b_start, b_end));
        }
    }
}

/// The test is symmetric on non-empty ranges of integers.
pub proof fn lemma_overlap_symmetric(a_start: int, a_end: int, b_start: int, b_end: int)
    requires
        a_start < a_end,
        b_start < b_end,
    ensures
        (if a_start < b_start {
            a_end > b_start
        } else {
            b_end > a_start
        }) == (if b_start < a_start {
            b_end > a_start
        } else {
            a_end > b_start
        }),
{
}

} // verus!
