//! What two ranges share, for ranges over any ordered type.

use std::ops::Range;
use vstd::prelude::*;
use vstd::std_specs::cmp::PartialOrdIs;
use vstd::std_specs::cmp::PartialOrdSpec;

verus! {

/// What the two ranges share, or nothing where they share nothing: the range from the
/// later of the two starts to the earlier of the two ends, where that start lies in
/// front of that end.
pub open spec fn spec_range_intersection<T: PartialOrd>(a: Range<T>, b: Range<T>) -> Option<
    Range<T>,
> {
    let start = if a.start.is_gt(&b.start) { a.start } else { b.start };
    let end = if a.end.is_gt(&b.end) { b.end } else { a.end };
    if start.is_lt(&end) {
        Some(Range { start, end })
    } else {
        None
    }
}

/// What the two ranges share, or nothing where they share nothing. The contract holds
/// for every type whose comparisons are those of its order; the ends of the result are
/// copies of the ends they are taken from.
pub fn range_intersection<T: Ord + Clone>(a: &Range<T>, b: &Range<T>) -> (shared: Option<
    Range<T>,
>)
    ensures
        T::obeys_partial_cmp_spec() ==> match (shared, spec_range_intersection(*a, *b)) {
            (Some(shared), Some(expected)) => cloned(expected.start, shared.start) && cloned(
                expected.end,
                shared.end,
            ),
            (None, None) => true,
            _ => false,
        },
{
    let start_is_a = a.start > b.start;
    let end_is_b = a.end > b.end;
    let start = if start_is_a { &a.start } else { &b.start };
    let end = if end_is_b { &b.end } else { &a.end };
    if *start < *end {
        Some(Range { start: start.clone(), end: end.clone() })
    } else {
        None
    }
}

} // verus!
