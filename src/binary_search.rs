use std::cmp::Ordering;
use vstd::prelude::*;

verus! {

/// Position of an ordering in the order `Less < Equal < Greater`.
pub open spec fn ordering_rank(o: Ordering) -> int {
    match o {
        Ordering::Less => 0,
        Ordering::Equal => 1,
        Ordering::Greater => 2,
    }
}

/// `order` never steps back from `Greater` to `Equal` or from `Equal` to `Less`
/// as the index grows over `[low, high)`.
pub open spec fn is_monotonic(order: spec_fn(int) -> Ordering, low: int, high: int) -> bool {
    forall|i: int, j: int|
        #![trigger order(i), order(j)]
        low <= i <= j < high ==> ordering_rank(order(i)) <= ordering_rank(order(j))
}

/// Bisects `[low, high)` for an index on which `cmp` answers `Equal`.
///
/// `cmp(i)` tells where the sought index lies relative to `i`: `Less` when it is
/// above `i`, `Greater` when it is below. `order` is what `cmp` computes.
pub fn binary_search<F: Fn(usize) -> Ordering>(
    low: usize,
    high: usize,
    cmp: F,
    Ghost(order): Ghost<spec_fn(int) -> Ordering>,
) -> (r: Option<usize>)
    requires
        low <= high,
        forall|i: usize| low <= i < high ==> cmp.requires((i,)),
        forall|i: usize, o: Ordering|
            low <= i < high && #[trigger] cmp.ensures((i,), o) ==> o == order(i as int),
        is_monotonic(order, low as int, high as int),
    ensures
        match r {
            Some(i) => low <= i < high && order(i as int) == Ordering::Equal,
            None => forall|i: int| low <= i < high ==> #[trigger] order(i) != Ordering::Equal,
        },
{
    let mut lo: usize = low;
    let mut hi: usize = high;
    while lo < hi
        invariant
            low <= lo <= hi <= high,
            forall|i: usize| low <= i < high ==> cmp.requires((i,)),
            forall|i: usize, o: Ordering|
                low <= i < high && #[trigger] cmp.ensures((i,), o) ==> o == order(i as int),
            is_monotonic(order, low as int, high as int),
            forall|i: int| low <= i < lo ==> #[trigger] order(i) == Ordering::Less,
            forall|i: int| hi <= i < high ==> #[trigger] order(i) == Ordering::Greater,
        decreases hi - lo,
    {
        let mid: usize = lo + (hi - lo) / 2;
        let o = cmp(mid);
        match o {
            Ordering::Less => {
                assert forall|i: int| low <= i <= mid implies #[trigger] order(i) == Ordering::Less by {
                    assert(ordering_rank(order(i)) <= ordering_rank(order(mid as int)));
                }
                lo = mid + 1;
            },
            Ordering::Greater => {
                assert forall|i: int| mid <= i < high implies #[trigger] order(i) == Ordering::Greater by {
                    assert(ordering_rank(order(mid as int)) <= ordering_rank(order(i)));
                }
                hi = mid;
            },
            Ordering::Equal => {
                return Some(mid);
            },
        }
    }
    None
}

} // verus!
