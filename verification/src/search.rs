//! Finding the first index that passes a test.

use vstd::prelude::*;

verus! {

/// The least index from `lo` up to but not including `hi` that passes the
/// test `p`, or `hi` where none does.
pub open spec fn first_index(lo: int, hi: int, p: spec_fn(int) -> bool) -> int
    decreases hi - lo,
{
    if lo >= hi {
        hi
    } else if p(lo) {
        lo
    } else {
        first_index(lo + 1, hi, p)
    }
}

/// The first index lies in the range or at its end; it passes the test if
/// it lies in the range, and no index before it does.
pub proof fn lemma_first_index(lo: int, hi: int, p: spec_fn(int) -> bool)
    requires
        lo <= hi,
    ensures
        lo <= first_index(lo, hi, p) <= hi,
        first_index(lo, hi, p) < hi ==> p(first_index(lo, hi, p)),
        forall|k: int| lo <= k < first_index(lo, hi, p) ==> !#[trigger] p(k),
    decreases hi - lo,
{
    if lo < hi && !p(lo) {
        lemma_first_index(lo + 1, hi, p);
    }
}

/// An index that passes the test, with none before it that does, is the
/// first index; so is the end of the range where no index passes.
pub proof fn lemma_first_index_is(lo: int, hi: int, p: spec_fn(int) -> bool, r: int)
    requires
        lo <= r <= hi,
        r < hi ==> p(r),
        forall|k: int| lo <= k < r ==> !#[trigger] p(k),
    ensures
        first_index(lo, hi, p) == r,
    decreases hi - lo,
{
    if lo < r {
        assert(!p(lo));
        lemma_first_index_is(lo + 1, hi, p, r);
    }
}

} // verus!
