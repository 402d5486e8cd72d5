//! Supporting lemmas: how ranges of offsets grow and split, and what filtering
//! does to them. The proofs of the matchers and of the laws rest on these.

use vstd::prelude::*;
use crate::shifts::{offsets, shift_values};

verus! {

/// A range grows at its upper end by the offset just beyond it.
pub proof fn lemma_offsets_extend(lo: int, hi: int)
    requires
        lo <= hi,
    ensures
        offsets(lo, hi + 1) == offsets(lo, hi).push(hi),
{
    assert(offsets(lo, hi + 1) =~= offsets(lo, hi).push(hi));
}

/// A range is its lower part followed by its upper part.
pub proof fn lemma_offsets_split(lo: int, mid: int, hi: int)
    requires
        lo <= mid <= hi,
    ensures
        offsets(lo, hi) == offsets(lo, mid) + offsets(mid, hi),
{
    assert(offsets(lo, hi) =~= offsets(lo, mid) + offsets(mid, hi));
}

/// Filtering a range that grew by one offset: the new offset is appended if it
/// is kept, and nothing changes if it is not.
pub proof fn lemma_filter_extend(lo: int, hi: int, keep: spec_fn(int) -> bool)
    requires
        lo <= hi,
    ensures
        offsets(lo, hi + 1).filter(keep) == if keep(hi) {
            offsets(lo, hi).filter(keep).push(hi)
        } else {
            offsets(lo, hi).filter(keep)
        },
{
    reveal(Seq::filter);
    lemma_offsets_extend(lo, hi);
    assert(offsets(lo, hi).push(hi).drop_last() =~= offsets(lo, hi));
}

/// Filtering splits along with the range.
pub proof fn lemma_filter_split(lo: int, mid: int, hi: int, keep: spec_fn(int) -> bool)
    requires
        lo <= mid <= hi,
    ensures
        offsets(lo, hi).filter(keep) == offsets(lo, mid).filter(keep) + offsets(mid, hi).filter(
            keep,
        ),
{
    lemma_offsets_split(lo, mid, hi);
    Seq::filter_distributes_over_add(offsets(lo, mid), offsets(mid, hi), keep);
}

/// A range in which no offset is kept filters to nothing.
pub proof fn lemma_filter_none(lo: int, hi: int, keep: spec_fn(int) -> bool)
    requires
        forall|s: int| lo <= s < hi ==> !#[trigger] keep(s),
    ensures
        offsets(lo, hi).filter(keep) == Seq::<int>::empty(),
    decreases hi - lo,
{
    if hi <= lo {
        reveal(Seq::filter);
    } else {
        lemma_filter_none(lo, hi - 1, keep);
        lemma_filter_extend(lo, hi - 1, keep);
    }
}

/// A range in which every offset is kept is left as it is.
pub proof fn lemma_filter_all(lo: int, hi: int, keep: spec_fn(int) -> bool)
    requires
        forall|s: int| lo <= s < hi ==> #[trigger] keep(s),
    ensures
        offsets(lo, hi).filter(keep) == offsets(lo, hi),
    decreases hi - lo,
{
    if hi <= lo {
        reveal(Seq::filter);
    } else {
        lemma_filter_all(lo, hi - 1, keep);
        lemma_filter_extend(lo, hi - 1, keep);
        lemma_offsets_extend(lo, hi - 1);
    }
}

/// What is left of a filtered range: offsets of the range that are kept, in
/// strictly ascending order, and none that is kept is missing.
pub proof fn lemma_filter_picks(lo: int, hi: int, keep: spec_fn(int) -> bool)
    ensures
        forall|i: int|
            0 <= i < offsets(lo, hi).filter(keep).len() ==> {
                let s = #[trigger] offsets(lo, hi).filter(keep)[i];
                lo <= s < hi && keep(s)
            },
        forall|i: int, j: int|
            0 <= i < j < offsets(lo, hi).filter(keep).len() ==> offsets(lo, hi).filter(keep)[i]
                < offsets(lo, hi).filter(keep)[j],
        forall|s: int| lo <= s < hi && #[trigger] keep(s) ==> offsets(lo, hi).filter(keep).contains(s),
    decreases hi - lo,
{
    let kept = offsets(lo, hi).filter(keep);
    if hi <= lo {
        reveal(Seq::filter);
    } else {
        let before = offsets(lo, hi - 1).filter(keep);
        lemma_filter_picks(lo, hi - 1, keep);
        lemma_filter_extend(lo, hi - 1, keep);
        assert forall|s: int| lo <= s < hi && #[trigger] keep(s) implies kept.contains(s) by {
            if s == hi - 1 {
                assert(kept[kept.len() - 1] == s);
            } else {
                assert(before.contains(s));
                let i = choose|i: int| 0 <= i < before.len() && before[i] == s;
                assert(kept[i] == s);
            }
        }
    }
}

/// Appending a shift to a list appends its value to the list's values.
pub proof fn lemma_shift_values_push(shifts: Seq<usize>, shift: usize)
    ensures
        shift_values(shifts.push(shift)) == shift_values(shifts).push(shift as int),
{
    assert(shift_values(shifts.push(shift)) =~= shift_values(shifts).push(shift as int));
}

} // verus!
