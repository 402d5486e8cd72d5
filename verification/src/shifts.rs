//! The mathematical model: what it means for a pattern to occur in a text, and
//! the lists of shifts that the matchers compute.
//!
//! Texts and patterns are sequences of `char`; shifts are mathematical
//! integers, so that nothing here depends on the width of `usize`.

use vstd::prelude::*;

verus! {

/// The pattern occurs in the text at offset `shift`: it fits between `shift`
/// and the end of the text, and each of its characters equals the one under it.
///
/// The empty pattern occurs at every offset from zero up to and including the
/// length of the text.
pub open spec fn occurs_at(text: Seq<char>, pattern: Seq<char>, shift: int) -> bool {
    &&& 0 <= shift
    &&& shift + pattern.len() <= text.len()
    &&& forall|i: int| 0 <= i < pattern.len() ==> text[shift + i] == #[trigger] pattern[i]
}

/// `occurs_at` for a fixed text and pattern, as a predicate on offsets.
pub open spec fn occurrence(text: Seq<char>, pattern: Seq<char>) -> spec_fn(int) -> bool {
    |shift: int| occurs_at(text, pattern, shift)
}

/// The offsets `lo, lo + 1, ..., hi - 1` in ascending order; empty when
/// `hi <= lo`.
pub open spec fn offsets(lo: int, hi: int) -> Seq<int> {
    if hi <= lo {
        Seq::empty()
    } else {
        Seq::new((hi - lo) as nat, |i: int| lo + i)
    }
}

/// Every valid shift of the pattern in the text, in ascending order: the
/// offsets `0..=text.len()` with those dropped at which the pattern does not
/// occur.
pub open spec fn valid_shifts(text: Seq<char>, pattern: Seq<char>) -> Seq<int> {
    offsets(0, text.len() as int + 1).filter(occurrence(text, pattern))
}

/// How far the skipping matcher moves on after a match: the length of the
/// pattern, and one position for the empty pattern.
pub open spec fn stride(pattern: Seq<char>) -> int {
    if pattern.len() == 0 {
        1
    } else {
        pattern.len() as int
    }
}

/// What a left-to-right scan reports that starts at offset `from` and, after
/// each match, resumes behind the matched window: the first valid shift at or
/// after `from`, then the first one that does not overlap it, and so on.
pub open spec fn skipping_shifts_from(text: Seq<char>, pattern: Seq<char>, from: int) -> Seq<int>
    decreases text.len() + 1 - from,
{
    if from < 0 || from + pattern.len() > text.len() {
        Seq::empty()
    } else if occurs_at(text, pattern, from) {
        seq![from] + skipping_shifts_from(text, pattern, from + stride(pattern))
    } else {
        skipping_shifts_from(text, pattern, from + 1)
    }
}

/// The leftmost valid shifts whose windows do not overlap, in ascending order.
/// For a pattern without repeated characters these are all the valid shifts;
/// for any other pattern some valid shifts may be missing.
pub open spec fn skipping_shifts(text: Seq<char>, pattern: Seq<char>) -> Seq<int> {
    skipping_shifts_from(text, pattern, 0)
}

/// A list of machine-sized shifts read as mathematical integers.
pub open spec fn shift_values(shifts: Seq<usize>) -> Seq<int> {
    shifts.map_values(|shift: usize| shift as int)
}

} // verus!
