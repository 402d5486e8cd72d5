//! What holds of the lists of shifts, whatever the text and the pattern.

use vstd::prelude::*;
use crate::shifts::{
    occurrence,
    occurs_at,
    offsets,
    shift_values,
    skipping_shifts,
    skipping_shifts_from,
    stride,
    valid_shifts,
};
use crate::lemmas::{
    lemma_filter_all,
    lemma_filter_extend,
    lemma_filter_none,
    lemma_filter_picks,
    lemma_filter_split,
};

verus! {

/// The list of valid shifts holds exactly the offsets at which the pattern
/// occurs, each once, in strictly ascending order.
pub proof fn lemma_valid_shifts_exact(text: Seq<char>, pattern: Seq<char>)
    ensures
        forall|s: int| valid_shifts(text, pattern).contains(s) <==> occurs_at(text, pattern, s),
        forall|i: int, j: int|
            0 <= i < j < valid_shifts(text, pattern).len() ==> valid_shifts(text, pattern)[i]
                < valid_shifts(text, pattern)[j],
{
    let occurs = occurrence(text, pattern);
    let all = valid_shifts(text, pattern);
    lemma_filter_picks(0, text.len() as int + 1, occurs);
    assert forall|s: int| all.contains(s) <==> occurs_at(text, pattern, s) by {
        if occurs_at(text, pattern, s) {
            assert(occurs(s));
        }
    }
}

/// A pattern without repeated characters that occurs at `shift` occurs at no
/// other offset under the window it covers there.
pub proof fn lemma_distinct_pattern_no_overlap(
    text: Seq<char>,
    pattern: Seq<char>,
    shift: int,
    other: int,
)
    requires
        pattern.no_duplicates(),
        occurs_at(text, pattern, shift),
        shift < other < shift + pattern.len(),
    ensures
        !occurs_at(text, pattern, other),
{
    if occurs_at(text, pattern, other) {
        assert(text[other + 0] == pattern[0]);
        assert(text[shift + (other - shift)] == pattern[other - shift]);
    }
}

/// The scan that starts at `from` against all the valid shifts from there on:
/// it never reports more of them, and for a pattern without repeated
/// characters it reports them all.
proof fn lemma_skipping_against_all(text: Seq<char>, pattern: Seq<char>, from: int)
    requires
        0 <= from <= text.len() as int + 1,
    ensures
        skipping_shifts_from(text, pattern, from).len() <= offsets(from, text.len() as int + 1).filter(
            occurrence(text, pattern),
        ).len(),
        pattern.no_duplicates() ==> skipping_shifts_from(text, pattern, from) == offsets(
            from,
            text.len() as int + 1,
        ).filter(occurrence(text, pattern)),
    decreases text.len() + 1 - from,
{
    let end = text.len() as int + 1;
    let occurs = occurrence(text, pattern);
    if from + pattern.len() > text.len() {
        lemma_filter_none(from, end, occurs);
    } else {
        lemma_filter_split(from, from + 1, end, occurs);
        lemma_filter_extend(from, from, occurs);
        lemma_filter_none(from, from, occurs);
        if occurs_at(text, pattern, from) {
            let next = from + stride(pattern);
            lemma_skipping_against_all(text, pattern, next);
            lemma_filter_split(from + 1, next, end, occurs);
            if pattern.no_duplicates() {
                assert forall|s: int| from + 1 <= s < next implies !#[trigger] occurs(s) by {
                    lemma_distinct_pattern_no_overlap(text, pattern, from, s);
                }
                lemma_filter_none(from + 1, next, occurs);
            }
        } else {
            lemma_skipping_against_all(text, pattern, from + 1);
        }
    }
}

/// What the scan that starts at `from` reports: valid shifts at or after
/// `from`, in strictly ascending order.
proof fn lemma_skipping_picks(text: Seq<char>, pattern: Seq<char>, from: int)
    ensures
        forall|i: int|
            0 <= i < skipping_shifts_from(text, pattern, from).len() ==> from
                <= #[trigger] skipping_shifts_from(text, pattern, from)[i] && occurs_at(
                text,
                pattern,
                skipping_shifts_from(text, pattern, from)[i],
            ),
        forall|i: int, j: int|
            0 <= i < j < skipping_shifts_from(text, pattern, from).len() ==> skipping_shifts_from(
                text,
                pattern,
                from,
            )[i] < skipping_shifts_from(text, pattern, from)[j],
    decreases text.len() + 1 - from,
{
    let found = skipping_shifts_from(text, pattern, from);
    if from < 0 || from + pattern.len() > text.len() {
    } else if occurs_at(text, pattern, from) {
        let later = skipping_shifts_from(text, pattern, from + stride(pattern));
        lemma_skipping_picks(text, pattern, from + stride(pattern));
        assert(found == seq![from] + later);
        assert forall|i: int| 1 <= i < found.len() implies #[trigger] found[i] == later[i - 1] by {}
    } else {
        lemma_skipping_picks(text, pattern, from + 1);
        assert(found == skipping_shifts_from(text, pattern, from + 1));
    }
}

/// For a pattern whose characters are pairwise distinct, skipping ahead after
/// each match loses nothing: the skipping scan reports every valid shift.
pub proof fn lemma_distinct_pattern_same_shifts(text: Seq<char>, pattern: Seq<char>)
    requires
        pattern.no_duplicates(),
    ensures
        skipping_shifts(text, pattern) == valid_shifts(text, pattern),
{
    lemma_skipping_against_all(text, pattern, 0);
}

/// Whatever the pattern, the skipping scan reports only valid shifts, each
/// once and in strictly ascending order, and never more of them than there
/// are.
pub proof fn lemma_skipping_shifts_sound(text: Seq<char>, pattern: Seq<char>)
    ensures
        forall|i: int|
            0 <= i < skipping_shifts(text, pattern).len() ==> occurs_at(
                text,
                pattern,
                #[trigger] skipping_shifts(text, pattern)[i],
            ),
        forall|i: int, j: int|
            0 <= i < j < skipping_shifts(text, pattern).len() ==> skipping_shifts(text, pattern)[i]
                < skipping_shifts(text, pattern)[j],
        skipping_shifts(text, pattern).len() <= valid_shifts(text, pattern).len(),
{
    lemma_skipping_picks(text, pattern, 0);
    lemma_skipping_against_all(text, pattern, 0);
}

/// The empty pattern occurs at every offset from zero up to and including the
/// length of the text, and both scans say so.
pub proof fn lemma_empty_pattern_everywhere(text: Seq<char>)
    ensures
        valid_shifts(text, Seq::empty()) == offsets(0, text.len() as int + 1),
        skipping_shifts(text, Seq::empty()) == offsets(0, text.len() as int + 1),
{
    let pattern = Seq::<char>::empty();
    lemma_filter_all(0, text.len() as int + 1, occurrence(text, pattern));
    lemma_distinct_pattern_same_shifts(text, pattern);
}

/// A pattern longer than the text has no valid shift, and neither scan reports
/// one.
pub proof fn lemma_longer_pattern_nowhere(text: Seq<char>, pattern: Seq<char>)
    requires
        pattern.len() > text.len(),
    ensures
        valid_shifts(text, pattern) == Seq::<int>::empty(),
        skipping_shifts(text, pattern) == Seq::<int>::empty(),
{
    lemma_filter_none(0, text.len() as int + 1, occurrence(text, pattern));
}

/// Two lists of machine-sized shifts with the same values are the same list.
pub proof fn lemma_shift_values_injective(first: Seq<usize>, second: Seq<usize>)
    requires
        shift_values(first) == shift_values(second),
    ensures
        first == second,
{
    assert(first.len() == shift_values(first).len());
    assert(second.len() == shift_values(second).len());
    assert forall|i: int| 0 <= i < first.len() implies first[i] == second[i] by {
        assert(shift_values(first)[i] == first[i] as int);
        assert(shift_values(second)[i] == second[i] as int);
    }
    assert(first =~= second);
}

/// The naive matcher is a function of its inputs: any two results that it may
/// return for one text and one pattern are equal.
pub proof fn lemma_naive_matcher_repeatable(
    text: Seq<char>,
    pattern: Seq<char>,
    first: Seq<usize>,
    second: Seq<usize>,
)
    requires
        shift_values(first) == valid_shifts(text, pattern),
        shift_values(second) == valid_shifts(text, pattern),
    ensures
        first == second,
{
    lemma_shift_values_injective(first, second);
}

/// The skipping matcher is a function of its inputs: any two results that it
/// may return for one text and one pattern are equal.
pub proof fn lemma_skipping_matcher_repeatable(
    text: Seq<char>,
    pattern: Seq<char>,
    first: Seq<usize>,
    second: Seq<usize>,
)
    requires
        shift_values(first) == skipping_shifts(text, pattern),
        shift_values(second) == skipping_shifts(text, pattern),
    ensures
        first == second,
{
    lemma_shift_values_injective(first, second);
}

} // verus!
