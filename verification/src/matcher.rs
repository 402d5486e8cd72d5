//! The executable matchers.

use vstd::prelude::*;
use vstd::std_specs::iter::IteratorSpec;
use crate::shifts::{
    occurrence,
    occurs_at,
    offsets,
    shift_values,
    skipping_shifts,
    skipping_shifts_from,
    valid_shifts,
};
use crate::laws::{lemma_distinct_pattern_same_shifts, lemma_empty_pattern_everywhere};
use crate::lemmas::{
    lemma_filter_all,
    lemma_filter_extend,
    lemma_filter_none,
    lemma_filter_split,
    lemma_offsets_extend,
    lemma_shift_values_push,
};

verus! {

/// Decodes a string into its characters.
fn chars_of(s: &str) -> (chars: Vec<char>)
    ensures
        chars@ == s@,
{
    broadcast use vstd::string::group_string_axioms;

    let mut chars: Vec<char> = Vec::new();
    let mut rest = s.chars();
    loop
        invariant
            rest.obeys_prophetic_iter_laws(),
            rest.decrease() is Some,
            chars@ + rest.remaining() == s@,
        decreases rest.decrease()->0,
    {
        match rest.next() {
            Some(c) => {
                chars.push(c);
            },
            None => {
                return chars;
            },
        }
    }
}

/// Compares the pattern with the window of the text that starts at `shift`,
/// giving up at the first mismatch.
fn window_matches(text: &[char], pattern: &[char], shift: usize) -> (found: bool)
    requires
        shift + pattern.len() <= text.len(),
    ensures
        found == occurs_at(text@, pattern@, shift as int),
{
    let mut i: usize = 0;
    while i < pattern.len()
        invariant
            i <= pattern.len(),
            shift + pattern.len() <= text.len(),
            forall|j: int| 0 <= j < i ==> text@[shift + j] == #[trigger] pattern@[j],
        decreases pattern.len() - i,
    {
        if pattern[i] != text[shift + i] {
            return false;
        }
        i += 1;
    }
    true
}

/// The shifts `0..=text_len`: where the empty pattern occurs in a text of that
/// length.
fn every_shift(text_len: usize) -> (shifts: Vec<usize>)
    ensures
        shift_values(shifts@) == offsets(0, text_len + 1),
{
    let mut shifts: Vec<usize> = Vec::new();
    let mut shift: usize = 0;
    assert(shift_values(shifts@) =~= offsets(0, 0));
    while shift < text_len
        invariant
            shift <= text_len,
            shift_values(shifts@) == offsets(0, shift as int),
        decreases text_len - shift,
    {
        proof {
            lemma_shift_values_push(shifts@, shift);
            lemma_offsets_extend(0, shift as int);
        }
        shifts.push(shift);
        shift += 1;
    }
    proof {
        lemma_shift_values_push(shifts@, text_len);
        lemma_offsets_extend(0, text_len as int);
    }
    shifts.push(text_len);
    shifts
}

/// Finds every valid shift of `pattern` in `text` by comparing the pattern with
/// each window of the text in turn.
///
/// The result lists, in ascending order, every offset (counted in `char`s from
/// zero) at which the pattern occurs; overlapping occurrences are all
/// reported. The empty pattern occurs at every offset `0..=n` of a text of `n`
/// characters. A pattern longer than the text occurs nowhere.
///
/// At most `(n - m + 1) * m` character comparisons are made for a text of `n`
/// and a pattern of `m` characters.
pub fn naive_string_matcher(text: String, pattern: String) -> (shifts: Vec<usize>)
    ensures
        shift_values(shifts@) == valid_shifts(text@, pattern@),
{
    let text_chars = chars_of(text.as_str());
    let pattern_chars = chars_of(pattern.as_str());
    let n = text_chars.len();
    let m = pattern_chars.len();
    let ghost occurs = occurrence(text@, pattern@);
    if m == 0 {
        proof {
            lemma_filter_all(0, n + 1, occurs);
        }
        return every_shift(n);
    }
    let mut shifts: Vec<usize> = Vec::new();
    if m > n {
        proof {
            lemma_filter_none(0, n + 1, occurs);
            assert(shift_values(shifts@) =~= Seq::<int>::empty());
        }
        return shifts;
    }
    let last = n - m;
    let mut shift: usize = 0;
    proof {
        lemma_filter_none(0, 0, occurs);
        assert(shift_values(shifts@) =~= Seq::<int>::empty());
    }
    while shift <= last
        invariant
            text_chars@ == text@,
            pattern_chars@ == pattern@,
            n == text_chars.len(),
            m == pattern_chars.len(),
            1 <= m <= n,
            last == n - m,
            shift <= last + 1,
            occurs == occurrence(text@, pattern@),
            shift_values(shifts@) == offsets(0, shift as int).filter(occurs),
        decreases last + 1 - shift,
    {
        let found = window_matches(text_chars.as_slice(), pattern_chars.as_slice(), shift);
        proof {
            lemma_filter_extend(0, shift as int, occurs);
            lemma_shift_values_push(shifts@, shift);
        }
        if found {
            shifts.push(shift);
        }
        shift += 1;
    }
    proof {
        lemma_filter_split(0, last + 1, n + 1, occurs);
        lemma_filter_none(last + 1, n + 1, occurs);
    }
    shifts
}

/// Finds the valid shifts of `pattern` in `text` for a pattern whose characters
/// are pairwise distinct, skipping ahead after each match.
///
/// The text is scanned from left to right. After a match at shift `s` the scan
/// resumes at `s + m` for a pattern of `m` characters, without looking at the
/// shifts in between: a pattern without repeated characters cannot occur again
/// under the window it has just matched. For such a pattern the number of
/// character comparisons is linear in the length of the text. The empty
/// pattern occurs at every offset `0..=n` of a text of `n` characters, and
/// after matching it the scan moves on by one position.
///
/// That the characters of the pattern are pairwise distinct is the caller's
/// business and is not checked. If they are, the result lists every valid
/// shift in ascending order, as [`naive_string_matcher`] does. If they are
/// not, the result is still a list of valid shifts in ascending order, but a
/// valid shift that lies under a window reported before it is missing.
pub fn naive_string_matcher_special_pattern(text: String, pattern: String) -> (shifts: Vec<usize>)
    ensures
        shift_values(shifts@) == skipping_shifts(text@, pattern@),
        pattern@.no_duplicates() ==> shift_values(shifts@) == valid_shifts(text@, pattern@),
{
    let text_chars = chars_of(text.as_str());
    let pattern_chars = chars_of(pattern.as_str());
    let n = text_chars.len();
    let m = pattern_chars.len();
    proof {
        if pattern@.no_duplicates() {
            lemma_distinct_pattern_same_shifts(text@, pattern@);
        }
    }
    if m == 0 {
        proof {
            assert(pattern@ =~= Seq::<char>::empty());
            lemma_empty_pattern_everywhere(text@);
        }
        return every_shift(n);
    }
    let mut shifts: Vec<usize> = Vec::new();
    if m > n {
        assert(shift_values(shifts@) =~= Seq::<int>::empty());
        return shifts;
    }
    let last = n - m;
    let mut shift: usize = 0;
    assert(shift_values(shifts@) + skipping_shifts(text@, pattern@) =~= skipping_shifts(
        text@,
        pattern@,
    ));
    while shift <= last
        invariant
            text_chars@ == text@,
            pattern_chars@ == pattern@,
            n == text_chars.len(),
            m == pattern_chars.len(),
            1 <= m <= n,
            last == n - m,
            shift <= n,
            shift_values(shifts@) + skipping_shifts_from(text@, pattern@, shift as int)
                == skipping_shifts(text@, pattern@),
        decreases n - shift,
    {
        if window_matches(text_chars.as_slice(), pattern_chars.as_slice(), shift) {
            proof {
                let later = skipping_shifts_from(text@, pattern@, shift + m);
                lemma_shift_values_push(shifts@, shift);
                assert(shift_values(shifts@).push(shift as int) + later =~= shift_values(shifts@)
                    + (seq![shift as int] + later));
            }
            shifts.push(shift);
            shift += m;
        } else {
            shift += 1;
        }
    }
    assert(shift_values(shifts@) + Seq::<int>::empty() =~= shift_values(shifts@));
    shifts
}

} // verus!
