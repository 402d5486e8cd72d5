use string_matching::naive_string_matcher;
use string_matching::naive_string_matcher_special_pattern;

fn naive(text: &str, pattern: &str) -> Vec<usize> {
    naive_string_matcher(text.to_string(), pattern.to_string())
}

fn skipping(text: &str, pattern: &str) -> Vec<usize> {
    naive_string_matcher_special_pattern(text.to_string(), pattern.to_string())
}

#[test]
fn test_native_string_matcher() {
    // "aba" lies under the characters 1, 2 and 3 of "aabaaa".
    let result = naive_string_matcher("aabaaa".to_string(), "aba".to_string());
    assert_eq!(result, [1]);
}

#[test]
fn test_naive_string_matcher_special_pattern() {
    // "ab" lies under the characters 1, 2 and under the characters 5, 6.
    let result = naive_string_matcher_special_pattern("aabaaab".to_string(), "ab".to_string());
    assert_eq!(result, [1, 5]);
}

#[test]
fn naive_reports_overlapping_occurrences() {
    assert_eq!(naive("aaaa", "aa"), [0, 1, 2]);
    assert_eq!(naive("abababa", "aba"), [0, 2, 4]);
}

#[test]
fn skipping_finds_distinct_pattern_at_start_and_later() {
    assert_eq!(skipping("abcabc", "abc"), [0, 3]);
}

#[test]
fn naive_on_empty_text_finds_nothing() {
    assert_eq!(naive("", "a"), Vec::<usize>::new());
}

#[test]
fn skipping_on_empty_text_finds_nothing() {
    assert_eq!(skipping("", "a"), Vec::<usize>::new());
}

#[test]
fn pattern_longer_than_text_occurs_nowhere() {
    assert_eq!(naive("ab", "abc"), Vec::<usize>::new());
    assert_eq!(skipping("ab", "abc"), Vec::<usize>::new());
    assert_eq!(naive("aaa", "aaaa"), Vec::<usize>::new());
    assert_eq!(skipping("abc", "abcd"), Vec::<usize>::new());
}

#[test]
fn empty_pattern_occurs_at_every_offset() {
    assert_eq!(naive("abc", ""), [0, 1, 2, 3]);
    assert_eq!(skipping("abc", ""), [0, 1, 2, 3]);
    assert_eq!(naive("aaaa", ""), [0, 1, 2, 3, 4]);
    assert_eq!(skipping("aaaa", ""), [0, 1, 2, 3, 4]);
}

#[test]
fn empty_pattern_in_empty_text_occurs_once() {
    assert_eq!(naive("", ""), [0]);
    assert_eq!(skipping("", ""), [0]);
}

#[test]
fn pattern_equal_to_text_occurs_at_zero() {
    assert_eq!(naive("abc", "abc"), [0]);
    assert_eq!(skipping("abc", "abc"), [0]);
}

#[test]
fn occurrence_at_the_very_end_is_found() {
    assert_eq!(naive("xxab", "ab"), [2]);
    assert_eq!(skipping("xxab", "ab"), [2]);
    assert_eq!(naive("aabaaab", "ab"), [1, 5]);
}

#[test]
fn absent_pattern_gives_empty_list() {
    assert_eq!(naive("aabaaa", "abc"), Vec::<usize>::new());
    assert_eq!(skipping("aabaaa", "bc"), Vec::<usize>::new());
}

#[test]
fn single_character_pattern() {
    assert_eq!(naive("banana", "a"), [1, 3, 5]);
    assert_eq!(skipping("banana", "a"), [1, 3, 5]);
    assert_eq!(naive("aaa", "a"), [0, 1, 2]);
    assert_eq!(skipping("aaa", "a"), [0, 1, 2]);
}

#[test]
fn distinct_pattern_gives_same_shifts_from_both() {
    let cases = [
        ("aabaaab", "ab"),
        ("abcabc", "abc"),
        ("abcabcabc", "bca"),
        ("xyzxyzxy", "xyz"),
        ("abxabyabz", "ab"),
        ("the cat sat on the mat", "at"),
        ("the cat sat on the mat", "the "),
        ("", "ab"),
        ("ab", ""),
        ("abcd", "abcd"),
        ("abcd", "dcba"),
    ];
    for (text, pattern) in cases {
        assert_eq!(skipping(text, pattern), naive(text, pattern), "{:?} in {:?}", pattern, text);
    }
    assert_eq!(naive("abcabcabc", "bca"), [1, 4]);
    assert_eq!(naive("the cat sat on the mat", "at"), [5, 9, 20]);
}

#[test]
fn repeated_characters_make_skipping_miss_overlaps() {
    assert_eq!(skipping("aaaa", "aa"), [0, 2]);
    assert_eq!(skipping("aaaaa", "aa"), [0, 2]);
    assert_eq!(skipping("abababa", "aba"), [0, 4]);
    assert_eq!(naive("aaaaa", "aa"), [0, 1, 2, 3]);
}

#[test]
fn skipped_shifts_are_a_part_of_the_valid_ones() {
    let cases = [("aaaa", "aa"), ("abababa", "aba"), ("aabaabaab", "aabaab"), ("zzzzzz", "zzz")];
    for (text, pattern) in cases {
        let all = naive(text, pattern);
        let some = skipping(text, pattern);
        assert!(some.len() <= all.len());
        assert!(some.iter().all(|shift| all.contains(shift)));
        assert!(some.windows(2).all(|pair| pair[0] < pair[1]));
    }
    assert_eq!(skipping("aabaabaab", "aabaab"), [0]);
    assert_eq!(naive("aabaabaab", "aabaab"), [0, 3]);
}

#[test]
fn shifts_come_in_strictly_ascending_order() {
    let shifts = naive("abracadabra abracadabra", "a");
    assert_eq!(shifts, [0, 3, 5, 7, 10, 12, 15, 17, 19, 22]);
    assert!(shifts.windows(2).all(|pair| pair[0] < pair[1]));
}

#[test]
fn every_reported_shift_is_an_occurrence() {
    let text = "abracadabra abracadabra";
    let pattern = "abra";
    let text_chars: Vec<char> = text.chars().collect();
    let pattern_chars: Vec<char> = pattern.chars().collect();
    let shifts = naive(text, pattern);
    assert_eq!(shifts, [0, 7, 12, 19]);
    for shift in 0..=text_chars.len() {
        let occurs = shift + pattern_chars.len() <= text_chars.len()
            && text_chars[shift..shift + pattern_chars.len()] == pattern_chars[..];
        assert_eq!(shifts.contains(&shift), occurs);
    }
}

#[test]
fn same_inputs_give_same_output() {
    assert_eq!(naive("aabaaab", "ab"), naive("aabaaab", "ab"));
    assert_eq!(skipping("aabaaab", "ab"), skipping("aabaaab", "ab"));
    assert_eq!(naive("aaaa", ""), naive("aaaa", ""));
    assert_eq!(skipping("aaaa", "aa"), skipping("aaaa", "aa"));
}

#[test]
fn shifts_count_characters_not_bytes() {
    assert_eq!(naive("ααβα", "β"), [2]);
    assert_eq!(skipping("ααβα", "βα"), [2]);
    assert_eq!(naive("héllo wörld", "ö"), [7]);
    assert_eq!(naive("日本語日本", "日本"), [0, 3]);
    assert_eq!(skipping("日本語日本", "日本"), [0, 3]);
    assert_eq!(naive("éé", ""), [0, 1, 2]);
}

#[test]
fn characters_are_compared_without_normalisation() {
    // U+00E9 against U+0065 followed by U+0301.
    assert_eq!(naive("caf\u{e9}", "e\u{301}"), Vec::<usize>::new());
    assert_eq!(naive("cafe\u{301}", "e"), [3]);
    assert_eq!(naive("Aa", "a"), [1]);
}
