use fuzzpick::matcher::{char_eq_ci, fuzzy_search, get_delta, str_chars};

#[test]
fn empty_query_always_matches_with_no_hits() {
    assert_eq!(fuzzy_search("", "banana"), Some(vec![]));
    assert_eq!(fuzzy_search("", ""), Some(vec![]));
}

#[test]
fn empty_line_rejects_nonempty_query() {
    assert_eq!(fuzzy_search("a", ""), None);
}

#[test]
fn simple_prefix_match() {
    assert_eq!(fuzzy_search("ap", "apple"), Some(vec![0, 1]));
    assert_eq!(fuzzy_search("ap", "apply"), Some(vec![0, 1]));
}

#[test]
fn scattered_subsequence_match() {
    assert_eq!(fuzzy_search("an", "banana"), Some(vec![1, 2]));
    assert_eq!(fuzzy_search("ae", "apple"), Some(vec![0, 4]));
}

#[test]
fn no_match_when_not_an_ordered_subsequence() {
    assert_eq!(fuzzy_search("ap", "banana"), None);
    assert_eq!(fuzzy_search("xyz", "apple"), None);
    // both characters occur, but in the wrong order
    assert_eq!(fuzzy_search("ba", "ab"), None);
}

#[test]
fn match_is_case_insensitive() {
    assert_eq!(fuzzy_search("AP", "apple"), Some(vec![0, 1]));
    assert_eq!(fuzzy_search("ap", "APPLE"), Some(vec![0, 1]));
    assert_eq!(fuzzy_search("Ap", "aPpLe"), Some(vec![0, 1]));
}

#[test]
fn greedy_scan_takes_the_first_compatible_character() {
    assert_eq!(fuzzy_search("ab", "aabb"), Some(vec![0, 2]));
    assert_eq!(fuzzy_search("aa", "aaa"), Some(vec![0, 1]));
}

#[test]
fn query_longer_than_line_never_matches() {
    assert_eq!(fuzzy_search("apple", "ap"), None);
}

#[test]
fn positions_count_characters_not_bytes() {
    // 'é' takes two bytes but one character position: the second 'f' sits at
    // character 5, not at byte 6
    assert_eq!(fuzzy_search("ff", "café f"), Some(vec![2, 5]));
    assert_eq!(fuzzy_search("é", "café"), Some(vec![3]));
}

#[test]
fn char_comparison_folds_ascii_case_only() {
    assert!(char_eq_ci('a', 'A'));
    assert!(char_eq_ci('z', 'Z'));
    assert!(char_eq_ci('7', '7'));
    assert!(!char_eq_ci('a', 'b'));
    // non-ASCII letters are compared exactly
    assert!(!char_eq_ci('é', 'É'));
}

#[test]
fn score_of_empty_or_single_hit_is_zero() {
    assert_eq!(get_delta(&vec![]), 0);
    assert_eq!(get_delta(&vec![4]), 0);
}

#[test]
fn score_is_the_sum_of_gaps() {
    assert_eq!(get_delta(&vec![2, 3, 7]), 5);
    assert_eq!(get_delta(&vec![0, 1]), 1);
    assert_eq!(get_delta(&vec![1, 2]), 1);
    assert_eq!(get_delta(&vec![0, 10, 20]), 20);
}

#[test]
fn str_chars_collects_characters_in_order() {
    assert_eq!(str_chars("abc"), vec!['a', 'b', 'c']);
    assert_eq!(str_chars(""), Vec::<char>::new());
    assert_eq!(str_chars("café"), vec!['c', 'a', 'f', 'é']);
}
