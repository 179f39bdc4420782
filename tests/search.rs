use crabipie::offsets::offset_to_line_col;
use crabipie::search::find_all;

#[test]
fn case_insensitive_whole_word_finds_first_cat() {
    assert_eq!(find_all("Cat cats scatter", "cat", false, true), vec![0]);
}

#[test]
fn case_sensitive_whole_word_finds_nothing() {
    assert_eq!(find_all("Cat cats scatter", "cat", true, true), Vec::<usize>::new());
}

#[test]
fn case_insensitive_substring_finds_three() {
    assert_eq!(find_all("Cat cats scatter", "cat", false, false), vec![0, 4, 10]);
}

#[test]
fn case_sensitive_substring() {
    assert_eq!(find_all("Cat cats scatter", "cat", true, false), vec![4, 10]);
    assert_eq!(find_all("Cat cats scatter", "Cat", true, false), vec![0]);
}

#[test]
fn empty_pattern_finds_nothing() {
    assert!(find_all("some text", "", false, false).is_empty());
    assert!(find_all("some text", "", true, true).is_empty());
    assert!(find_all("", "", false, false).is_empty());
}

#[test]
fn overlapping_matches_are_all_reported() {
    assert_eq!(find_all("aaaa", "aa", true, false), vec![0, 1, 2]);
}

#[test]
fn pattern_longer_than_text() {
    assert!(find_all("ab", "abc", true, false).is_empty());
}

#[test]
fn positions_count_characters() {
    assert_eq!(find_all("ÉCOLE école", "école", false, false), vec![0, 6]);
    assert_eq!(find_all("ÉCOLE école", "école", true, false), vec![6]);
}

#[test]
fn whole_word_at_text_edges_and_punctuation() {
    assert_eq!(find_all("cat", "cat", true, true), vec![0]);
    assert_eq!(find_all("(cat)-cat_", "cat", true, true), vec![1, 6]);
    assert!(find_all("xcat cat9", "cat", true, true).is_empty());
}

#[test]
fn first_character_of_each_line_is_column_zero() {
    let text = "ab\ncd\n\nef";
    assert_eq!(offset_to_line_col(text, 0), (0, 0));
    assert_eq!(offset_to_line_col(text, 3), (1, 0));
    assert_eq!(offset_to_line_col(text, 6), (2, 0));
    assert_eq!(offset_to_line_col(text, 7), (3, 0));
}

#[test]
fn columns_within_a_line() {
    let text = "ab\ncd\n\nef";
    assert_eq!(offset_to_line_col(text, 1), (0, 1));
    assert_eq!(offset_to_line_col(text, 2), (0, 2));
    assert_eq!(offset_to_line_col(text, 4), (1, 1));
    assert_eq!(offset_to_line_col(text, 8), (3, 1));
}

#[test]
fn out_of_range_offset_falls_back_to_origin() {
    assert_eq!(offset_to_line_col("ab\ncd", 5), (0, 0));
    assert_eq!(offset_to_line_col("ab\ncd", 100), (0, 0));
    assert_eq!(offset_to_line_col("", 0), (0, 0));
}

#[test]
fn columns_count_characters() {
    assert_eq!(offset_to_line_col("é\nüx", 3), (1, 1));
}

#[test]
fn matches_map_to_line_and_column() {
    let text = "{\n  \"cat\": 1,\n  \"dog\": \"cat\"\n}";
    let hits: Vec<(usize, usize)> = find_all(text, "cat", true, true)
        .into_iter()
        .map(|o| offset_to_line_col(text, o))
        .collect();
    assert_eq!(hits, vec![(1, 3), (2, 10)]);
}
