use crabipie::results::SearchResults;
use crabipie::theme::{CustomJsonTheme, JsonThemeWrapper};

const DOC: &str = "{\n  \"cat\": 1,\n  \"Cat\": \"cats\"\n}";

#[test]
fn results_hold_line_and_column_of_each_match() {
    let r = SearchResults::find(DOC, "cat", false, false);
    assert_eq!(r.matches(), &vec![(1, 3), (2, 3), (2, 10)]);
    assert_eq!(r.current(), Some(0));
    assert_eq!(r.match_length(), 3);
    assert_eq!(r.indicator(), (1, 3));
}

#[test]
fn results_whole_word_and_case() {
    let r = SearchResults::find(DOC, "cat", true, true);
    assert_eq!(r.matches(), &vec![(1, 3)]);
}

#[test]
fn no_results_have_no_selection() {
    let mut r = SearchResults::find(DOC, "dog", false, false);
    assert_eq!(r.indicator(), (0, 0));
    r.next();
    assert_eq!(r.current(), None);
    r.previous();
    assert_eq!(r.current(), None);
    let empty = SearchResults::find(DOC, "", false, false);
    assert!(empty.matches().is_empty());
}

#[test]
fn next_and_previous_wrap_around() {
    let mut r = SearchResults::find(DOC, "cat", false, false);
    r.next();
    assert_eq!(r.indicator(), (2, 3));
    r.next();
    assert_eq!(r.indicator(), (3, 3));
    r.next();
    assert_eq!(r.indicator(), (1, 3));
    r.previous();
    assert_eq!(r.indicator(), (3, 3));
    r.previous();
    assert_eq!(r.indicator(), (2, 3));
}

#[test]
fn results_become_highlighter_settings() {
    let theme = JsonThemeWrapper::Custom(CustomJsonTheme::default_light());
    let mut r = SearchResults::find(DOC, "cat", false, false);
    r.next();
    let s = r.settings(theme);
    assert_eq!(s.theme, theme);
    assert_eq!(s.search_matches, vec![(1, 3), (2, 3), (2, 10)]);
    assert_eq!(s.current_match, Some((2, 3)));
    assert_eq!(s.match_length, 3);
}
