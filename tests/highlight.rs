use crabipie::compose::{apply_search_highlight, compose, sort_spans, HighlightType};
use crabipie::session::{highlight_with, JsonHighlighter, JsonHighlighterSettings};
use crabipie::theme::{BuiltinTheme, Color, CustomJsonTheme, JsonThemeWrapper};
use std::ops::Range;

fn flat(v: Vec<(Range<usize>, HighlightType)>) -> Vec<(usize, usize, HighlightType)> {
    v.into_iter().map(|(r, k)| (r.start, r.end, k)).collect()
}

fn dark() -> JsonThemeWrapper {
    JsonThemeWrapper::Custom(CustomJsonTheme::default_dark())
}

fn syn(c: Color) -> HighlightType {
    HighlightType::Syntax(c)
}

#[test]
fn overlay_splits_span_it_meets() {
    let red = Color::from_rgb(100, 0, 0);
    let mut h = vec![(0..10, syn(red))];
    apply_search_highlight(&mut h, 3..5, HighlightType::SearchMatch);
    assert_eq!(
        flat(h),
        vec![
            (0, 3, syn(red)),
            (3, 5, HighlightType::SearchMatch),
            (5, 10, syn(red)),
        ]
    );
}

#[test]
fn overlay_over_several_spans() {
    let a = Color::from_rgb(10, 0, 0);
    let b = Color::from_rgb(0, 10, 0);
    let mut h = vec![(0..4, syn(a)), (4..8, syn(b))];
    apply_search_highlight(&mut h, 2..6, HighlightType::SearchMatch);
    assert_eq!(
        flat(h),
        vec![
            (0, 2, syn(a)),
            (2, 4, HighlightType::SearchMatch),
            (4, 6, HighlightType::SearchMatch),
            (6, 8, syn(b)),
        ]
    );
}

#[test]
fn overlay_meeting_nothing_is_added() {
    let a = Color::from_rgb(10, 0, 0);
    let mut h = vec![(0..4, syn(a))];
    apply_search_highlight(&mut h, 6..9, HighlightType::CurrentMatch);
    assert_eq!(flat(h), vec![(0, 4, syn(a)), (6, 9, HighlightType::CurrentMatch)]);
}

#[test]
fn sort_is_stable_by_start() {
    let v = vec![
        (5..6, HighlightType::SearchMatch),
        (0..2, HighlightType::CurrentMatch),
        (5..5, HighlightType::CurrentMatch),
        (2..5, HighlightType::SearchMatch),
    ];
    assert_eq!(
        flat(sort_spans(&v)),
        vec![
            (0, 2, HighlightType::CurrentMatch),
            (2, 5, HighlightType::SearchMatch),
            (5, 6, HighlightType::SearchMatch),
            (5, 5, HighlightType::CurrentMatch),
        ]
    );
}

#[test]
fn current_match_wins_over_search_match() {
    let a = Color::from_rgb(10, 0, 0);
    let base = vec![(0..10, syn(a))];
    let overlays = vec![
        (2..6, HighlightType::SearchMatch),
        (2..6, HighlightType::CurrentMatch),
    ];
    assert_eq!(
        flat(compose(base, &overlays)),
        vec![
            (0, 2, syn(a)),
            (2, 6, HighlightType::CurrentMatch),
            (6, 10, syn(a)),
        ]
    );
}

#[test]
fn out_of_order_overlay_is_sorted_into_place() {
    let a = Color::from_rgb(10, 0, 0);
    let base = vec![(3..6, syn(a))];
    let overlays = vec![(0..2, HighlightType::SearchMatch)];
    assert_eq!(
        flat(compose(base, &overlays)),
        vec![(0, 2, HighlightType::SearchMatch), (3, 6, syn(a))]
    );
}

#[test]
fn search_match_takes_precedence_over_syntax() {
    let theme = dark();
    let settings = JsonHighlighterSettings::new(theme).with_search(vec![(0, 1)], None, 3);
    let mut h = JsonHighlighter::new(&settings);
    h.change_line(0);
    let out = flat(h.highlight_line("\"abc\": 1"));
    let key = syn(theme.key_color());
    assert_eq!(out[0], (0, 1, key));
    assert_eq!(out[1], (1, 4, HighlightType::SearchMatch));
    assert_eq!(out[2], (4, 5, key));
    assert_eq!(out[3], (5, 6, syn(theme.punctuation_color())));
    assert_eq!(out[4], (6, 7, syn(theme.text_color())));
    assert_eq!(out[5], (7, 8, syn(theme.number_color())));
    assert_eq!(out.len(), 6);
}

#[test]
fn current_match_takes_precedence_in_session() {
    let theme = dark();
    let settings =
        JsonHighlighterSettings::new(theme).with_search(vec![(2, 1), (2, 7)], Some((2, 7)), 1);
    let mut h = JsonHighlighter::new(&settings);
    h.change_line(2);
    let out = flat(h.highlight_line("\"abc\": 1"));
    assert!(out.contains(&(1, 2, HighlightType::SearchMatch)));
    assert!(out.contains(&(7, 8, HighlightType::CurrentMatch)));
    assert!(!out.contains(&(7, 8, HighlightType::SearchMatch)));
}

#[test]
fn matches_of_other_lines_are_ignored() {
    let theme = dark();
    let settings = JsonHighlighterSettings::new(theme).with_search(vec![(1, 0)], Some((1, 0)), 2);
    let mut h = JsonHighlighter::new(&settings);
    h.change_line(0);
    let out = flat(h.highlight_line("12"));
    assert_eq!(out, vec![(0, 2, syn(theme.number_color()))]);
}

#[test]
fn match_past_end_of_line_is_dropped() {
    let theme = dark();
    let settings = JsonHighlighterSettings::new(theme).with_search(vec![(0, 1)], None, 5);
    let out = flat(highlight_with(&settings, 0, "123"));
    assert_eq!(out, vec![(0, 3, syn(theme.number_color()))]);
}

#[test]
fn empty_line_is_not_painted() {
    let settings = JsonHighlighterSettings::new(dark()).with_search(vec![(0, 0)], Some((0, 0)), 0);
    let h = JsonHighlighter::new(&settings);
    assert!(h.highlight_line("").is_empty());
}

#[test]
fn highlighting_twice_gives_same_spans() {
    let settings = JsonHighlighterSettings::new(JsonThemeWrapper::Builtin(BuiltinTheme::SolarizedDark))
        .with_search(vec![(0, 2)], Some((0, 2)), 2);
    let h = JsonHighlighter::new(&settings);
    let line = "{\"ab\": [true, null]}";
    assert_eq!(flat(h.highlight_line(line)), flat(h.highlight_line(line)));
}

#[test]
fn session_line_and_settings() {
    let first = JsonHighlighterSettings::new(dark());
    let mut h = JsonHighlighter::new(&first);
    assert_eq!(h.current_line(), 0);
    h.change_line(7);
    assert_eq!(h.current_line(), 7);
    let second = JsonHighlighterSettings::new(dark()).with_search(vec![(7, 0)], None, 1);
    h.update(&second);
    assert_eq!(h.current_line(), 7);
    let out = flat(h.highlight_line("ab"));
    assert_eq!(out[0], (0, 1, HighlightType::SearchMatch));
}

#[test]
fn settings_equality() {
    let a = JsonHighlighterSettings::new(dark()).with_search(vec![(1, 2)], Some((1, 2)), 3);
    let b = JsonHighlighterSettings::new(dark()).with_search(vec![(1, 2)], Some((1, 2)), 3);
    let c = JsonHighlighterSettings::new(dark()).with_search(vec![(1, 3)], Some((1, 2)), 3);
    assert!(a == b);
    assert!(a != c);
    assert!(a.duplicate() == a);
}
