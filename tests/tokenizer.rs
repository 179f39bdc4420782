use crabipie::tokenizer::{tokenize, JsonToken};

fn spans(line: &str) -> Vec<(usize, usize, JsonToken)> {
    tokenize(line)
        .into_iter()
        .map(|(r, k)| (r.start, r.end, k))
        .collect()
}

#[test]
fn empty_line_has_no_spans() {
    assert!(tokenize("").is_empty());
}

#[test]
fn spans_cover_line_without_gaps() {
    let line = "  {\"name\": [1, -2.5e+3, true, false, null], \"x\": \"y\"} ";
    let s = spans(line);
    let len = line.chars().count();
    assert_eq!(s[0].0, 0);
    assert_eq!(s[s.len() - 1].1, len);
    for w in s.windows(2) {
        assert_eq!(w[0].1, w[1].0);
    }
    for sp in &s {
        assert!(sp.0 < sp.1);
    }
}

#[test]
fn tokenizing_twice_gives_same_spans() {
    let line = "{\"a\": \"b\", \"c\": [1, 2]}";
    assert_eq!(spans(line), spans(line));
}

#[test]
fn escaped_quote_stays_inside_string() {
    let s = spans("\"key\": \"a\\\"b\"");
    assert_eq!(
        s,
        vec![
            (0, 5, JsonToken::Key),
            (5, 6, JsonToken::Punctuation),
            (6, 7, JsonToken::Whitespace),
            (7, 13, JsonToken::String),
        ]
    );
}

#[test]
fn keys_and_values_by_context() {
    let s = spans("{\"a\": 1, \"b\": 2}");
    assert_eq!(
        s,
        vec![
            (0, 1, JsonToken::Punctuation),
            (1, 4, JsonToken::Key),
            (4, 5, JsonToken::Punctuation),
            (5, 6, JsonToken::Whitespace),
            (6, 7, JsonToken::Number),
            (7, 8, JsonToken::Punctuation),
            (8, 9, JsonToken::Whitespace),
            (9, 12, JsonToken::Key),
            (12, 13, JsonToken::Punctuation),
            (13, 14, JsonToken::Whitespace),
            (14, 15, JsonToken::Number),
            (15, 16, JsonToken::Punctuation),
        ]
    );
}

#[test]
fn literals_and_numbers() {
    let s = spans("[true,false,null,-1.5e+3,nul]");
    assert_eq!(
        s,
        vec![
            (0, 1, JsonToken::Punctuation),
            (1, 5, JsonToken::Boolean),
            (5, 6, JsonToken::Punctuation),
            (6, 11, JsonToken::Boolean),
            (11, 12, JsonToken::Punctuation),
            (12, 16, JsonToken::Null),
            (16, 17, JsonToken::Punctuation),
            (17, 24, JsonToken::Number),
            (24, 25, JsonToken::Punctuation),
            (25, 26, JsonToken::Whitespace),
            (26, 27, JsonToken::Whitespace),
            (27, 28, JsonToken::Whitespace),
            (28, 29, JsonToken::Punctuation),
        ]
    );
}

#[test]
fn unterminated_string_runs_to_end_of_line() {
    assert_eq!(spans("\"abc"), vec![(0, 4, JsonToken::Key)]);
    assert_eq!(spans("\"ab\\"), vec![(0, 4, JsonToken::Key)]);
}

#[test]
fn value_string_after_colon_and_key_after_comma() {
    let s = spans("\"k\":\"v\",\"w\"");
    assert_eq!(
        s,
        vec![
            (0, 3, JsonToken::Key),
            (3, 4, JsonToken::Punctuation),
            (4, 7, JsonToken::String),
            (7, 8, JsonToken::Punctuation),
            (8, 11, JsonToken::Key),
        ]
    );
}

#[test]
fn spans_count_characters_not_bytes() {
    let s = spans("\"é\": 1");
    assert_eq!(s[0], (0, 3, JsonToken::Key));
    assert_eq!(s[s.len() - 1], (5, 6, JsonToken::Number));
}
