use vstd::prelude::*;
use core::ops::Range;
use crate::text::{chars_of, has_word_at, word_at};

verus! {

/// The classification of a span of a line.
#[derive(Debug, Clone, Copy, PartialEq, Eq, Structural)]
pub enum JsonToken {
    Key,
    String,
    Number,
    Boolean,
    Null,
    Punctuation,
    Whitespace,
}

/// A character of a number run: a digit, `.`, `-`, `e`, `E` or `+`.
pub open spec fn is_number_char(c: char) -> bool {
    ('0' <= c && c <= '9') || c == '.' || c == '-' || c == 'e' || c == 'E' || c == '+'
}

/// A character that begins a number: a digit or `-`.
pub open spec fn starts_number(c: char) -> bool {
    ('0' <= c && c <= '9') || c == '-'
}

/// How many characters of a string body follow position `j`, up to and including
/// the first unescaped `"`, or up to the end of the line.
pub open spec fn string_rest_len(s: Seq<char>, j: int) -> nat
    decreases s.len() - j,
{
    if j < 0 || j >= s.len() {
        0
    } else if s[j] == '\\' && j + 1 < s.len() {
        2 + string_rest_len(s, j + 2)
    } else if s[j] == '"' {
        1
    } else {
        1 + string_rest_len(s, j + 1)
    }
}

/// How many characters of a number run follow position `j`.
pub open spec fn number_rest_len(s: Seq<char>, j: int) -> nat
    decreases s.len() - j,
{
    if j < 0 || j >= s.len() || !is_number_char(s[j]) {
        0
    } else {
        1 + number_rest_len(s, j + 1)
    }
}

/// The length of the token that begins at position `i` of `s`.
pub open spec fn token_len(s: Seq<char>, i: int) -> nat {
    let c = s[i];
    if c == '"' {
        1 + string_rest_len(s, i + 1)
    } else if c == ':' || c == ',' || c == '{' || c == '}' || c == '[' || c == ']' {
        1
    } else if starts_number(c) {
        1 + number_rest_len(s, i + 1)
    } else if has_word_at(s, i, "true"@) {
        4
    } else if has_word_at(s, i, "false"@) {
        5
    } else if has_word_at(s, i, "null"@) {
        4
    } else {
        1
    }
}

/// The classification of the token that begins at position `i` of `s`, where
/// `key` tells whether a string there is an object key.
pub open spec fn token_kind(s: Seq<char>, i: int, key: bool) -> JsonToken {
    let c = s[i];
    if c == '"' {
        if key {
            JsonToken::Key
        } else {
            JsonToken::String
        }
    } else if c == ':' || c == ',' || c == '{' || c == '}' || c == '[' || c == ']' {
        JsonToken::Punctuation
    } else if starts_number(c) {
        JsonToken::Number
    } else if has_word_at(s, i, "true"@) || has_word_at(s, i, "false"@) {
        JsonToken::Boolean
    } else if has_word_at(s, i, "null"@) {
        JsonToken::Null
    } else {
        JsonToken::Whitespace
    }
}

/// The key/value context after the token that begins at position `i`: a `:`
/// leads to a value, a `,` back to a key.
pub open spec fn key_after(s: Seq<char>, i: int, key: bool) -> bool {
    if s[i] == ':' {
        false
    } else if s[i] == ',' {
        true
    } else {
        key
    }
}

/// The tokens of `s` from position `i` on, as (start, end, classification),
/// scanning left to right in context `key`.
pub open spec fn tokens_from(s: Seq<char>, i: int, key: bool) -> Seq<(int, int, JsonToken)>
    decreases s.len() - i,
    via tokens_from_decreases
{
    if i < 0 || i >= s.len() {
        seq![]
    } else {
        let e = i + token_len(s, i);
        seq![(i, e, token_kind(s, i, key))] + tokens_from(s, e, key_after(s, i, key))
    }
}

/// The tokens of a whole line; the context starts at "key" on every line.
pub open spec fn line_tokens(s: Seq<char>) -> Seq<(int, int, JsonToken)> {
    tokens_from(s, 0, true)
}

/// The spans of `t` are non-empty and follow one another without gap or
/// overlap from `from` to `to`.
pub open spec fn tiles<T>(t: Seq<(int, int, T)>, from: int, to: int) -> bool {
    &&& t.len() == 0 ==> from == to
    &&& t.len() > 0 ==> t[0].0 == from && t.last().1 == to
    &&& forall|j: int| 0 <= j < t.len() ==> #[trigger] t[j].0 < t[j].1
    &&& forall|j: int| 0 <= j < t.len() - 1 ==> #[trigger] t[j].1 == t[j + 1].0
}

/// The spans of a vector as (start, end, classification).
pub open spec fn spans_view<T>(v: Seq<(Range<usize>, T)>) -> Seq<(int, int, T)> {
    v.map_values(|x: (Range<usize>, T)| (x.0.start as int, x.0.end as int, x.1))
}

#[via_fn]
proof fn tokens_from_decreases(s: Seq<char>, i: int, key: bool) {
    if 0 <= i < s.len() {
        lemma_token_bound(s, i);
    }
}

proof fn lemma_string_rest_bound(s: Seq<char>, j: int)
    requires
        0 <= j <= s.len(),
    ensures
        j + string_rest_len(s, j) <= s.len(),
    decreases s.len() - j,
{
    if j < s.len() {
        if s[j] == '\\' && j + 1 < s.len() {
            lemma_string_rest_bound(s, j + 2);
        } else if s[j] != '"' {
            lemma_string_rest_bound(s, j + 1);
        }
    }
}

proof fn lemma_number_rest_bound(s: Seq<char>, j: int)
    requires
        0 <= j <= s.len(),
    ensures
        j + number_rest_len(s, j) <= s.len(),
    decreases s.len() - j,
{
    if j < s.len() && is_number_char(s[j]) {
        lemma_number_rest_bound(s, j + 1);
    }
}

/// A token never runs past the end of the line.
pub proof fn lemma_token_bound(s: Seq<char>, i: int)
    requires
        0 <= i < s.len(),
    ensures
        i + token_len(s, i) <= s.len(),
{
    reveal_strlit("true");
    reveal_strlit("false");
    reveal_strlit("null");
    lemma_string_rest_bound(s, i + 1);
    lemma_number_rest_bound(s, i + 1);
}

/// From any position of the line on, the tokens tile the rest of it.
pub proof fn lemma_tokens_tile(s: Seq<char>, i: int, key: bool)
    requires
        0 <= i <= s.len(),
    ensures
        tiles(tokens_from(s, i, key), i, s.len() as int),
    decreases s.len() - i,
{
    if i < s.len() {
        lemma_token_bound(s, i);
        let e = i + token_len(s, i);
        lemma_tokens_tile(s, e, key_after(s, i, key));
        let rest = tokens_from(s, e, key_after(s, i, key));
        let t = tokens_from(s, i, key);
        assert(t == seq![(i, e, token_kind(s, i, key))] + rest);
        assert forall|j: int| 0 <= j < t.len() - 1 implies #[trigger] t[j].1 == t[j + 1].0 by {
            if j > 0 {
                assert(t[j] == rest[j - 1]);
                assert(t[j + 1] == rest[j]);
            }
        }
        assert forall|j: int| 0 <= j < t.len() implies #[trigger] t[j].0 < t[j].1 by {
            if j > 0 {
                assert(t[j] == rest[j - 1]);
            }
        }
    }
}

/// Tokenization of a line is a function of the line alone: the same line
/// always gives the same spans, which cover the line exactly.
pub proof fn lemma_tokenize_repeatable(a: Seq<char>, b: Seq<char>)
    requires
        a == b,
    ensures
        line_tokens(a) == line_tokens(b),
        tiles(line_tokens(a), 0, a.len() as int),
{
    lemma_tokens_tile(a, 0, true);
}

fn is_number_char_exec(c: char) -> (r: bool)
    ensures
        r == is_number_char(c),
{
    ('0' <= c && c <= '9') || c == '.' || c == '-' || c == 'e' || c == 'E' || c == '+'
}

/// Scans one token that begins at position `i`: its end, its classification, and
/// the context after it.
fn scan_token(s: &Vec<char>, i: usize, key: bool) -> (r: (usize, JsonToken, bool))
    requires
        i < s@.len(),
    ensures
        r.0 == i + token_len(s@, i as int),
        r.1 == token_kind(s@, i as int, key),
        r.2 == key_after(s@, i as int, key),
{
    proof {
        lemma_token_bound(s@, i as int);
    }
    let len = s.len();
    let c = s[i];
    if c == '"' {
        let mut j: usize = i + 1;
        while j < len
            invariant
                len == s@.len(),
                s@[i as int] == '"',
                i < j <= len,
                i + 1 + string_rest_len(s@, i + 1) == j + string_rest_len(s@, j as int),
            decreases len - j,
        {
            if s[j] == '\\' && j + 1 < len {
                j = j + 2;
            } else if s[j] == '"' {
                j = j + 1;
                let kind = if key {
                    JsonToken::Key
                } else {
                    JsonToken::String
                };
                return (j, kind, key);
            } else {
                j = j + 1;
            }
        }
        let kind = if key {
            JsonToken::Key
        } else {
            JsonToken::String
        };
        (j, kind, key)
    } else if c == ':' {
        (i + 1, JsonToken::Punctuation, false)
    } else if c == ',' {
        (i + 1, JsonToken::Punctuation, true)
    } else if c == '{' || c == '}' || c == '[' || c == ']' {
        (i + 1, JsonToken::Punctuation, key)
    } else if ('0' <= c && c <= '9') || c == '-' {
        let mut j: usize = i + 1;
        while j < len && is_number_char_exec(s[j])
            invariant
                len == s@.len(),
                starts_number(s@[i as int]),
                i < j <= len,
                i + 1 + number_rest_len(s@, i + 1) == j + number_rest_len(s@, j as int),
            decreases len - j,
        {
            j = j + 1;
        }
        (j, JsonToken::Number, key)
    } else if word_at(s, i, "true") {
        proof {
            reveal_strlit("true");
        }
        (i + 4, JsonToken::Boolean, key)
    } else if word_at(s, i, "false") {
        proof {
            reveal_strlit("false");
        }
        (i + 5, JsonToken::Boolean, key)
    } else if word_at(s, i, "null") {
        proof {
            reveal_strlit("null");
        }
        (i + 4, JsonToken::Null, key)
    } else {
        (i + 1, JsonToken::Whitespace, key)
    }
}

/// The key/value context at the end of `s`, scanning from position `i` in
/// context `key`.
pub open spec fn context_after(s: Seq<char>, i: int, key: bool) -> bool
    decreases s.len() - i,
    via context_after_decreases
{
    if i < 0 || i >= s.len() {
        key
    } else {
        context_after(s, i + token_len(s, i), key_after(s, i, key))
    }
}

#[via_fn]
proof fn context_after_decreases(s: Seq<char>, i: int, key: bool) {
    if 0 <= i < s.len() {
        lemma_token_bound(s, i);
    }
}

/// Splits characters into classified spans that cover them from left to right,
/// starting in context `key`; also gives the context at the end.
fn tokenize_in_context(s: &Vec<char>, key: bool) -> (r: (Vec<(Range<usize>, JsonToken)>, bool))
    ensures
        spans_view(r.0@) == tokens_from(s@, 0, key),
        r.1 == context_after(s@, 0, key),
        tiles(spans_view(r.0@), 0, s@.len() as int),
{
    let len = s.len();
    let mut r: Vec<(Range<usize>, JsonToken)> = Vec::new();
    let mut i: usize = 0;
    let mut k = key;
    while i < len
        invariant
            len == s@.len(),
            i <= len,
            spans_view(r@) + tokens_from(s@, i as int, k) == tokens_from(s@, 0, key),
            context_after(s@, i as int, k) == context_after(s@, 0, key),
        decreases len - i,
    {
        let (e, kind, next_key) = scan_token(s, i, k);
        proof {
            lemma_token_bound(s@, i as int);
            let x = (i..e, kind);
            assert(spans_view(r@.push(x)) == spans_view(r@).push((i as int, e as int, kind)));
            assert(tokens_from(s@, i as int, k) == seq![(i as int, e as int, kind)] + tokens_from(
                s@,
                e as int,
                next_key,
            ));
            assert(spans_view(r@) + tokens_from(s@, i as int, k) == spans_view(r@).push(
                (i as int, e as int, kind),
            ) + tokens_from(s@, e as int, next_key));
        }
        r.push((i..e, kind));
        i = e;
        k = next_key;
    }
    proof {
        assert(spans_view(r@) + tokens_from(s@, i as int, k) == spans_view(r@));
        lemma_tokens_tile(s@, 0, key);
    }
    (r, k)
}

/// Splits a line, given as characters, into classified spans that cover it
/// from left to right.
pub fn tokenize_chars(s: &Vec<char>) -> (r: Vec<(Range<usize>, JsonToken)>)
    ensures
        spans_view(r@) == line_tokens(s@),
        tiles(spans_view(r@), 0, s@.len() as int),
{
    let (r, _) = tokenize_in_context(s, true);
    r
}

/// Splits a line into classified spans as `tokenize` does, but starts in the
/// given key/value context (`true`: a string is a key) instead of the key
/// context, and also gives the context at the end of the line, to be handed to
/// the next line.
pub fn tokenize_with_context(line: &str, key: bool) -> (r: (Vec<(Range<usize>, JsonToken)>, bool))
    ensures
        spans_view(r.0@) == tokens_from(line@, 0, key),
        r.1 == context_after(line@, 0, key),
        tiles(spans_view(r.0@), 0, line@.len() as int),
{
    let chars = chars_of(line);
    tokenize_in_context(&chars, key)
}

/// Splits a line into classified spans over character positions. The spans
/// follow one another without gap or overlap and cover the whole line; an empty
/// line has none.
pub fn tokenize(line: &str) -> (r: Vec<(Range<usize>, JsonToken)>)
    ensures
        spans_view(r@) == line_tokens(line@),
        tiles(spans_view(r@), 0, line@.len() as int),
        line@.len() == 0 ==> r@.len() == 0,
{
    let chars = chars_of(line);
    tokenize_chars(&chars)
}

} // verus!
