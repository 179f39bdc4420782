use vstd::prelude::*;
use crate::text::chars_of;

verus! {

/// How many line breaks stand among the first `n` characters of `s`.
pub open spec fn newlines_before(s: Seq<char>, n: int) -> nat
    decreases n,
{
    if n <= 0 {
        0
    } else {
        newlines_before(s, n - 1) + if s[n - 1] == '\n' {
            1nat
        } else {
            0nat
        }
    }
}

/// Where the line that holds position `n` of `s` begins: just after the last
/// line break before `n`, or at 0.
pub open spec fn line_start(s: Seq<char>, n: int) -> int
    decreases n,
{
    if n <= 0 {
        0
    } else if s[n - 1] == '\n' {
        n
    } else {
        line_start(s, n - 1)
    }
}

/// The (line, column) of position `offset` of `s`, both from zero and counted
/// in characters; (0, 0) for a position outside the text.
pub open spec fn line_col_model(s: Seq<char>, offset: int) -> (int, int) {
    if 0 <= offset < s.len() {
        (newlines_before(s, offset) as int, offset - line_start(s, offset))
    } else {
        (0, 0)
    }
}

proof fn lemma_line_start_bound(s: Seq<char>, n: int)
    requires
        0 <= n,
    ensures
        0 <= line_start(s, n) <= n,
    decreases n,
{
    if n > 0 && s[n - 1] != '\n' {
        lemma_line_start_bound(s, n - 1);
    }
}

proof fn lemma_newlines_bound(s: Seq<char>, n: int)
    requires
        0 <= n,
    ensures
        newlines_before(s, n) <= n,
    decreases n,
{
    if n > 0 {
        lemma_newlines_bound(s, n - 1);
    }
}

/// Converts a position of `text`, counted in characters, into the line that
/// holds it and the column within that line, both from zero. A position at
/// or past the end of the text gives (0, 0).
pub fn offset_to_line_col(text: &str, offset: usize) -> (r: (usize, usize))
    ensures
        (r.0 as int, r.1 as int) == line_col_model(text@, offset as int),
{
    let s = chars_of(text);
    let n = s.len();
    if offset >= n {
        return (0, 0);
    }
    let mut line: usize = 0;
    let mut col: usize = 0;
    let mut i: usize = 0;
    while i < offset
        invariant
            n == s@.len(),
            offset < n,
            i <= offset,
            line as int == newlines_before(s@, i as int),
            col as int == i - line_start(s@, i as int),
        decreases offset - i,
    {
        proof {
            lemma_newlines_bound(s@, i as int);
            lemma_line_start_bound(s@, i as int);
        }
        if s[i] == '\n' {
            line = line + 1;
            col = 0;
        } else {
            col = col + 1;
        }
        i = i + 1;
    }
    (line, col)
}

/// The first character of each line is at column 0 of that line: a position
/// that starts a line after `k` line breaks maps to (`k`, 0).
pub proof fn lemma_line_start_column_zero(s: Seq<char>, offset: int, k: nat)
    requires
        0 <= offset < s.len(),
        offset == 0 || s[offset - 1] == '\n',
        newlines_before(s, offset) == k,
    ensures
        line_col_model(s, offset) == (k as int, 0int),
{
}

} // verus!
