use vstd::prelude::*;
use crate::request::{AuthType, FormField, FormFieldType};
use crate::text::{chars_of, has_word_at, word_at};

verus! {

/// `p` begins `s`.
pub open spec fn has_prefix(s: Seq<char>, p: Seq<char>) -> bool {
    has_word_at(s, 0, p)
}

/// A response of this content type is kept as bytes rather than shown as text:
/// images, PDF files, octet streams, video and audio.
pub open spec fn binary_content_type(ct: Seq<char>) -> bool {
    has_prefix(ct, "image/"@) || has_prefix(ct, "application/pdf"@) || has_prefix(
        ct,
        "application/octet-stream"@,
    ) || has_prefix(ct, "video/"@) || has_prefix(ct, "audio/"@)
}

/// Whether a response of content type `ct` is kept as bytes rather than shown
/// as text.
pub fn is_binary_content_type(ct: &str) -> (r: bool)
    ensures
        r == binary_content_type(ct@),
{
    let s = chars_of(ct);
    word_at(&s, 0, "image/") || word_at(&s, 0, "application/pdf") || word_at(
        &s,
        0,
        "application/octet-stream",
    ) || word_at(&s, 0, "video/") || word_at(&s, 0, "audio/")
}

/// The value of the `Authorization` header: `Bearer ` and the token, where
/// bearer authorisation is chosen and the token is not empty.
pub fn bearer_header(auth: AuthType, token: &str) -> (r: Option<String>)
    ensures
        match r {
            Some(v) => auth == AuthType::Bearer && token@.len() > 0 && v@ == "Bearer "@ + token@,
            None => !(auth == AuthType::Bearer && token@.len() > 0),
        },
{
    if auth == AuthType::Bearer && token.unicode_len() > 0 {
        let mut v = String::from_str("Bearer ");
        v.append(token);
        Some(v)
    } else {
        None
    }
}

/// The (key, value) pairs of the active text fields, in order.
pub open spec fn urlencoded_model(fields: Seq<FormField>) -> Seq<(Seq<char>, Seq<char>)>
    decreases fields.len(),
{
    if fields.len() == 0 {
        seq![]
    } else {
        let prev = urlencoded_model(fields.drop_last());
        let f = fields.last();
        if f.spec_active() && f.field_type == FormFieldType::Text {
            prev.push((f.key@, f.value@))
        } else {
            prev
        }
    }
}

/// The pairs as plain text.
pub open spec fn string_pairs_view(v: Seq<(String, String)>) -> Seq<(Seq<char>, Seq<char>)> {
    v.map_values(|p: (String, String)| (p.0@, p.1@))
}

/// The (key, value) pairs of a URL-encoded form body: those of the fields that
/// are enabled, have a key and carry text, in order.
pub fn urlencoded_pairs(fields: &Vec<FormField>) -> (r: Vec<(String, String)>)
    ensures
        string_pairs_view(r@) == urlencoded_model(fields@),
{
    let mut r: Vec<(String, String)> = Vec::new();
    let mut i: usize = 0;
    while i < fields.len()
        invariant
            i <= fields@.len(),
            string_pairs_view(r@) == urlencoded_model(fields@.take(i as int)),
        decreases fields@.len() - i,
    {
        let f = &fields[i];
        assert(fields@.take(i + 1).drop_last() =~= fields@.take(i as int));
        assert(fields@.take(i + 1).last() == *f);
        if f.is_active() && f.field_type == FormFieldType::Text {
            let x = (f.key.clone(), f.value.clone());
            assert(string_pairs_view(r@.push(x)) =~= string_pairs_view(r@).push((f.key@, f.value@)));
            r.push(x);
        }
        i = i + 1;
    }
    assert(fields@.take(i as int) =~= fields@);
    r
}

/// The first position at or after `i` where `pat` stands in `s`.
pub open spec fn find_from(s: Seq<char>, pat: Seq<char>, i: int) -> Option<int>
    decreases s.len() + 1 - i,
{
    if i < 0 || i + pat.len() > s.len() {
        None
    } else if has_word_at(s, i, pat) {
        Some(i)
    } else {
        find_from(s, pat, i + 1)
    }
}

/// A quotation mark, single or double.
pub open spec fn is_quote(c: char) -> bool {
    c == '"' || c == '\''
}

/// `s` without the quotation marks at its start and at its end.
pub open spec fn trim_quotes(s: Seq<char>) -> Seq<char>
    decreases s.len(),
{
    if s.len() > 0 && is_quote(s[0]) {
        trim_quotes(s.drop_first())
    } else if s.len() > 0 && is_quote(s.last()) {
        trim_quotes(s.drop_last())
    } else {
        s
    }
}

/// What follows the last `/` of `s`; all of `s` where it has none.
pub open spec fn last_segment(s: Seq<char>) -> Seq<char>
    decreases s.len(),
{
    if s.len() == 0 {
        s
    } else if s.last() == '/' {
        Seq::empty()
    } else {
        last_segment(s.drop_last()).push(s.last())
    }
}

/// The name a downloaded response is saved under: from a content disposition
/// that names a file, the text after its first `filename=` (up to a second one,
/// if any) without the quotation marks around it; else the last segment of the
/// URL.
pub open spec fn filename_model(disposition: Option<Seq<char>>, url: Seq<char>) -> Seq<char> {
    match disposition {
        Some(d) => match find_from(d, "filename="@, 0) {
            Some(i) => {
                let start = i + "filename="@.len();
                let end = match find_from(d, "filename="@, start) {
                    Some(j) => j,
                    None => d.len() as int,
                };
                trim_quotes(d.subrange(start, end))
            },
            None => last_segment(url),
        },
        None => last_segment(url),
    }
}

proof fn lemma_find_from_bound(s: Seq<char>, pat: Seq<char>, i: int)
    ensures
        match find_from(s, pat, i) {
            Some(j) => i <= j && j + pat.len() <= s.len() && has_word_at(s, j, pat),
            None => true,
        },
    decreases s.len() + 1 - i,
{
    if !(i < 0 || i + pat.len() > s.len()) && !has_word_at(s, i, pat) {
        lemma_find_from_bound(s, pat, i + 1);
    }
}

/// The first position at or after `i` where `pat` stands in `s`.
fn find_word(s: &Vec<char>, pat: &str, i: usize) -> (r: Option<usize>)
    requires
        i <= s@.len(),
    ensures
        match r {
            Some(j) => find_from(s@, pat@, i as int) == Some(j as int),
            None => find_from(s@, pat@, i as int) is None,
        },
{
    let n = s.len();
    let m = pat.unicode_len();
    let mut k = i;
    while k <= n && m <= n - k
        invariant
            n == s@.len(),
            m == pat@.len(),
            i <= k,
            k <= n + 1,
            find_from(s@, pat@, i as int) == find_from(s@, pat@, k as int),
        decreases n + 1 - k,
    {
        if word_at(s, k, pat) {
            return Some(k);
        }
        if k == n {
            proof {
                if m == 0 {
                    assert(s@.subrange(k as int, k as int) =~= pat@);
                }
            }
            return None;
        }
        k = k + 1;
    }
    None
}

proof fn lemma_trim_quotes_at(s: Seq<char>, a: int, b: int)
    requires
        0 <= a <= b <= s.len(),
        forall|j: int| 0 <= j < a ==> is_quote(#[trigger] s[j]),
        forall|j: int| b <= j < s.len() ==> is_quote(#[trigger] s[j]),
        a == b || (!is_quote(s[a]) && !is_quote(s[b - 1])),
    ensures
        trim_quotes(s) == s.subrange(a, b),
    decreases s.len(),
{
    if s.len() > 0 && is_quote(s[0]) {
        if a > 0 {
            let t = s.drop_first();
            assert forall|j: int| 0 <= j < a - 1 implies is_quote(#[trigger] t[j]) by {
                assert(t[j] == s[j + 1]);
            }
            assert forall|j: int| b - 1 <= j < t.len() implies is_quote(#[trigger] t[j]) by {
                assert(t[j] == s[j + 1]);
            }
            lemma_trim_quotes_at(t, a - 1, b - 1);
            assert(t.subrange(a - 1, b - 1) =~= s.subrange(a, b));
        } else {
            // a == 0 and s[0] is a quote: then a == b, and every character is a quote
            assert(a == b);
            let t = s.drop_first();
            assert forall|j: int| 0 <= j < t.len() implies is_quote(#[trigger] t[j]) by {
                assert(t[j] == s[j + 1]);
            }
            lemma_trim_quotes_at(t, 0, 0);
            assert(t.subrange(0, 0) =~= s.subrange(a, b));
        }
    } else if s.len() > 0 && is_quote(s.last()) {
        let t = s.drop_last();
        if b == s.len() {
            assert(a == b);
            assert(false);
        }
        assert forall|j: int| 0 <= j < a implies is_quote(#[trigger] t[j]) by {
            assert(t[j] == s[j]);
        }
        assert forall|j: int| b <= j < t.len() implies is_quote(#[trigger] t[j]) by {
            assert(t[j] == s[j]);
        }
        lemma_trim_quotes_at(t, a, b);
        assert(t.subrange(a, b) =~= s.subrange(a, b));
    } else {
        if a > 0 {
            assert(is_quote(s[0]));
        }
        if b < s.len() {
            assert(is_quote(s[s.len() - 1]));
        }
        assert(s.subrange(a, b) =~= s);
    }
}

proof fn lemma_last_segment_at(s: Seq<char>, a: int)
    requires
        0 <= a <= s.len(),
        forall|j: int| a <= j < s.len() ==> #[trigger] s[j] != '/',
        a == 0 || s[a - 1] == '/',
    ensures
        last_segment(s) == s.subrange(a, s.len() as int),
    decreases s.len(),
{
    if s.len() > 0 {
        if a == s.len() {
            assert(s.subrange(a, s.len() as int) =~= Seq::<char>::empty());
        } else {
            lemma_last_segment_at(s.drop_last(), a);
            assert(s.drop_last().subrange(a, s.len() - 1).push(s.last()) =~= s.subrange(
                a,
                s.len() as int,
            ));
        }
    } else {
        assert(s.subrange(a, s.len() as int) =~= s);
    }
}

/// The last segment of a URL, as an owned string.
fn url_last_segment(url: &str) -> (r: String)
    ensures
        r@ == last_segment(url@),
{
    let s = chars_of(url);
    let mut a = s.len();
    while a > 0 && s[a - 1] != '/'
        invariant
            a <= s@.len(),
            forall|j: int| a <= j < s@.len() ==> #[trigger] s@[j] != '/',
        decreases a,
    {
        a = a - 1;
    }
    proof {
        lemma_last_segment_at(url@, a as int);
    }
    String::from_str(url.substring_char(a, s.len()))
}

/// The name a downloaded response is saved under: from a content disposition
/// that names a file, the text after `filename=` without the quotation marks
/// around it; else the last segment of the URL.
pub fn download_filename(disposition: Option<&str>, url: &str) -> (r: String)
    ensures
        r@ == filename_model(
            match disposition {
                Some(d) => Some(d@),
                None => None,
            },
            url@,
        ),
{
    match disposition {
        None => url_last_segment(url),
        Some(d) => {
            let s = chars_of(d);
            let n = s.len();
            proof {
                reveal_strlit("filename=");
            }
            match find_word(&s, "filename=", 0) {
                None => url_last_segment(url),
                Some(i) => {
                    proof {
                        lemma_find_from_bound(d@, "filename="@, 0);
                        assert(i + "filename="@.len() <= n);
                        assert("filename="@.len() == 9);
                    }
                    let start = i + 9;
                    let end = match find_word(&s, "filename=", start) {
                        Some(j) => {
                            proof {
                                lemma_find_from_bound(d@, "filename="@, start as int);
                            }
                            j
                        },
                        None => s.len(),
                    };
                    let mut a = start;
                    while a < end && (s[a] == '"' || s[a] == '\'')
                        invariant
                            start <= a <= end,
                            end <= s@.len(),
                            forall|j: int| start <= j < a ==> is_quote(#[trigger] s@[j]),
                        decreases end - a,
                    {
                        a = a + 1;
                    }
                    let mut b = end;
                    while b > a && (s[b - 1] == '"' || s[b - 1] == '\'')
                        invariant
                            a <= b <= end,
                            end <= s@.len(),
                            forall|j: int| b <= j < end ==> is_quote(#[trigger] s@[j]),
                        decreases b,
                    {
                        b = b - 1;
                    }
                    proof {
                        let part = d@.subrange(start as int, end as int);
                        assert forall|j: int| 0 <= j < a - start implies is_quote(#[trigger] part[j]) by {
                            assert(part[j] == s@[start + j]);
                        }
                        assert forall|j: int| b - start <= j < part.len() implies is_quote(
                            #[trigger] part[j],
                        ) by {
                            assert(part[j] == s@[start + j]);
                        }
                        if a < b {
                            assert(part[a - start] == s@[a as int]);
                            assert(part[b - 1 - start] == s@[b - 1]);
                        }
                        lemma_trim_quotes_at(part, a - start, b - start);
                        assert(part.subrange(a - start, b - start) =~= d@.subrange(a as int, b as int));
                    }
                    String::from_str(d.substring_char(a, b))
                },
            }
        },
    }
}

/// What `char::is_whitespace` says of one character.
pub uninterp spec fn is_ws(c: char) -> bool;

/// Relies on `char::is_whitespace`: whether a character is white space, which
/// depends on that character alone.
#[verifier::external_body]
fn whitespace(c: char) -> (r: bool)
    ensures
        r == is_ws(c),
{
    c.is_whitespace()
}

/// The first position in `[a, b)` that is not white space by `ws`, or `b`.
pub open spec fn skip_ws_forward(ws: Seq<bool>, a: int, b: int) -> int
    decreases b - a,
{
    if a < b && ws[a] {
        skip_ws_forward(ws, a + 1, b)
    } else {
        a
    }
}

/// The end of `[a, b)` once the white space at its end is left out.
pub open spec fn skip_ws_back(ws: Seq<bool>, a: int, b: int) -> int
    decreases b - a,
{
    if a < b && ws[b - 1] {
        skip_ws_back(ws, a, b - 1)
    } else {
        b
    }
}

/// `[a, b)` without the white space at its start and at its end.
pub open spec fn trimmed(ws: Seq<bool>, a: int, b: int) -> (int, int) {
    let a2 = skip_ws_forward(ws, a, b);
    (a2, skip_ws_back(ws, a2, b))
}

/// The position of the first line break at or after `i`, or the end of `s`.
pub open spec fn line_end(s: Seq<char>, i: int) -> int
    decreases s.len() - i,
{
    if i < 0 || i >= s.len() || s[i] == '\n' {
        i
    } else {
        line_end(s, i + 1)
    }
}

/// The position of the first `:` in `[a, b)`.
pub open spec fn first_colon(s: Seq<char>, a: int, b: int) -> Option<int>
    decreases b - a,
{
    if a >= b {
        None
    } else if s[a] == ':' {
        Some(a)
    } else {
        first_colon(s, a + 1, b)
    }
}

/// The header that the line `[a, b)` of `s` gives, with `ws` telling which
/// characters are white space: none for a line that is blank, is a comment
/// (starts with `#`) or has no `:`; else the trimmed text before the first `:`
/// as the name and the trimmed text after it as the value.
pub open spec fn header_of_line(s: Seq<char>, ws: Seq<bool>, a: int, b: int) -> Option<
    (Seq<char>, Seq<char>),
> {
    let (ta, tb) = trimmed(ws, a, b);
    if ta >= tb || s[ta] == '#' {
        None
    } else {
        match first_colon(s, ta, tb) {
            None => None,
            Some(c) => {
                let (ka, kb) = trimmed(ws, ta, c);
                let (va, vb) = trimmed(ws, c + 1, tb);
                Some((s.subrange(ka, kb), s.subrange(va, vb)))
            },
        }
    }
}

/// The headers of the lines of `s` from position `i` on, in order.
pub open spec fn headers_from(s: Seq<char>, ws: Seq<bool>, i: int) -> Seq<(Seq<char>, Seq<char>)>
    decreases s.len() + 1 - i,
    via headers_from_decreases
{
    if i < 0 || i > s.len() {
        seq![]
    } else {
        let e = line_end(s, i);
        let rest = headers_from(s, ws, e + 1);
        match header_of_line(s, ws, i, e) {
            Some(h) => seq![h] + rest,
            None => rest,
        }
    }
}

proof fn lemma_line_end_bound(s: Seq<char>, i: int)
    requires
        0 <= i <= s.len(),
    ensures
        i <= line_end(s, i) <= s.len(),
        line_end(s, i) < s.len() ==> s[line_end(s, i)] == '\n',
    decreases s.len() - i,
{
    if i < s.len() && s[i] != '\n' {
        lemma_line_end_bound(s, i + 1);
    }
}

#[via_fn]
proof fn headers_from_decreases(s: Seq<char>, ws: Seq<bool>, i: int) {
    if 0 <= i <= s.len() {
        lemma_line_end_bound(s, i);
    }
}

proof fn lemma_skip_bounds(ws: Seq<bool>, a: int, b: int)
    requires
        a <= b,
    ensures
        a <= skip_ws_forward(ws, a, b) <= b,
        a <= skip_ws_back(ws, a, b) <= b,
    decreases b - a,
{
    if a < b {
        if ws[a] {
            lemma_skip_bounds(ws, a + 1, b);
        }
        if ws[b - 1] {
            lemma_skip_bounds(ws, a, b - 1);
        }
    }
}

fn skip_forward(ws: &Vec<bool>, a: usize, b: usize) -> (r: usize)
    requires
        a <= b <= ws@.len(),
    ensures
        r == skip_ws_forward(ws@, a as int, b as int),
{
    let mut k = a;
    while k < b && ws[k]
        invariant
            a <= k <= b,
            b <= ws@.len(),
            skip_ws_forward(ws@, a as int, b as int) == skip_ws_forward(ws@, k as int, b as int),
        decreases b - k,
    {
        k = k + 1;
    }
    k
}

fn skip_back(ws: &Vec<bool>, a: usize, b: usize) -> (r: usize)
    requires
        a <= b <= ws@.len(),
    ensures
        r == skip_ws_back(ws@, a as int, b as int),
{
    let mut k = b;
    while k > a && ws[k - 1]
        invariant
            a <= k <= b,
            b <= ws@.len(),
            skip_ws_back(ws@, a as int, b as int) == skip_ws_back(ws@, a as int, k as int),
        decreases k,
    {
        k = k - 1;
    }
    k
}

fn trim_range(ws: &Vec<bool>, a: usize, b: usize) -> (r: (usize, usize))
    requires
        a <= b <= ws@.len(),
    ensures
        (r.0 as int, r.1 as int) == trimmed(ws@, a as int, b as int),
        a <= r.0 <= r.1 <= b,
{
    let a2 = skip_forward(ws, a, b);
    proof {
        lemma_skip_bounds(ws@, a as int, b as int);
        lemma_skip_bounds(ws@, a2 as int, b as int);
    }
    (a2, skip_back(ws, a2, b))
}

/// Parses header lines, with `ws` telling which characters of `text` are white
/// space. Each line gives a header where, once trimmed, it is not blank, does
/// not start with `#` and holds a `:`: the trimmed text before the first `:` is
/// the name, the trimmed text after it the value. Other lines are skipped.
pub fn parse_header_lines(text: &str, ws: &Vec<bool>) -> (r: Vec<(String, String)>)
    requires
        ws@.len() == text@.len(),
    ensures
        string_pairs_view(r@) == headers_from(text@, ws@, 0),
{
    let s = chars_of(text);
    let n = s.len();
    let mut r: Vec<(String, String)> = Vec::new();
    let mut i: usize = 0;
    loop
        invariant
            n == s@.len(),
            s@ == text@,
            ws@.len() == n,
            i <= n,
            string_pairs_view(r@) + headers_from(s@, ws@, i as int) == headers_from(s@, ws@, 0),
        decreases n - i,
    {
        let mut e = i;
        while e < n && s[e] != '\n'
            invariant
                n == s@.len(),
                i <= e <= n,
                line_end(s@, i as int) == line_end(s@, e as int),
            decreases n - e,
        {
            e = e + 1;
        }
        proof {
            lemma_line_end_bound(s@, i as int);
        }
        let ghost rest = headers_from(s@, ws@, e + 1);
        let ghost before = string_pairs_view(r@);
        let (ta, tb) = trim_range(ws, i, e);
        if ta < tb && s[ta] != '#' {
            let mut c = ta;
            while c < tb && s[c] != ':'
                invariant
                    ta <= c <= tb,
                    tb <= n,
                    n == s@.len(),
                    first_colon(s@, ta as int, tb as int) == first_colon(s@, c as int, tb as int),
                decreases tb - c,
            {
                c = c + 1;
            }
            if c < tb {
                let (ka, kb) = trim_range(ws, ta, c);
                let (va, vb) = trim_range(ws, c + 1, tb);
                let key = String::from_str(text.substring_char(ka, kb));
                let value = String::from_str(text.substring_char(va, vb));
                let x = (key, value);
                assert(string_pairs_view(r@.push(x)) =~= before.push((x.0@, x.1@)));
                r.push(x);
                assert(before + headers_from(s@, ws@, i as int) =~= before.push((x.0@, x.1@)) + rest);
            }
        }
        if e >= n {
            proof {
                assert(headers_from(s@, ws@, e + 1) == Seq::<(Seq<char>, Seq<char>)>::empty());
                assert(string_pairs_view(r@) =~= headers_from(s@, ws@, 0));
            }
            return r;
        }
        i = e + 1;
    }
}

/// Parses the header lines of a request: each line that, once trimmed, is not
/// blank, does not start with `#` and holds a `:` gives a header, named by the
/// trimmed text before the first `:`, with the trimmed text after it as value.
pub fn parse_headers(text: &str) -> (r: Vec<(String, String)>)
    ensures
        string_pairs_view(r@) == headers_from(text@, text@.map_values(|c: char| is_ws(c)), 0),
{
    let s = chars_of(text);
    let mut ws: Vec<bool> = Vec::new();
    let mut i: usize = 0;
    while i < s.len()
        invariant
            i <= s@.len(),
            ws@ == s@.map_values(|c: char| is_ws(c)).take(i as int),
        decreases s@.len() - i,
    {
        ws.push(whitespace(s[i]));
        i = i + 1;
        assert(ws@ =~= s@.map_values(|c: char| is_ws(c)).take(i as int));
    }
    assert(ws@ =~= text@.map_values(|c: char| is_ws(c)));
    parse_header_lines(text, &ws)
}

} // verus!
