use vstd::prelude::*;
use crate::text::chars_of;

verus! {

/// What `char::to_lowercase` gives for one character.
pub uninterp spec fn lower_of(c: char) -> Seq<char>;

/// What `char::is_alphanumeric` says of one character.
pub uninterp spec fn is_alnum(c: char) -> bool;

/// Relies on `char::to_lowercase`: the lower-case form of a character, which
/// depends on that character alone.
#[verifier::external_body]
fn lowercase_char(c: char) -> (r: String)
    ensures
        r@ == lower_of(c),
{
    c.to_lowercase().collect()
}

/// Relies on `char::to_string`: the string made of that one character.
#[verifier::external_body]
fn char_string(c: char) -> (r: String)
    ensures
        r@ == seq![c],
{
    c.to_string()
}

/// Relies on `char::is_alphanumeric`: whether a character is alphabetic or
/// numeric, which depends on that character alone.
#[verifier::external_body]
fn alphanumeric(c: char) -> (r: bool)
    ensures
        r == is_alnum(c),
{
    c.is_alphanumeric()
}

/// The comparison key of a character: the character itself, or its lower-case
/// form where case is ignored.
pub open spec fn char_key(c: char, case_sensitive: bool) -> Seq<char> {
    if case_sensitive {
        seq![c]
    } else {
        lower_of(c)
    }
}

/// The comparison keys of a text.
pub open spec fn text_keys(s: Seq<char>, case_sensitive: bool) -> Seq<Seq<char>> {
    s.map_values(|c: char| char_key(c, case_sensitive))
}

/// Which characters of a text are alphanumeric.
pub open spec fn word_flags(s: Seq<char>) -> Seq<bool> {
    s.map_values(|c: char| is_alnum(c))
}

/// The pattern's keys stand in the text's keys at position `i`.
pub open spec fn keys_match_at(h: Seq<Seq<char>>, p: Seq<Seq<char>>, i: int) -> bool {
    &&& 0 <= i
    &&& i + p.len() <= h.len()
    &&& forall|k: int| 0 <= k < p.len() ==> h[i + k] == #[trigger] p[k]
}

/// Neither the character before `[i, i + n)` nor the one after it, where they
/// exist, is alphanumeric.
pub open spec fn word_bounded(flags: Seq<bool>, i: int, n: int) -> bool {
    &&& (i == 0 || !flags[i - 1])
    &&& (i + n >= flags.len() || !flags[i + n])
}

/// A match of the pattern is accepted at position `i`.
pub open spec fn accepted_at(
    h: Seq<Seq<char>>,
    p: Seq<Seq<char>>,
    flags: Seq<bool>,
    whole_word: bool,
    i: int,
) -> bool {
    keys_match_at(h, p, i) && (!whole_word || word_bounded(flags, i, p.len() as int))
}

/// The accepted positions below `upto`, in increasing order; none for an empty
/// pattern.
pub open spec fn match_positions(
    h: Seq<Seq<char>>,
    p: Seq<Seq<char>>,
    flags: Seq<bool>,
    whole_word: bool,
    upto: int,
) -> Seq<int>
    decreases upto,
{
    if upto <= 0 || p.len() == 0 {
        seq![]
    } else {
        let prev = match_positions(h, p, flags, whole_word, upto - 1);
        if accepted_at(h, p, flags, whole_word, upto - 1) {
            prev.push(upto - 1)
        } else {
            prev
        }
    }
}

/// Every position of `haystack` where `pattern` occurs, under the case and
/// whole-word rules, in increasing order.
pub open spec fn find_all_model(
    haystack: Seq<char>,
    pattern: Seq<char>,
    case_sensitive: bool,
    whole_word: bool,
) -> Seq<int> {
    match_positions(
        text_keys(haystack, case_sensitive),
        text_keys(pattern, case_sensitive),
        word_flags(haystack),
        whole_word,
        haystack.len() as int,
    )
}

/// The positions as integers.
pub open spec fn positions_view(v: Seq<usize>) -> Seq<int> {
    v.map_values(|x: usize| x as int)
}

/// Finds every position of a text where a pattern occurs, given both as
/// comparison keys (one per character) and the alphanumeric flag of each
/// character of the text. The scan tries every position in turn, so matches
/// may overlap; an empty pattern has none.
pub fn find_matches(
    hay: &Vec<String>,
    pat: &Vec<String>,
    flags: &Vec<bool>,
    whole_word: bool,
) -> (r: Vec<usize>)
    requires
        flags@.len() == hay@.len(),
    ensures
        positions_view(r@) == match_positions(
            hay@.map_values(|s: String| s@),
            pat@.map_values(|s: String| s@),
            flags@,
            whole_word,
            hay@.len() as int,
        ),
{
    let ghost h = hay@.map_values(|s: String| s@);
    let ghost p = pat@.map_values(|s: String| s@);
    let n = hay.len();
    let m = pat.len();
    let mut r: Vec<usize> = Vec::new();
    if m == 0 {
        assert(positions_view(r@) =~= seq![]);
        return r;
    }
    let mut i: usize = 0;
    while i < n
        invariant
            n == hay@.len(),
            m == pat@.len(),
            m > 0,
            flags@.len() == n,
            h == hay@.map_values(|s: String| s@),
            p == pat@.map_values(|s: String| s@),
            i <= n,
            positions_view(r@) == match_positions(h, p, flags@, whole_word, i as int),
        decreases n - i,
    {
        let mut ok = m <= n - i;
        if ok {
            let mut k: usize = 0;
            while k < m && hay[i + k] == pat[k]
                invariant
                    n == hay@.len(),
                    m == pat@.len(),
                    i + m <= n,
                    h == hay@.map_values(|s: String| s@),
                    p == pat@.map_values(|s: String| s@),
                    k <= m,
                    forall|j: int| 0 <= j < k ==> h[i + j] == #[trigger] p[j],
                decreases m - k,
            {
                k = k + 1;
            }
            ok = k == m;
            proof {
                if k < m {
                    assert(h[i + k] != p[k as int]);
                }
            }
            if whole_word && ok {
                let before_ok = i == 0 || !flags[i - 1];
                let after_ok = i + m >= n || !flags[i + m];
                ok = before_ok && after_ok;
            }
        }
        assert(ok == accepted_at(h, p, flags@, whole_word, i as int));
        if ok {
            assert(positions_view(r@.push(i)) =~= positions_view(r@).push(i as int));
            r.push(i);
        }
        i = i + 1;
    }
    r
}

/// Every position (counted in characters) of `haystack` where `pattern` occurs.
/// Without case sensitivity, characters are compared by their lower-case forms,
/// one character at a time, so positions always count characters of the
/// haystack itself. With `whole_word`, a match is kept only where the
/// characters just before and just after it, where they exist, are not
/// alphanumeric. An empty pattern has no match.
pub fn find_all(haystack: &str, pattern: &str, case_sensitive: bool, whole_word: bool) -> (r: Vec<
    usize,
>)
    ensures
        positions_view(r@) == find_all_model(haystack@, pattern@, case_sensitive, whole_word),
        pattern@.len() == 0 ==> r@.len() == 0,
{
    let hs = chars_of(haystack);
    let ps = chars_of(pattern);
    let hay = keys_of(&hs, case_sensitive);
    let pat = keys_of(&ps, case_sensitive);
    let mut flags: Vec<bool> = Vec::new();
    let mut i: usize = 0;
    while i < hs.len()
        invariant
            i <= hs@.len(),
            flags@ == word_flags(hs@).take(i as int),
        decreases hs@.len() - i,
    {
        flags.push(alphanumeric(hs[i]));
        i = i + 1;
        assert(flags@ =~= word_flags(hs@).take(i as int));
    }
    assert(flags@ =~= word_flags(hs@));
    let r = find_matches(&hay, &pat, &flags, whole_word);
    assert(hay@.map_values(|s: String| s@) =~= text_keys(hs@, case_sensitive));
    assert(pat@.map_values(|s: String| s@) =~= text_keys(ps@, case_sensitive));
    assert(positions_view(r@).len() == r@.len());
    r
}

/// The comparison keys of a text, one string per character.
fn keys_of(s: &Vec<char>, case_sensitive: bool) -> (r: Vec<String>)
    ensures
        r@.len() == s@.len(),
        forall|i: int| 0 <= i < s@.len() ==> (#[trigger] r@[i])@ == char_key(s@[i], case_sensitive),
{
    let mut r: Vec<String> = Vec::new();
    let mut i: usize = 0;
    while i < s.len()
        invariant
            i <= s@.len(),
            r@.len() == i,
            forall|j: int| 0 <= j < i ==> (#[trigger] r@[j])@ == char_key(s@[j], case_sensitive),
        decreases s@.len() - i,
    {
        let c = s[i];
        let key = if case_sensitive {
            char_string(c)
        } else {
            lowercase_char(c)
        };
        r.push(key);
        i = i + 1;
    }
    r
}

} // verus!
