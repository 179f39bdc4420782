use vstd::prelude::*;
use core::ops::Range;
use crate::compose::{
    compose, composed, lemma_composed_tiles, overlay_within, sorted_by_start, HighlightType,
    SpanModel,
};
use crate::text::chars_of;
use crate::theme::JsonThemeWrapper;
use crate::tokenizer::{JsonToken, lemma_tokens_tile, line_tokens, spans_view, tiles, tokenize_chars};

verus! {

/// What the highlighter is told to show: a theme, and the search matches as
/// (line, column) pairs with the current one among them and their common length.
#[derive(Debug, Clone)]
pub struct JsonHighlighterSettings {
    pub theme: JsonThemeWrapper,
    pub search_matches: Vec<(usize, usize)>,
    pub current_match: Option<(usize, usize)>,
    pub match_length: usize,
}

/// The settings as plain values.
pub struct SettingsView {
    pub theme: JsonThemeWrapper,
    pub search_matches: Seq<(usize, usize)>,
    pub current_match: Option<(usize, usize)>,
    pub match_length: usize,
}

impl View for JsonHighlighterSettings {
    type V = SettingsView;

    open spec fn view(&self) -> SettingsView {
        SettingsView {
            theme: self.theme,
            search_matches: self.search_matches@,
            current_match: self.current_match,
            match_length: self.match_length,
        }
    }
}

/// A copy of a list of (line, column) pairs.
pub(crate) fn copy_matches(v: &Vec<(usize, usize)>) -> (r: Vec<(usize, usize)>)
    ensures
        r@ == v@,
{
    let mut r: Vec<(usize, usize)> = Vec::new();
    let mut i: usize = 0;
    while i < v.len()
        invariant
            i <= v@.len(),
            r@ == v@.take(i as int),
        decreases v@.len() - i,
    {
        r.push(v[i]);
        i = i + 1;
        assert(r@ =~= v@.take(i as int));
    }
    assert(v@.take(i as int) =~= v@);
    r
}

impl JsonHighlighterSettings {
    /// Settings with the given theme and no search.
    pub fn new(theme: JsonThemeWrapper) -> (s: Self)
        ensures
            s@ == (SettingsView {
                theme,
                search_matches: Seq::empty(),
                current_match: None,
                match_length: 0,
            }),
    {
        let s = JsonHighlighterSettings {
            theme,
            search_matches: Vec::new(),
            current_match: None,
            match_length: 0,
        };
        assert(s@.search_matches =~= Seq::empty());
        s
    }

    /// The same theme, with the given search matches.
    pub fn with_search(
        self,
        matches: Vec<(usize, usize)>,
        current: Option<(usize, usize)>,
        length: usize,
    ) -> (s: Self)
        ensures
            s@ == (SettingsView {
                theme: self.theme,
                search_matches: matches@,
                current_match: current,
                match_length: length,
            }),
    {
        let mut s = self;
        s.search_matches = matches;
        s.current_match = current;
        s.match_length = length;
        s
    }

    /// A copy of these settings.
    pub fn duplicate(&self) -> (s: Self)
        ensures
            s@ == self@,
    {
        JsonHighlighterSettings {
            theme: self.theme,
            search_matches: copy_matches(&self.search_matches),
            current_match: self.current_match,
            match_length: self.match_length,
        }
    }
}

impl PartialEq for JsonHighlighterSettings {
    fn eq(&self, other: &Self) -> (r: bool) {
        if self.theme != other.theme || self.match_length != other.match_length
            || self.search_matches.len() != other.search_matches.len() {
            return false;
        }
        let same_current = match (self.current_match, other.current_match) {
            (None, None) => true,
            (Some(a), Some(b)) => a.0 == b.0 && a.1 == b.1,
            _ => false,
        };
        if !same_current {
            return false;
        }
        let mut i: usize = 0;
        while i < self.search_matches.len()
            invariant
                self.search_matches@.len() == other.search_matches@.len(),
                i <= self.search_matches@.len(),
                forall|j: int| 0 <= j < i ==> self.search_matches@[j] == other.search_matches@[j],
            decreases self.search_matches@.len() - i,
        {
            let a = self.search_matches[i];
            let b = other.search_matches[i];
            if a.0 != b.0 || a.1 != b.1 {
                return false;
            }
            i = i + 1;
        }
        assert(self.search_matches@ =~= other.search_matches@);
        true
    }
}

impl vstd::std_specs::cmp::PartialEqSpecImpl for JsonHighlighterSettings {
    open spec fn obeys_eq_spec() -> bool {
        true
    }

    open spec fn eq_spec(&self, other: &Self) -> bool {
        self@ == other@
    }
}

/// The overlay that a match at (`line`, `col`) puts on line `line_no` of
/// length `len`: none where the match is on another line or runs past the end
/// of the line.
pub open spec fn match_overlay(
    m: (usize, usize),
    line_no: usize,
    match_length: usize,
    len: int,
    kind: HighlightType,
) -> Option<SpanModel> {
    if m.0 == line_no && m.1 + match_length <= len {
        Some((m.1 as int, m.1 + match_length, kind))
    } else {
        None
    }
}

/// The search-match overlays that `matches` put on line `line_no`, in order.
pub open spec fn search_overlays(
    matches: Seq<(usize, usize)>,
    line_no: usize,
    match_length: usize,
    len: int,
) -> Seq<SpanModel>
    decreases matches.len(),
{
    if matches.len() == 0 {
        seq![]
    } else {
        let prev = search_overlays(matches.drop_last(), line_no, match_length, len);
        match match_overlay(matches.last(), line_no, match_length, len, HighlightType::SearchMatch) {
            Some(o) => prev.push(o),
            None => prev,
        }
    }
}

/// All overlays of line `line_no`: the search matches, then the current match.
pub open spec fn line_overlays(st: SettingsView, line_no: usize, len: int) -> Seq<SpanModel> {
    let searches = search_overlays(st.search_matches, line_no, st.match_length, len);
    match st.current_match {
        Some(m) => match match_overlay(
            m,
            line_no,
            st.match_length,
            len,
            HighlightType::CurrentMatch,
        ) {
            Some(o) => searches.push(o),
            None => searches,
        },
        None => searches,
    }
}

/// The syntax spans of a line: its tokens, each in its theme colour.
pub open spec fn syntax_spans(theme: JsonThemeWrapper, text: Seq<char>) -> Seq<SpanModel> {
    line_tokens(text).map_values(
        |t: (int, int, JsonToken)| (t.0, t.1, HighlightType::Syntax(theme.spec_color(t.2))),
    )
}

/// The painted spans of line `line_no` whose text is `text`: none for an empty
/// line, else its syntax spans with its overlays laid over them, by start.
pub open spec fn highlight_model(st: SettingsView, line_no: usize, text: Seq<char>) -> Seq<
    SpanModel,
> {
    if text.len() == 0 {
        seq![]
    } else {
        composed(syntax_spans(st.theme, text), line_overlays(st, line_no, text.len() as int))
    }
}

proof fn lemma_search_overlays_within(
    matches: Seq<(usize, usize)>,
    line_no: usize,
    match_length: usize,
    len: int,
)
    requires
        match_length > 0,
    ensures
        forall|j: int|
            0 <= j < search_overlays(matches, line_no, match_length, len).len() ==> overlay_within(
                #[trigger] search_overlays(matches, line_no, match_length, len)[j],
                0,
                len,
            ),
    decreases matches.len(),
{
    if matches.len() > 0 {
        lemma_search_overlays_within(matches.drop_last(), line_no, match_length, len);
        let prev = search_overlays(matches.drop_last(), line_no, match_length, len);
        let cur = search_overlays(matches, line_no, match_length, len);
        match match_overlay(matches.last(), line_no, match_length, len, HighlightType::SearchMatch) {
            Some(o) => {
                assert(cur == prev.push(o));
                assert forall|j: int| 0 <= j < cur.len() implies overlay_within(
                    #[trigger] cur[j],
                    0,
                    len,
                ) by {
                    if j < prev.len() {
                        assert(cur[j] == prev[j]);
                    }
                }
            },
            None => {},
        }
    }
}

proof fn lemma_line_overlays_within(st: SettingsView, line_no: usize, len: int)
    requires
        st.match_length > 0,
    ensures
        forall|j: int|
            0 <= j < line_overlays(st, line_no, len).len() ==> overlay_within(
                #[trigger] line_overlays(st, line_no, len)[j],
                0,
                len,
            ),
{
    lemma_search_overlays_within(st.search_matches, line_no, st.match_length, len);
}

proof fn lemma_syntax_spans_tile(theme: JsonThemeWrapper, text: Seq<char>)
    ensures
        tiles(syntax_spans(theme, text), 0, text.len() as int),
{
    lemma_tokens_tile(text, 0, true);
    let t = line_tokens(text);
    let u = syntax_spans(theme, text);
    assert forall|j: int| 0 <= j < u.len() implies #[trigger] u[j].0 < u[j].1 by {
        assert(t[j].0 < t[j].1);
    }
    assert forall|j: int| 0 <= j < u.len() - 1 implies #[trigger] u[j].1 == u[j + 1].0 by {
        assert(t[j].1 == t[j + 1].0);
    }
    if u.len() > 0 {
        assert(u.last() == u[u.len() - 1]);
        assert(t.last() == t[t.len() - 1]);
    }
}

/// With a non-empty match length, the painted spans of a line tile it: they
/// follow one another from its first character to its last, without gap or
/// overlap.
pub proof fn lemma_highlight_tiles(st: SettingsView, line_no: usize, text: Seq<char>)
    requires
        st.match_length > 0,
    ensures
        tiles(highlight_model(st, line_no, text), 0, text.len() as int),
{
    if text.len() > 0 {
        lemma_syntax_spans_tile(st.theme, text);
        lemma_line_overlays_within(st, line_no, text.len() as int);
        lemma_composed_tiles(
            syntax_spans(st.theme, text),
            line_overlays(st, line_no, text.len() as int),
            0,
            text.len() as int,
        );
    }
}

/// Pushes the overlay of match `m` onto `overlays` where it falls on line
/// `line_no`, of length `len`.
fn push_match_overlay(
    overlays: &mut Vec<(Range<usize>, HighlightType)>,
    m: (usize, usize),
    line_no: usize,
    match_length: usize,
    len: usize,
    kind: HighlightType,
)
    ensures
        spans_view(final(overlays)@) == match match_overlay(m, line_no, match_length, len as int, kind) {
            Some(o) => spans_view(old(overlays)@).push(o),
            None => spans_view(old(overlays)@),
        },
{
    if m.0 == line_no && m.1 <= len && match_length <= len - m.1 {
        let x = (m.1..m.1 + match_length, kind);
        assert(spans_view(overlays@.push(x)) =~= spans_view(overlays@).push(
            (m.1 as int, m.1 + match_length, kind),
        ));
        overlays.push(x);
    }
}

/// The overlays of line `line_no`, of length `len`, under settings `st`.
fn overlays_for_line(st: &JsonHighlighterSettings, line_no: usize, len: usize) -> (r: Vec<
    (Range<usize>, HighlightType),
>)
    ensures
        spans_view(r@) == line_overlays(st@, line_no, len as int),
{
    let mut r: Vec<(Range<usize>, HighlightType)> = Vec::new();
    let ms = &st.search_matches;
    let mut i: usize = 0;
    assert(spans_view(r@) =~= seq![]);
    assert(ms@.take(0) =~= seq![]);
    while i < ms.len()
        invariant
            i <= ms@.len(),
            ms@ == st.search_matches@,
            spans_view(r@) == search_overlays(ms@.take(i as int), line_no, st.match_length, len as int),
        decreases ms@.len() - i,
    {
        assert(ms@.take(i + 1).drop_last() =~= ms@.take(i as int));
        assert(ms@.take(i + 1).last() == ms@[i as int]);
        push_match_overlay(&mut r, ms[i], line_no, st.match_length, len, HighlightType::SearchMatch);
        i = i + 1;
    }
    assert(ms@.take(i as int) =~= ms@);
    if let Some(m) = st.current_match {
        push_match_overlay(&mut r, m, line_no, st.match_length, len, HighlightType::CurrentMatch);
    }
    r
}

/// The syntax spans of a line given as characters.
fn syntax_spans_of(theme: &JsonThemeWrapper, chars: &Vec<char>) -> (r: Vec<
    (Range<usize>, HighlightType),
>)
    ensures
        spans_view(r@) == syntax_spans(*theme, chars@),
{
    let tokens = tokenize_chars(chars);
    let ghost tv = spans_view(tokens@);
    let mut r: Vec<(Range<usize>, HighlightType)> = Vec::new();
    let mut i: usize = 0;
    while i < tokens.len()
        invariant
            i <= tokens@.len(),
            tv == spans_view(tokens@),
            tv == line_tokens(chars@),
            spans_view(r@) == syntax_spans(*theme, chars@).take(i as int),
        decreases tokens@.len() - i,
    {
        let s = tokens[i].0.start;
        let e = tokens[i].0.end;
        let k = tokens[i].1;
        let color = theme.token_color(k);
        let x = (s..e, HighlightType::Syntax(color));
        assert(spans_view(r@.push(x)) =~= spans_view(r@).push((s as int, e as int, HighlightType::Syntax(color))));
        assert(tv[i as int] == (s as int, e as int, k));
        r.push(x);
        i = i + 1;
        assert(spans_view(r@) =~= syntax_spans(*theme, chars@).take(i as int));
    }
    assert(syntax_spans(*theme, chars@).take(i as int) =~= syntax_spans(*theme, chars@));
    r
}

/// The painted spans of line `line_no` whose text is `line`, under settings
/// `st`: its tokens in their theme colours, with the search matches of that
/// line, then the current match, laid over them, sorted by start. Matches that
/// run past the end of the line are left out; an empty line has no spans.
pub fn highlight_with(st: &JsonHighlighterSettings, line_no: usize, line: &str) -> (r: Vec<
    (Range<usize>, HighlightType),
>)
    ensures
        spans_view(r@) == highlight_model(st@, line_no, line@),
        sorted_by_start(spans_view(r@)),
        st@.match_length > 0 ==> tiles(spans_view(r@), 0, line@.len() as int),
{
    proof {
        if st@.match_length > 0 {
            lemma_highlight_tiles(st@, line_no, line@);
        }
    }
    let chars = chars_of(line);
    let len = chars.len();
    if len == 0 {
        let r: Vec<(Range<usize>, HighlightType)> = Vec::new();
        assert(spans_view(r@) =~= seq![]);
        return r;
    }
    let base = syntax_spans_of(&st.theme, &chars);
    let overlays = overlays_for_line(st, line_no, len);
    compose(base, &overlays)
}

/// The highlighter state: the line about to be painted and the active settings.
pub struct JsonHighlighter {
    current_line_number: usize,
    settings: JsonHighlighterSettings,
}

/// The highlighter state as plain values.
pub struct HighlighterView {
    pub line: usize,
    pub settings: SettingsView,
}

impl View for JsonHighlighter {
    type V = HighlighterView;

    closed spec fn view(&self) -> HighlighterView {
        HighlighterView { line: self.current_line_number, settings: self.settings@ }
    }
}

impl JsonHighlighter {
    /// A highlighter at line 0 with a copy of the given settings.
    pub fn new(settings: &JsonHighlighterSettings) -> (h: Self)
        ensures
            h@.line == 0,
            h@.settings == settings@,
    {
        JsonHighlighter { current_line_number: 0, settings: settings.duplicate() }
    }

    /// Replaces the settings wholesale; the line stays.
    pub fn update(&mut self, new_settings: &JsonHighlighterSettings)
        ensures
            final(self)@.line == old(self)@.line,
            final(self)@.settings == new_settings@,
    {
        self.settings = new_settings.duplicate();
    }

    /// Sets the line that the next call of `highlight_line` paints.
    pub fn change_line(&mut self, line: usize)
        ensures
            final(self)@.line == line,
            final(self)@.settings == old(self)@.settings,
    {
        self.current_line_number = line;
    }

    /// The line that the next call of `highlight_line` paints.
    pub fn current_line(&self) -> (n: usize)
        ensures
            n == self@.line,
    {
        self.current_line_number
    }

    /// Paints `line` as the current line under the active settings.
    pub fn highlight_line(&self, line: &str) -> (r: Vec<(Range<usize>, HighlightType)>)
        ensures
            spans_view(r@) == highlight_model(self@.settings, self@.line, line@),
            sorted_by_start(spans_view(r@)),
            self@.settings.match_length > 0 ==> tiles(spans_view(r@), 0, line@.len() as int),
    {
        highlight_with(&self.settings, self.current_line_number, line)
    }
}

/// Highlighting is a function of the settings, the line number and the text:
/// painting the same line twice gives the same spans.
pub proof fn lemma_highlight_repeatable(
    a: SettingsView,
    b: SettingsView,
    line_no: usize,
    text: Seq<char>,
)
    requires
        a == b,
    ensures
        highlight_model(a, line_no, text) == highlight_model(b, line_no, text),
{
}

} // verus!
