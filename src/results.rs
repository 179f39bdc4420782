use vstd::prelude::*;
use crate::offsets::{line_col_model, offset_to_line_col};
use crate::search::{find_all, find_all_model, positions_view};
use crate::session::{copy_matches, JsonHighlighterSettings, SettingsView};
use crate::text::chars_of;
use crate::theme::JsonThemeWrapper;

verus! {

/// The matches of a search over a document, as (line, column) pairs in document
/// order, with the one that is selected, if any.
pub struct SearchResults {
    matches: Vec<(usize, usize)>,
    current: Option<usize>,
    match_length: usize,
}

/// The search results as plain values.
pub struct ResultsView {
    pub matches: Seq<(usize, usize)>,
    pub current: Option<usize>,
    pub match_length: usize,
}

impl View for SearchResults {
    type V = ResultsView;

    closed spec fn view(&self) -> ResultsView {
        ResultsView { matches: self.matches@, current: self.current, match_length: self.match_length }
    }
}

impl ResultsView {
    /// The selection, where there is one, is one of the matches.
    pub open spec fn wf(self) -> bool {
        match self.current {
            Some(i) => i < self.matches.len(),
            None => true,
        }
    }
}

/// The (line, column) of each position of `text`.
pub open spec fn positions_to_line_cols(text: Seq<char>, offsets: Seq<int>) -> Seq<(int, int)> {
    offsets.map_values(|o: int| line_col_model(text, o))
}

/// The pairs as integers.
pub open spec fn pairs_view(v: Seq<(usize, usize)>) -> Seq<(int, int)> {
    v.map_values(|p: (usize, usize)| (p.0 as int, p.1 as int))
}

/// The selection after moving forward: the first match where none is selected,
/// else the next one, from the last back to the first; none without matches.
pub open spec fn next_index(count: nat, current: Option<usize>) -> Option<usize> {
    if count == 0 {
        None
    } else {
        match current {
            None => Some(0usize),
            Some(i) => if i + 1 < count {
                Some((i + 1) as usize)
            } else {
                Some(0usize)
            },
        }
    }
}

/// The selection after moving back: the last match where none is selected,
/// else the previous one, from the first back to the last; none without
/// matches.
pub open spec fn previous_index(count: nat, current: Option<usize>) -> Option<usize> {
    if count == 0 {
        None
    } else {
        match current {
            Some(i) if 0 < i < count => Some((i - 1) as usize),
            _ => Some((count - 1) as usize),
        }
    }
}

impl SearchResults {
    #[verifier::type_invariant]
    spec fn selection_in_range(&self) -> bool {
        match self.current {
            Some(i) => i < self.matches@.len(),
            None => true,
        }
    }

    /// Searches `text` for `pattern` and gives every match as the (line,
    /// column) where it starts, with the first one selected. The match length
    /// is the pattern's length in characters.
    pub fn find(text: &str, pattern: &str, case_sensitive: bool, whole_word: bool) -> (r: Self)
        ensures
            r@.wf(),
            pairs_view(r@.matches) == positions_to_line_cols(
                text@,
                find_all_model(text@, pattern@, case_sensitive, whole_word),
            ),
            r@.current == (if r@.matches.len() > 0 {
                Some(0usize)
            } else {
                None
            }),
            r@.match_length == pattern@.len(),
    {
        let offsets = find_all(text, pattern, case_sensitive, whole_word);
        let ghost offs = positions_view(offsets@);
        let mut matches: Vec<(usize, usize)> = Vec::new();
        let mut i: usize = 0;
        while i < offsets.len()
            invariant
                i <= offsets@.len(),
                offs == positions_view(offsets@),
                pairs_view(matches@) == positions_to_line_cols(text@, offs.take(i as int)),
            decreases offsets@.len() - i,
        {
            let lc = offset_to_line_col(text, offsets[i]);
            let ghost before = matches@;
            matches.push(lc);
            assert(pairs_view(matches@) =~= pairs_view(before).push((lc.0 as int, lc.1 as int)));
            i = i + 1;
            assert(positions_to_line_cols(text@, offs.take(i as int)) =~= positions_to_line_cols(
                text@,
                offs.take(i - 1),
            ).push(line_col_model(text@, offs[i - 1])));
        }
        assert(offs.take(i as int) =~= offs);
        let current = if matches.len() > 0 {
            Some(0usize)
        } else {
            None
        };
        let n = chars_of(pattern).len();
        SearchResults { matches, current, match_length: n }
    }

    /// The matches, in document order.
    pub fn matches(&self) -> (m: &Vec<(usize, usize)>)
        ensures
            m@ == self@.matches,
    {
        &self.matches
    }

    /// The index of the selected match, if any.
    pub fn current(&self) -> (c: Option<usize>)
        ensures
            c == self@.current,
            self@.wf(),
    {
        proof {
            use_type_invariant(self);
        }
        self.current
    }

    /// The length in characters shared by all matches.
    pub fn match_length(&self) -> (n: usize)
        ensures
            n == self@.match_length,
    {
        self.match_length
    }

    /// Selects the next match, from the last back to the first.
    pub fn next(&mut self)
        ensures
            final(self)@.matches == old(self)@.matches,
            final(self)@.match_length == old(self)@.match_length,
            final(self)@.current == next_index(old(self)@.matches.len(), old(self)@.current),
            final(self)@.wf(),
    {
        proof {
            use_type_invariant(&*self);
        }
        let n = self.matches.len();
        if n == 0 {
            self.current = None;
        } else {
            self.current = match self.current {
                None => Some(0),
                Some(i) => Some(if i + 1 < n {
                    i + 1
                } else {
                    0
                }),
            };
        }
    }

    /// Selects the previous match, from the first back to the last.
    pub fn previous(&mut self)
        ensures
            final(self)@.matches == old(self)@.matches,
            final(self)@.match_length == old(self)@.match_length,
            final(self)@.current == previous_index(old(self)@.matches.len(), old(self)@.current),
            final(self)@.wf(),
    {
        proof {
            use_type_invariant(&*self);
        }
        let n = self.matches.len();
        if n == 0 {
            self.current = None;
        } else {
            self.current = match self.current {
                Some(i) if 0 < i && i < n => Some(i - 1),
                _ => Some(n - 1),
            };
        }
    }

    /// The figures of a "N / M matches" indicator: the 1-based number of the
    /// selected match (0 where none is selected) and the number of matches.
    pub fn indicator(&self) -> (r: (usize, usize))
        ensures
            r.1 == self@.matches.len(),
            r.0 == match self@.current {
                Some(i) => i + 1,
                None => 0,
            },
    {
        proof {
            use_type_invariant(self);
        }
        let n = self.current_number();
        (n, self.matches.len())
    }

    fn current_number(&self) -> (n: usize)
        requires
            self@.wf(),
        ensures
            n == match self.current {
                Some(i) => i + 1,
                None => 0,
            },
    {
        let n = self.matches.len();
        match self.current {
            Some(i) => {
                assert(i < n);
                i + 1
            },
            None => 0,
        }
    }

    /// Highlighter settings that show these matches, the selected one as the
    /// current match, in the given theme.
    pub fn settings(&self, theme: JsonThemeWrapper) -> (s: JsonHighlighterSettings)
        ensures
            s@ == (SettingsView {
                theme,
                search_matches: self@.matches,
                current_match: match self@.current {
                    Some(i) => Some(self@.matches[i as int]),
                    None => None,
                },
                match_length: self@.match_length,
            }),
    {
        proof {
            use_type_invariant(self);
        }
        let current = match self.current {
            Some(i) => Some(self.matches[i]),
            None => None,
        };
        let matches = copy_matches(&self.matches);
        JsonHighlighterSettings::new(theme).with_search(matches, current, self.match_length)
    }
}

} // verus!
