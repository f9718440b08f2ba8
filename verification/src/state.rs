//! The state of the viewer, as mathematics: what is seen, and how each operation changes it.

use vstd::prelude::*;

use crate::bridge::{ascii_lowered, lowercase};
use crate::json::{looks_like, pretty};
use crate::keys::{Action, Key, KeyCode};
use crate::matching::{
    ascii_lowered_rows, finds, first_from, increasing, law_matching_rows, lemma_first_from,
    lowered, matching_rows,
};
use crate::text::trimmed;

verus! {

/// What typed characters are for.
#[derive(Clone, Copy, PartialEq, Eq, Structural, Debug)]
pub enum InputMode {
    Normal,
    Search,
    Filter,
}

/// The state of the viewer.
#[verifier::ext_equal]
pub struct State {
    /// The lines of the log.
    pub lines: Seq<Seq<char>>,
    /// The first row of the window.
    pub offset: int,
    /// The selected row.
    pub cursor: int,
    pub filename: Seq<char>,
    pub show_detail: bool,
    pub follow: bool,
    pub input_mode: InputMode,
    /// What has been typed into the input bar.
    pub input_buf: Seq<char>,
    pub search_query: Seq<char>,
    /// The rows that the search found.
    pub search_matches: Seq<usize>,
    /// The match last gone to, by its place among the matches.
    pub search_match_idx: Option<usize>,
    pub filter_query: Seq<char>,
    /// The lines that pass the filter; `None` without a filter.
    pub filtered_indices: Option<Seq<usize>>,
}

impl State {
    /// How many rows there are: the lines that pass the filter, or all lines.
    pub open spec fn visible_count(self) -> int {
        match self.filtered_indices {
            Some(f) => f.len() as int,
            None => self.lines.len() as int,
        }
    }

    /// The line that a row shows; zero for a row that a filter leaves no line for.
    pub open spec fn real_index(self, row: int) -> int {
        match self.filtered_indices {
            Some(f) => if 0 <= row < f.len() {
                f[row] as int
            } else {
                0
            },
            None => row,
        }
    }

    /// The text of a row.
    pub open spec fn visible_line(self, row: int) -> Seq<char> {
        self.lines[self.real_index(row)]
    }

    /// The texts of all rows.
    pub open spec fn visible_lines(self) -> Seq<Seq<char>> {
        Seq::new(self.visible_count() as nat, |row: int| self.visible_line(row))
    }

    /// The rows from `start` up to `end`, as far as there are any: for each its line's index and
    /// text.
    pub open spec fn rows(self, start: int, end: int) -> Seq<(int, Seq<char>)> {
        let stop = if end < self.visible_count() {
            end
        } else {
            self.visible_count()
        };
        let n = if start < stop {
            stop - start
        } else {
            0
        };
        Seq::new(
            n as nat,
            |i: int| (self.real_index(start + i), self.visible_line(start + i)),
        )
    }

    /// The last row; zero where there is none.
    pub open spec fn max_line(self) -> int {
        if self.visible_count() > 0 {
            self.visible_count() - 1
        } else {
            0
        }
    }

    /// Whether the filter, the matches and the window fit the lines:
    ///
    /// - the filter holds lines that its query finds, each once and in order;
    /// - the matches are rows that the search query finds, each once and in order, and none
    ///   without a query;
    /// - where there are matches, one of them is the current one;
    /// - the selected row is a row (or zero where there is none), and not above the window.
    pub open spec fn wf(self) -> bool {
        self.rows_wf() && self.search_wf()
    }

    /// What of this does not concern the matches.
    pub open spec fn rows_wf(self) -> bool {
        &&& self.lines.len() <= usize::MAX
        &&& self.filter_wf()
        &&& 0 <= self.offset <= self.cursor <= self.max_line()
    }

    pub open spec fn filter_wf(self) -> bool {
        match self.filtered_indices {
            Some(f) => {
                &&& increasing(f)
                &&& f.len() <= usize::MAX
                &&& forall|i: int|
                    0 <= i < f.len() ==> (#[trigger] f[i]) < self.lines.len() && finds(
                        self.filter_query,
                        self.lines[f[i] as int],
                    )
            },
            None => true,
        }
    }

    pub open spec fn search_wf(self) -> bool {
        let m = self.search_matches;
        &&& increasing(m)
        &&& m.len() <= usize::MAX
        &&& forall|i: int|
            0 <= i < m.len() ==> (#[trigger] m[i]) < self.visible_count() && finds(
                self.search_query,
                self.visible_line(m[i] as int),
            )
        &&& self.search_query.len() == 0 ==> m.len() == 0
        &&& match self.search_match_idx {
            Some(k) => k < m.len(),
            None => m.len() == 0,
        }
    }

    /// The text of the selected row: that of the first line where a filter leaves no row, and
    /// nothing where there is no line.
    pub open spec fn selected_line(self) -> Seq<char> {
        let i = self.real_index(self.cursor);
        if 0 <= i < self.lines.len() {
            self.lines[i]
        } else {
            seq![]
        }
    }

    /// The selected text for reading: pretty-printed where it looks like JSON, as it is elsewhere.
    pub open spec fn selected_detail(self) -> (Seq<char>, bool) {
        let text = trimmed(self.selected_line());
        if looks_like(text) {
            (pretty(text), true)
        } else {
            (self.selected_line(), false)
        }
    }

    /// How many rows the log shows in a terminal of `total` rows: what the input bar and the
    /// detail panel leave, without a border above and below.
    pub open spec fn log_height(self, total: int) -> int {
        let rest = if self.input_mode == InputMode::Normal {
            total
        } else {
            total - 1
        };
        let pane = if self.show_detail {
            rest / 2
        } else {
            rest
        };
        if pane > 2 {
            pane - 2
        } else {
            0
        }
    }

    /// Without a search query there is no match.
    pub open spec fn idle_search_wf(self) -> bool {
        self.search_query.len() == 0 ==> self.search_matches.len() == 0 && self.search_match_idx
            is None
    }

    /// Whether the selected row lies in a window of `h` rows.
    pub open spec fn in_window(self, h: int) -> bool {
        self.offset <= self.cursor < self.offset + h
    }

    /// Moves a window of `h` rows as little as possible, so that it holds the selected row.
    pub open spec fn ensure_visible(self, h: int) -> State {
        if self.cursor < self.offset {
            State { offset: self.cursor, ..self }
        } else if h > 0 && self.cursor >= self.offset + h {
            State { offset: self.cursor - h + 1, ..self }
        } else {
            self
        }
    }

    /// Selects a row.
    pub open spec fn select(self, row: int, h: int) -> State {
        State { cursor: row, ..self }.ensure_visible(h)
    }

    pub open spec fn cursor_down(self, n: int, h: int) -> State {
        self.select(
            if self.cursor + n <= self.max_line() {
                self.cursor + n
            } else {
                self.max_line()
            },
            h,
        )
    }

    pub open spec fn cursor_up(self, n: int, h: int) -> State {
        self.select(
            if n <= self.cursor {
                self.cursor - n
            } else {
                0
            },
            h,
        )
    }

    pub open spec fn goto_top(self) -> State {
        State { cursor: 0, offset: 0, ..self }
    }

    pub open spec fn goto_bottom(self, h: int) -> State {
        self.select(self.max_line(), h)
    }

    pub open spec fn toggle_detail(self) -> State {
        State { show_detail: !self.show_detail, ..self }
    }

    /// In follow mode, selects the last row.
    pub open spec fn auto_follow(self, h: int) -> State {
        if self.follow && self.visible_count() > 0 {
            self.select(self.visible_count() - 1, h)
        } else {
            self
        }
    }

    /// Another line has come in.
    pub open spec fn push_line(self, line: Seq<char>) -> State {
        State { lines: self.lines.push(line), ..self }
    }

    /// The rows that the search query finds.
    pub open spec fn found_rows(self) -> Seq<usize> {
        if self.search_query.len() == 0 {
            seq![]
        } else {
            matching_rows(lowered(self.visible_lines()), lowercase(self.search_query))
        }
    }

    /// The rows that hold the search query, the case of ASCII letters aside.
    pub open spec fn ascii_found_rows(self) -> Seq<usize> {
        if self.search_query.len() == 0 {
            seq![]
        } else {
            matching_rows(
                ascii_lowered_rows(self.visible_lines()),
                ascii_lowered(self.search_query),
            )
        }
    }

    /// The matches of the search query; the current one is the first at or after the selected
    /// row, or else the first of all.
    pub open spec fn do_search(self) -> State {
        let m = self.found_rows();
        State {
            search_matches: m,
            search_match_idx: if m.len() > 0 {
                Some(first_from(m, self.cursor, 0) as usize)
            } else {
                None
            },
            ..self
        }
    }

    /// Goes to a match.
    pub open spec fn goto_match(self, k: int, h: int) -> State {
        State { search_match_idx: Some(k as usize), ..self }.select(
            self.search_matches[k] as int,
            h,
        )
    }

    /// Goes to the match after the current one; after the last comes the first.
    pub open spec fn search_next(self, h: int) -> State {
        let n = self.search_matches.len();
        if n == 0 {
            self
        } else {
            match self.search_match_idx {
                Some(k) => self.goto_match((k + 1) % (n as int), h),
                None => self.goto_match(0, h),
            }
        }
    }

    /// Goes to the match before the current one; before the first comes the last.
    pub open spec fn search_prev(self, h: int) -> State {
        let n = self.search_matches.len();
        if n == 0 {
            self
        } else {
            match self.search_match_idx {
                Some(k) if k > 0 => self.goto_match(k - 1, h),
                _ => self.goto_match(n - 1, h),
            }
        }
    }

    /// The lines that pass the filter query; `None` without a query.
    pub open spec fn passing_lines(self) -> Option<Seq<usize>> {
        if self.filter_query.len() == 0 {
            None
        } else {
            Some(matching_rows(lowered(self.lines), lowercase(self.filter_query)))
        }
    }

    /// The lines that hold the filter query, the case of ASCII letters aside.
    pub open spec fn ascii_passing_lines(self) -> Option<Seq<usize>> {
        if self.filter_query.len() == 0 {
            None
        } else {
            Some(
                matching_rows(ascii_lowered_rows(self.lines), ascii_lowered(self.filter_query)),
            )
        }
    }

    /// Searches again where there is a search query.
    pub open spec fn search_again(self) -> State {
        if self.search_query.len() > 0 {
            self.do_search()
        } else {
            self
        }
    }

    /// Shows the lines that pass the filter query, from the top.
    pub open spec fn apply_filter(self) -> State {
        State { filtered_indices: self.passing_lines(), ..self }.goto_top().search_again()
    }

    /// Shows all lines, from the top.
    pub open spec fn clear_filter(self) -> State {
        State { filter_query: seq![], filtered_indices: None, ..self }.goto_top().search_again()
    }

    /// Forgets the search.
    pub open spec fn clear_search(self) -> State {
        State {
            search_query: seq![],
            search_matches: seq![],
            search_match_idx: None,
            ..self
        }
    }

    /// Closes the detail panel, or else clears the filter, or else the search.
    pub open spec fn step_back(self) -> State {
        if self.show_detail {
            State { show_detail: false, ..self }
        } else if self.filtered_indices is Some {
            self.clear_filter()
        } else if self.search_query.len() > 0 {
            self.clear_search()
        } else {
            self
        }
    }

    /// What a key does in normal mode, with a log window of `h` rows.
    pub open spec fn press_normal(self, key: Key, h: int) -> (State, Action) {
        let s = State { follow: false, ..self };
        let ctrl = key.modifiers.only_control();
        match key.code {
            KeyCode::Char(c) => {
                if c == 'q' || (c == 'c' && ctrl) {
                    (s, Action::Quit)
                } else if c == 'j' {
                    (s.cursor_down(1, h), Action::Continue)
                } else if c == 'k' {
                    (s.cursor_up(1, h), Action::Continue)
                } else if c == 'd' && ctrl {
                    (s.cursor_down(h / 2, h), Action::Continue)
                } else if c == 'u' && ctrl {
                    (s.cursor_up(h / 2, h), Action::Continue)
                } else if c == 'f' && ctrl {
                    (s.cursor_down(h, h), Action::Continue)
                } else if c == 'b' && ctrl {
                    (s.cursor_up(h, h), Action::Continue)
                } else if c == 'g' {
                    (s.goto_top(), Action::Continue)
                } else if c == 'G' {
                    (State { follow: true, ..s.goto_bottom(h) }, Action::Continue)
                } else if c == 'F' {
                    (State { follow: !self.follow, ..s }, Action::Continue)
                } else if c == '/' {
                    (
                        State { input_mode: InputMode::Search, input_buf: seq![], ..s },
                        Action::Continue,
                    )
                } else if c == 'n' {
                    (s.search_next(h), Action::Continue)
                } else if c == 'N' {
                    (s.search_prev(h), Action::Continue)
                } else if c == '\\' {
                    (
                        State {
                            input_mode: InputMode::Filter,
                            input_buf: s.filter_query,
                            ..s
                        },
                        Action::Continue,
                    )
                } else if c == ' ' {
                    (s.toggle_detail(), Action::Continue)
                } else {
                    (s, Action::Continue)
                }
            },
            KeyCode::Down => (s.cursor_down(1, h), Action::Continue),
            KeyCode::Up => (s.cursor_up(1, h), Action::Continue),
            KeyCode::PageDown => (s.cursor_down(h, h), Action::Continue),
            KeyCode::PageUp => (s.cursor_up(h, h), Action::Continue),
            KeyCode::Home => (s.goto_top(), Action::Continue),
            KeyCode::End => (State { follow: true, ..s.goto_bottom(h) }, Action::Continue),
            KeyCode::Enter => (s, Action::OpenEditor),
            KeyCode::Esc => (s.step_back(), Action::Continue),
            KeyCode::Backspace => (s, Action::Continue),
            KeyCode::Other => (s, Action::Continue),
        }
    }

    /// Takes what was typed for the search query, and goes to the first match.
    pub open spec fn submit_search(self, h: int) -> State {
        let s = State { search_query: self.input_buf, ..self }.do_search();
        match s.search_match_idx {
            Some(k) => s.select(s.search_matches[k as int] as int, h),
            None => s,
        }
    }

    /// Takes what was typed for the filter query, and filters.
    pub open spec fn submit_filter(self) -> State {
        State { filter_query: self.input_buf, ..self }.apply_filter()
    }

    /// What a key does while the input bar is open.
    pub open spec fn press_input(self, key: Key, h: int) -> State {
        match key.code {
            KeyCode::Enter => {
                let s = if self.input_mode == InputMode::Search {
                    self.submit_search(h)
                } else {
                    self.submit_filter()
                };
                State { input_mode: InputMode::Normal, ..s }
            },
            KeyCode::Esc => State { input_mode: InputMode::Normal, ..self },
            KeyCode::Backspace => if self.input_buf.len() > 0 {
                State { input_buf: self.input_buf.drop_last(), ..self }
            } else {
                self
            },
            KeyCode::Char(c) => State { input_buf: self.input_buf.push(c), ..self },
            _ => self,
        }
    }

    /// What a key does, with a log window of `h` rows.
    pub open spec fn press(self, key: Key, h: int) -> (State, Action) {
        if self.input_mode == InputMode::Normal {
            self.press_normal(key, h)
        } else {
            (self.press_input(key, h), Action::Continue)
        }
    }
}

/// Searching keeps the state well-formed, whatever the matches were before.
pub proof fn lemma_do_search_wf(s: State)
    requires
        s.rows_wf(),
    ensures
        s.do_search().wf(),
{
    let rows = lowered(s.visible_lines());
    let needle = lowercase(s.search_query);
    let m = s.found_rows();
    let t = s.do_search();
    law_matching_rows(rows, needle);
    if m.len() > 0 {
        lemma_first_from(m, s.cursor, 0);
        lemma_increasing_len(m, rows.len() as int);
    }
    assert forall|i: int| 0 <= i < m.len() implies (#[trigger] m[i]) < t.visible_count() && finds(
        t.search_query,
        t.visible_line(m[i] as int),
    ) by {
        let row = m[i] as int;
        assert(rows[row] == lowercase(s.visible_lines()[row]));
        assert(s.visible_lines()[row] == s.visible_line(row));
    }
}

/// Strictly increasing numbers below a bound are no more than the bound.
pub proof fn lemma_increasing_len(v: Seq<usize>, bound: int)
    requires
        increasing(v),
        forall|i: int| 0 <= i < v.len() ==> (#[trigger] v[i]) < bound,
        0 <= bound,
    ensures
        v.len() <= bound,
{
    lemma_increasing_at_least(v, v.len() as int);
    if v.len() > 0 {
        assert(v[v.len() - 1] < bound);
    }
}

proof fn lemma_increasing_at_least(v: Seq<usize>, n: int)
    requires
        increasing(v),
        0 <= n <= v.len(),
    ensures
        forall|i: int| 0 <= i < n ==> (#[trigger] v[i]) >= i,
    decreases n,
{
    if n > 0 {
        lemma_increasing_at_least(v, n - 1);
        if n > 1 {
            assert(v[n - 2] < v[n - 1]);
        }
    }
}

} // verus!
