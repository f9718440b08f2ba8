//! The viewer: its state, and the operations on it.

pub mod screen;

use vstd::prelude::*;
use vstd::utf8::is_ascii_chars;

use crate::bridge::to_lowercase;
use crate::json::{looks_like_json, pretty_print_json};
use crate::keys::{Action, Key, KeyCode};
use crate::laws::{
    law_press_keeps_wf, law_push_line_keeps_wf, lemma_apply_filter_wf, lemma_clear_filter_wf,
    lemma_filtered_rows_wf, lemma_goto_match_wf, lemma_goto_top_wf, lemma_same_rows_wf,
    lemma_select_wf, lemma_step_back_wf,
};
use crate::matching::{ascii_rows, find_rows, first_at_or_after, lower_rows};
use crate::state::{lemma_do_search_wf, InputMode, State};
use crate::text::{lines_of, split_lines, texts, trim};

verus! {

/// The viewer.
pub struct App {
    lines: Vec<String>,
    offset: usize,
    cursor: usize,
    filename: String,
    show_detail: bool,
    follow: bool,
    input_mode: InputMode,
    input_buf: String,
    search_query: String,
    search_matches: Vec<usize>,
    search_match_idx: Option<usize>,
    filter_query: String,
    filtered_indices: Option<Vec<usize>>,
}

impl View for App {
    type V = State;

    closed spec fn view(&self) -> State {
        State {
            lines: texts(self.lines@),
            offset: self.offset as int,
            cursor: self.cursor as int,
            filename: self.filename@,
            show_detail: self.show_detail,
            follow: self.follow,
            input_mode: self.input_mode,
            input_buf: self.input_buf@,
            search_query: self.search_query@,
            search_matches: self.search_matches@,
            search_match_idx: self.search_match_idx,
            filter_query: self.filter_query@,
            filtered_indices: match self.filtered_indices {
                Some(f) => Some(f@),
                None => None,
            },
        }
    }
}

/// The state in which the viewer begins.
pub open spec fn opening(filename: Seq<char>, lines: Seq<Seq<char>>, follow: bool) -> State {
    State {
        lines,
        offset: 0,
        cursor: 0,
        filename,
        show_detail: false,
        follow,
        input_mode: InputMode::Normal,
        input_buf: seq![],
        search_query: seq![],
        search_matches: seq![],
        search_match_idx: None,
        filter_query: seq![],
        filtered_indices: None,
    }
}

impl App {
    /// A viewer of these lines.
    fn new(filename: String, lines: Vec<String>, follow: bool) -> (r: App)
        ensures
            r@ == opening(filename@, texts(lines@), follow),
            r@.wf(),
    {
        let r: App = App {
            lines,
            offset: 0,
            cursor: 0,
            filename,
            show_detail: false,
            follow,
            input_mode: InputMode::Normal,
            input_buf: String::new(),
            search_query: String::new(),
            search_matches: Vec::new(),
            search_match_idx: None,
            filter_query: String::new(),
            filtered_indices: None,
        };
        assert(texts(lines@).len() == lines.len());
        assert(r@ =~= opening(filename@, texts(lines@), follow));
        r
    }

    /// A viewer of a file's content.
    pub fn from_file(filename: &str, content: &str) -> (r: App)
        ensures
            r@ == opening(filename@, lines_of(content@), false),
            r@.wf(),
    {
        App::new(filename.to_owned(), split_lines(content), false)
    }

    /// A viewer of what comes in from standard input: no line yet, and following.
    pub fn from_stdin() -> (r: App)
        ensures
            r@ == opening("<stdin>"@, seq![], true),
            r@.wf(),
    {
        let lines: Vec<String> = Vec::new();
        assert(texts(lines@) =~= seq![]);
        App::new("<stdin>".to_owned(), lines, true)
    }

    /// Takes in another line.
    pub fn push_line(&mut self, line: String)
        requires
            old(self)@.wf(),
        ensures
            final(self)@ == old(self)@.push_line(line@),
            final(self)@.wf(),
    {
        self.lines.push(line);
        assert(texts(self.lines@) =~= old(self)@.lines.push(line@));
        assert(self@.lines.len() == self.lines.len());
        proof {
            law_push_line_keeps_wf(old(self)@, line@);
        }
    }

    /// What typed characters are for.
    pub fn input_mode(&self) -> (r: InputMode)
        ensures
            r == self@.input_mode,
    {
        self.input_mode
    }

    /// How many lines there are.
    pub fn line_count(&self) -> (r: usize)
        ensures
            r == self@.lines.len(),
    {
        self.lines.len()
    }

    /// A line by its index.
    pub fn get_line(&self, idx: usize) -> (r: Option<String>)
        ensures
            r is Some <==> idx < self@.lines.len(),
            r matches Some(l) ==> l@ == self@.lines[idx as int],
    {
        if idx < self.lines.len() {
            Some(self.lines[idx].clone())
        } else {
            None
        }
    }

    /// How many rows there are: the lines that pass the filter, or all lines.
    pub fn visible_count(&self) -> (r: usize)
        ensures
            r == self@.visible_count(),
    {
        match &self.filtered_indices {
            Some(indices) => indices.len(),
            None => self.lines.len(),
        }
    }

    /// The line that a row shows.
    pub fn visible_to_real(&self, vis: usize) -> (r: usize)
        ensures
            r == self@.real_index(vis as int),
    {
        match &self.filtered_indices {
            Some(indices) => if vis < indices.len() {
                indices[vis]
            } else {
                0
            },
            None => vis,
        }
    }

    /// The last row.
    pub fn max_line(&self) -> (r: usize)
        ensures
            r == self@.max_line(),
    {
        let count: usize = self.visible_count();
        if count > 0 {
            count - 1
        } else {
            0
        }
    }

    /// The rows from `start` up to `end`: for each its line's index and text.
    pub fn get_visible_range(&self, start: usize, end: usize) -> (r: Vec<(usize, String)>)
        requires
            self@.wf(),
        ensures
            range_view(r@) == self@.rows(start as int, end as int),
    {
        let count: usize = self.visible_count();
        let stop: usize = if end < count {
            end
        } else {
            count
        };
        let mut out: Vec<(usize, String)> = Vec::new();
        let mut vis: usize = start;
        assert(range_view(out@) =~= seq![]);
        while vis < stop
            invariant
                self@.wf(),
                start <= vis,
                start < stop ==> vis <= stop,
                start >= stop ==> vis == start,
                stop <= self@.visible_count(),
                stop <= end,
                out@.len() == vis - start,
                forall|i: int|
                    0 <= i < out@.len() ==> (#[trigger] out@[i]).0 == self@.real_index(start + i)
                        && out@[i].1@ == self@.visible_line(start + i),
            decreases stop - vis,
        {
            let idx: usize = self.visible_to_real(vis);
            proof {
                if let Some(f) = self@.filtered_indices {
                    assert(f[vis as int] < self@.lines.len());
                }
            }
            out.push((idx, self.lines[idx].clone()));
            vis = vis + 1;
        }
        assert(range_view(out@) =~= self@.rows(start as int, end as int));
        out
    }

    /// Moves the window as little as possible, so that it holds the selected row.
    pub fn ensure_visible(&mut self, viewport_height: usize)
        ensures
            final(self)@ == old(self)@.ensure_visible(viewport_height as int),
            old(self)@.wf() ==> final(self)@.wf(),
    {
        proof {
            if old(self)@.wf() {
                lemma_select_wf(old(self)@, old(self)@.cursor, viewport_height as int);
            }
        }
        if self.cursor < self.offset {
            self.offset = self.cursor;
        } else if viewport_height > 0 && self.cursor - self.offset >= viewport_height {
            self.offset = self.cursor - (viewport_height - 1);
        }
        assert(self@ =~= old(self)@.ensure_visible(viewport_height as int));
    }

    /// Selects a row that exists.
    fn select(&mut self, row: usize, viewport_height: usize)
        requires
            old(self)@.wf(),
            row <= old(self)@.max_line(),
        ensures
            final(self)@ == old(self)@.select(row as int, viewport_height as int),
            final(self)@.wf(),
    {
        self.cursor = row;
        assert(self@ =~= (State { cursor: row as int, ..old(self)@ }));
        self.ensure_visible(viewport_height);
        proof {
            lemma_select_wf(old(self)@, row as int, viewport_height as int);
        }
    }

    /// Moves the selection down by `n` rows, to the last row at most.
    pub fn cursor_down(&mut self, n: usize, viewport_height: usize)
        requires
            old(self)@.wf(),
        ensures
            final(self)@ == old(self)@.cursor_down(n as int, viewport_height as int),
            final(self)@.wf(),
    {
        let last: usize = self.max_line();
        let row: usize = if n <= last - self.cursor {
            self.cursor + n
        } else {
            last
        };
        self.select(row, viewport_height);
    }

    /// Moves the selection up by `n` rows, to the first row at most.
    pub fn cursor_up(&mut self, n: usize, viewport_height: usize)
        requires
            old(self)@.wf(),
        ensures
            final(self)@ == old(self)@.cursor_up(n as int, viewport_height as int),
            final(self)@.wf(),
    {
        let row: usize = if n <= self.cursor {
            self.cursor - n
        } else {
            0
        };
        self.select(row, viewport_height);
    }

    /// Goes to the first row.
    pub fn goto_top(&mut self)
        requires
            old(self)@.wf(),
        ensures
            final(self)@ == old(self)@.goto_top(),
            final(self)@.wf(),
    {
        self.cursor = 0;
        self.offset = 0;
        assert(self@ =~= old(self)@.goto_top());
        proof {
            lemma_goto_top_wf(old(self)@);
        }
    }

    /// Goes to the last row.
    pub fn goto_bottom(&mut self, viewport_height: usize)
        requires
            old(self)@.wf(),
        ensures
            final(self)@ == old(self)@.goto_bottom(viewport_height as int),
            final(self)@.wf(),
    {
        let row: usize = self.max_line();
        self.select(row, viewport_height);
    }

    /// Opens or closes the detail panel.
    pub fn toggle_detail(&mut self)
        requires
            old(self)@.wf(),
        ensures
            final(self)@ == old(self)@.toggle_detail(),
            final(self)@.wf(),
    {
        self.show_detail = !self.show_detail;
        assert(self@ =~= old(self)@.toggle_detail());
        proof {
            lemma_same_rows_wf(old(self)@, self@);
        }
    }

    /// In follow mode, selects the last row.
    pub fn auto_follow(&mut self, viewport_height: usize)
        requires
            old(self)@.wf(),
        ensures
            final(self)@ == old(self)@.auto_follow(viewport_height as int),
            final(self)@.wf(),
    {
        let total: usize = self.visible_count();
        if self.follow && total > 0 {
            self.select(total - 1, viewport_height);
        }
    }

    /// The text of the selected row.
    pub fn selected_line_raw(&self) -> (r: String)
        ensures
            r@ == self@.selected_line(),
    {
        let idx: usize = self.visible_to_real(self.cursor);
        match self.get_line(idx) {
            Some(line) => line,
            None => String::new(),
        }
    }

    /// The selected text for reading, and whether it was laid out as JSON.
    pub fn selected_line_formatted(&self) -> (r: (String, bool))
        ensures
            (r.0@, r.1) == self@.selected_detail(),
    {
        let raw: String = self.selected_line_raw();
        let text: String = trim(&raw);
        if looks_like_json(&text) {
            (pretty_print_json(&text), true)
        } else {
            (raw, false)
        }
    }

    /// The texts of all rows.
    fn row_texts(&self) -> (r: Vec<String>)
        requires
            self@.rows_wf(),
        ensures
            texts(r@) == self@.visible_lines(),
    {
        let count: usize = self.visible_count();
        let mut out: Vec<String> = Vec::new();
        let mut row: usize = 0;
        while row < count
            invariant
                self@.rows_wf(),
                row <= count == self@.visible_count(),
                out@.len() == row,
                forall|i: int| 0 <= i < row ==> (#[trigger] out@[i])@ == self@.visible_line(i),
            decreases count - row,
        {
            let idx: usize = self.visible_to_real(row);
            proof {
                if let Some(f) = self@.filtered_indices {
                    assert(f[row as int] < self@.lines.len());
                }
            }
            out.push(self.lines[idx].clone());
            row = row + 1;
        }
        assert(texts(out@) =~= self@.visible_lines());
        out
    }

    /// Looks for the search query among the rows.
    pub fn do_search(&mut self)
        requires
            old(self)@.rows_wf(),
        ensures
            final(self)@ == old(self)@.do_search(),
            final(self)@.wf(),
            is_ascii_chars(old(self)@.search_query) && ascii_rows(old(self)@.visible_lines())
                ==> final(self)@.search_matches == old(self)@.ascii_found_rows(),
    {
        proof {
            lemma_do_search_wf(old(self)@);
        }
        let query_lower: String = to_lowercase(&self.search_query);
        if query_lower.as_str().is_empty() {
            self.search_matches = Vec::new();
            self.search_match_idx = None;
            assert(self@ =~= old(self)@.do_search());
            return ;
        }
        let rows: Vec<String> = self.row_texts();
        let low: Vec<String> = lower_rows(&rows);
        let matches: Vec<usize> = find_rows(&low, &query_lower);
        if matches.is_empty() {
            self.search_match_idx = None;
        } else {
            let first: usize = first_at_or_after(&matches, self.cursor);
            self.search_match_idx = Some(first);
        }
        self.search_matches = matches;
        assert(self@ =~= old(self)@.do_search());
    }

    /// Goes to a match.
    fn goto_match(&mut self, k: usize, viewport_height: usize)
        requires
            old(self)@.wf(),
            k < old(self)@.search_matches.len(),
        ensures
            final(self)@ == old(self)@.goto_match(k as int, viewport_height as int),
            final(self)@.wf(),
    {
        proof {
            lemma_goto_match_wf(self@, k as int, viewport_height as int);
        }
        self.search_match_idx = Some(k);
        self.cursor = self.search_matches[k];
        assert(self@ =~= (State {
            search_match_idx: Some(k),
            cursor: old(self)@.search_matches[k as int] as int,
            ..old(self)@
        }));
        self.ensure_visible(viewport_height);
    }

    /// Goes to the next match.
    pub fn search_next(&mut self, viewport_height: usize)
        requires
            old(self)@.wf(),
        ensures
            final(self)@ == old(self)@.search_next(viewport_height as int),
            final(self)@.wf(),
    {
        let n: usize = self.search_matches.len();
        if n == 0 {
            return ;
        }
        let k: usize = match self.search_match_idx {
            Some(i) => (i + 1) % n,
            None => 0,
        };
        self.goto_match(k, viewport_height);
    }

    /// Goes to the previous match.
    pub fn search_prev(&mut self, viewport_height: usize)
        requires
            old(self)@.wf(),
        ensures
            final(self)@ == old(self)@.search_prev(viewport_height as int),
            final(self)@.wf(),
    {
        let n: usize = self.search_matches.len();
        if n == 0 {
            return ;
        }
        let k: usize = match self.search_match_idx {
            Some(i) => if i > 0 {
                i - 1
            } else {
                n - 1
            },
            None => n - 1,
        };
        self.goto_match(k, viewport_height);
    }

    /// Shows the lines that pass the filter query, from the top.
    pub fn apply_filter(&mut self)
        requires
            old(self)@.idle_search_wf(),
        ensures
            final(self)@ == old(self)@.apply_filter(),
            final(self)@.wf(),
            is_ascii_chars(old(self)@.filter_query) && ascii_rows(old(self)@.lines)
                ==> final(self)@.filtered_indices == old(self)@.ascii_passing_lines(),
    {
        let query_lower: String = to_lowercase(&self.filter_query);
        if query_lower.as_str().is_empty() {
            self.filtered_indices = None;
        } else {
            let low: Vec<String> = lower_rows(&self.lines);
            self.filtered_indices = Some(find_rows(&low, &query_lower));
        }
        self.cursor = 0;
        self.offset = 0;
        let ghost filtered = State {
            filtered_indices: old(self)@.passing_lines(),
            ..old(self)@
        }.goto_top();
        assert(self@ =~= filtered);
        proof {
            assert(old(self)@.lines.len() == self.lines.len());
            lemma_filtered_rows_wf(old(self)@);
            lemma_apply_filter_wf(old(self)@);
        }
        if !self.search_query.as_str().is_empty() {
            self.do_search();
        }
    }

    /// Shows all lines, from the top.
    pub fn clear_filter(&mut self)
        requires
            old(self)@.wf(),
        ensures
            final(self)@ == old(self)@.clear_filter(),
            final(self)@.wf(),
    {
        self.filter_query = String::new();
        self.filtered_indices = None;
        self.cursor = 0;
        self.offset = 0;
        assert(self@ =~= (State {
            filter_query: seq![],
            filtered_indices: None,
            ..old(self)@
        }).goto_top());
        proof {
            lemma_clear_filter_wf(old(self)@);
        }
        if !self.search_query.as_str().is_empty() {
            self.do_search();
        }
    }

    /// Closes the detail panel, or else clears the filter, or else the search.
    fn step_back(&mut self)
        requires
            old(self)@.wf(),
        ensures
            final(self)@ == old(self)@.step_back(),
            final(self)@.wf(),
    {
        proof {
            lemma_step_back_wf(self@);
        }
        if self.show_detail {
            self.show_detail = false;
            assert(self@ =~= old(self)@.step_back());
        } else if self.filtered_indices.is_some() {
            self.clear_filter();
        } else if !self.search_query.as_str().is_empty() {
            self.search_query = String::new();
            self.search_matches = Vec::new();
            self.search_match_idx = None;
            assert(self@ =~= old(self)@.step_back());
        }
    }

    /// Takes what was typed for the search query, and goes to the first match.
    fn submit_search(&mut self, viewport_height: usize)
        requires
            old(self)@.wf(),
        ensures
            final(self)@ == old(self)@.submit_search(viewport_height as int),
            final(self)@.wf(),
    {
        self.search_query = self.input_buf.clone();
        assert(self@ =~= (State { search_query: old(self)@.input_buf, ..old(self)@ }));
        self.do_search();
        if let Some(k) = self.search_match_idx {
            assert(self@.search_matches[k as int] < self@.visible_count());
            let row: usize = self.search_matches[k];
            self.select(row, viewport_height);
        }
    }

    /// What a key does in normal mode.
    fn press_normal(&mut self, key: Key, log_height: usize) -> (r: Action)
        requires
            old(self)@.wf(),
        ensures
            (final(self)@, r) == old(self)@.press_normal(key, log_height as int),
    {
        let ctrl: bool = key.modifiers.is_control();
        let followed: bool = self.follow;
        self.follow = false;
        let ghost s = State { follow: false, ..old(self)@ };
        assert(self@ =~= s);
        proof {
            lemma_same_rows_wf(old(self)@, s);
        }
        match key.code {
            KeyCode::Char(c) => {
                if c == 'q' || (c == 'c' && ctrl) {
                    return Action::Quit;
                } else if c == 'j' {
                    self.cursor_down(1, log_height);
                } else if c == 'k' {
                    self.cursor_up(1, log_height);
                } else if c == 'd' && ctrl {
                    self.cursor_down(log_height / 2, log_height);
                } else if c == 'u' && ctrl {
                    self.cursor_up(log_height / 2, log_height);
                } else if c == 'f' && ctrl {
                    self.cursor_down(log_height, log_height);
                } else if c == 'b' && ctrl {
                    self.cursor_up(log_height, log_height);
                } else if c == 'g' {
                    self.goto_top();
                } else if c == 'G' {
                    self.goto_bottom(log_height);
                    self.follow = true;
                    assert(self@ =~= (State { follow: true, ..s.goto_bottom(log_height as int) }));
                } else if c == 'F' {
                    self.follow = !followed;
                    assert(self@ =~= (State { follow: !old(self)@.follow, ..s }));
                } else if c == '/' {
                    self.input_mode = InputMode::Search;
                    self.input_buf = String::new();
                    assert(self@ =~= (State {
                        input_mode: InputMode::Search,
                        input_buf: seq![],
                        ..s
                    }));
                } else if c == 'n' {
                    self.search_next(log_height);
                } else if c == 'N' {
                    self.search_prev(log_height);
                } else if c == '\\' {
                    self.input_mode = InputMode::Filter;
                    self.input_buf = self.filter_query.clone();
                    assert(self@ =~= (State {
                        input_mode: InputMode::Filter,
                        input_buf: s.filter_query,
                        ..s
                    }));
                } else if c == ' ' {
                    self.toggle_detail();
                }
            },
            KeyCode::Down => {
                self.cursor_down(1, log_height);
            },
            KeyCode::Up => {
                self.cursor_up(1, log_height);
            },
            KeyCode::PageDown => {
                self.cursor_down(log_height, log_height);
            },
            KeyCode::PageUp => {
                self.cursor_up(log_height, log_height);
            },
            KeyCode::Home => {
                self.goto_top();
            },
            KeyCode::End => {
                self.goto_bottom(log_height);
                self.follow = true;
                assert(self@ =~= (State { follow: true, ..s.goto_bottom(log_height as int) }));
            },
            KeyCode::Enter => {
                return Action::OpenEditor;
            },
            KeyCode::Esc => {
                self.step_back();
            },
            KeyCode::Backspace => {},
            KeyCode::Other => {},
        }
        Action::Continue
    }

    /// What a key does while the input bar is open.
    fn press_input(&mut self, key: Key, log_height: usize)
        requires
            old(self)@.wf(),
        ensures
            final(self)@ == old(self)@.press_input(key, log_height as int),
    {
        match key.code {
            KeyCode::Enter => {
                if self.input_mode == InputMode::Search {
                    self.submit_search(log_height);
                } else {
                    self.filter_query = self.input_buf.clone();
                    let ghost s = State { filter_query: old(self)@.input_buf, ..old(self)@ };
                    assert(self@ =~= s);
                    self.apply_filter();
                }
                let ghost done = self@;
                self.input_mode = InputMode::Normal;
                assert(self@ =~= (State { input_mode: InputMode::Normal, ..done }));
            },
            KeyCode::Esc => {
                self.input_mode = InputMode::Normal;
                assert(self@ =~= (State { input_mode: InputMode::Normal, ..old(self)@ }));
            },
            KeyCode::Backspace => {
                let _ = self.input_buf.pop();
                assert(self@ =~= old(self)@.press_input(key, log_height as int));
            },
            KeyCode::Char(c) => {
                self.input_buf.push(c);
                assert(self@ =~= old(self)@.press_input(key, log_height as int));
            },
            _ => {},
        }
    }

    /// Does what a key asks for, with a log window of `log_height` rows.
    pub fn handle_key(&mut self, key: Key, log_height: usize) -> (r: Action)
        requires
            old(self)@.wf(),
        ensures
            (final(self)@, r) == old(self)@.press(key, log_height as int),
            final(self)@.wf(),
    {
        proof {
            law_press_keeps_wf(self@, key, log_height as int);
        }
        if self.input_mode == InputMode::Normal {
            self.press_normal(key, log_height)
        } else {
            self.press_input(key, log_height);
            Action::Continue
        }
    }

    /// How many rows the log shows in a terminal of `total_height` rows.
    pub fn log_height(&self, total_height: usize) -> (r: usize)
        requires
            total_height > 0 || self@.input_mode == InputMode::Normal,
        ensures
            r == self@.log_height(total_height as int),
    {
        let rest: usize = if self.input_mode == InputMode::Normal {
            total_height
        } else {
            total_height - 1
        };
        let pane: usize = if self.show_detail {
            rest / 2
        } else {
            rest
        };
        if pane > 2 {
            pane - 2
        } else {
            0
        }
    }
}

/// The indices and texts of some rows.
pub open spec fn range_view(v: Seq<(usize, String)>) -> Seq<(int, Seq<char>)> {
    v.map_values(|e: (usize, String)| (e.0 as int, e.1@))
}

} // verus!
