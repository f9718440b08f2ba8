//! What the viewer shows.

use vstd::prelude::*;
use vstd::utf8::encode_utf8;

use crate::app::{range_view, App};
use crate::area::{lower_part, rows_of, upper_part, Area, Extent};
use crate::bridge::{lowercase, split_rows};
use crate::colorize::{colored, colorize_json_line};
use crate::highlight::{
    has_mark, law_showing_keeps_text, number_text, origins, render_log_line, shown_line,
    under_style,
};
use crate::keys::Key;
use crate::laws::{
    law_auto_follow_keeps_wf, law_follow_selects_new_line, law_motion_stays_in_window,
    law_press_keeps_wf, law_press_keeps_window, law_push_line_keeps_wf,
};
use crate::matching::finds;
use crate::state::{InputMode, State};
use crate::style::{
    fg, fg_style, line_views, plain_style, shown_text, Color, Span, Style, StyledLine,
};
use crate::text::{decimal, lines_of, split_lines, texts, to_decimal};

verus! {

/// Where the parts of the screen are.
#[derive(Clone, Copy, PartialEq, Eq, Debug)]
pub struct Panes {
    pub log: Area,
    pub detail: Option<Area>,
    pub input: Option<Area>,
}

/// How many of `h` rows an open input bar takes up: one, where that leaves three or more.
pub open spec fn bar_rows(h: int) -> int {
    if h >= 4 {
        1
    } else {
        0
    }
}

/// An area as wide as another, at the same column.
pub open spec fn same_columns(a: Area, b: Area) -> bool {
    a.x == b.x && a.width == b.width
}

/// The rows that fit between the borders of the log.
pub open spec fn inner_height(log: Area) -> int {
    if log.height > 2 {
        log.height - 2
    } else {
        0
    }
}

impl State {
    /// What the input bar, where it is open, leaves of an area above it.
    pub open spec fn main_area(self, area: Area) -> Area {
        if self.input_mode == InputMode::Normal {
            area
        } else {
            upper_part(area, rows_of(area) - bar_rows(rows_of(area)))
        }
    }

    /// How an area divides among the parts of the screen: the input bar, where it is open, is at
    /// the bottom, and of what it leaves the log has half, rounded up, where the detail panel is
    /// open, and else all.
    pub open spec fn panes(self, area: Area) -> Panes {
        let main = self.main_area(area);
        let half = (rows_of(main) + 1) / 2;
        Panes {
            log: if self.show_detail {
                upper_part(main, half)
            } else {
                main
            },
            detail: if self.show_detail {
                Some(lower_part(main, half))
            } else {
                None
            },
            input: if self.input_mode == InputMode::Normal {
                None
            } else {
                Some(lower_part(area, rows_of(area) - bar_rows(rows_of(area))))
            },
        }
    }

    /// The line in the frame of the log: its name, where the selection is, and what is in force.
    pub open spec fn title(self) -> Seq<char> {
        let total = self.visible_count();
        " "@ + self.filename + " \u{2014} line "@ + decimal(
            if total > 0 {
                (self.cursor + 1) as nat
            } else {
                0
            },
        ) + "/"@ + decimal(total as nat) + self.follow_indicator() + self.filter_indicator()
            + self.search_indicator() + " "@
    }

    pub open spec fn follow_indicator(self) -> Seq<char> {
        if self.follow {
            " [FOLLOW]"@
        } else {
            seq![]
        }
    }

    pub open spec fn filter_indicator(self) -> Seq<char> {
        match self.filtered_indices {
            Some(f) => " [FILTER: "@ + decimal(f.len()) + " matches]"@,
            None => seq![],
        }
    }

    pub open spec fn search_indicator(self) -> Seq<char> {
        if self.search_matches.len() > 0 {
            let place = match self.search_match_idx {
                Some(k) => (k + 1) as nat,
                None => 0,
            };
            " ["@ + decimal(place) + "/"@ + decimal(self.search_matches.len()) + "]"@
        } else if self.search_query.len() > 0 {
            " [no matches]"@
        } else {
            seq![]
        }
    }

    /// How many rows a window of `h` rows shows.
    pub open spec fn shown_count(self, h: int) -> int {
        if self.offset + h <= self.visible_count() {
            h
        } else {
            self.visible_count() - self.offset
        }
    }

    /// A row as it is shown.
    pub open spec fn shown_row(self, row: int) -> (Seq<(Seq<char>, Style)>, Style) {
        let line = self.visible_line(row);
        shown_line(
            line,
            self.real_index(row) + 1,
            row == self.cursor,
            lowercase(line),
            origins(line),
            lowercase(self.search_query),
            self.search_matches.contains(row as usize),
        )
    }

    /// The rows that a window of `h` rows shows.
    pub open spec fn shown_rows(self, h: int) -> Seq<(Seq<(Seq<char>, Style)>, Style)> {
        Seq::new(self.shown_count(h) as nat, |i: int| self.shown_row(self.offset + i))
    }

    /// Whether every row that the search found has a match marked in it, on the rows of a window.
    pub open spec fn found_rows_marked(self, rows: Seq<(Seq<(Seq<char>, Style)>, Style)>) -> bool {
        forall|i: int|
            0 <= i < rows.len() && self.search_matches.contains((self.offset + i) as usize)
                ==> has_mark((#[trigger] rows[i]).0)
    }

    /// How far down the window can be moved.
    pub open spec fn max_offset(self, h: int) -> int {
        if self.visible_count() > h {
            self.visible_count() - h
        } else {
            0
        }
    }

    /// The selected line for reading.
    pub open spec fn shown_detail(self) -> DetailView {
        let (text, json) = self.selected_detail();
        if json {
            DetailView::Json(lines_of(text).map_values(|l: Seq<char>| (colored(l), plain_style())))
        } else {
            DetailView::Text(text)
        }
    }

    /// The column of the cursor in an input bar that begins at column `x`: behind the prefix and
    /// the bytes typed, counted modulo the range of a column.
    pub open spec fn input_column(self, x: int) -> int {
        x + 1 + encode_utf8(self.input_buf).len() as int % 0x10000
    }

    /// The character in front of what is typed.
    pub open spec fn input_prefix(self) -> Seq<char> {
        if self.input_mode == InputMode::Search {
            "/"@
        } else {
            "\\"@
        }
    }

    pub open spec fn input_color(self) -> Color {
        if self.input_mode == InputMode::Search {
            Color::Yellow
        } else {
            Color::Green
        }
    }

    /// The input bar.
    pub open spec fn shown_input(self, bar: Area) -> InputView {
        InputView {
            prefix: (
                self.input_prefix(),
                Style { fg: Some(self.input_color()), bg: None, bold: true },
            ),
            typed: (self.input_buf, fg_style(self.input_color())),
            column: self.input_column(bar.x as int),
            row: bar.y as int,
        }
    }

    /// Whether the screen can be drawn: the column of the cursor in the input bar, where it is
    /// open, is in the range of a column.
    pub open spec fn drawable(self, p: Panes) -> bool {
        p.input matches Some(bar) ==> self.input_column(bar.x as int) <= u16::MAX
    }

    /// The screen.
    pub open spec fn shown_screen(self, p: Panes) -> ScreenView {
        ScreenView {
            title: self.title(),
            rows: self.shown_rows(inner_height(p.log)),
            max_offset: self.max_offset(inner_height(p.log)),
            position: self.offset,
            detail: if p.detail is Some {
                Some(self.shown_detail())
            } else {
                None
            },
            input: match p.input {
                Some(bar) => Some(self.shown_input(bar)),
                None => None,
            },
        }
    }
}

/// What the detail panel holds: coloured lines of JSON, or text as it is.
#[verifier::ext_equal]
pub enum DetailView {
    Json(Seq<(Seq<(Seq<char>, Style)>, Style)>),
    Text(Seq<char>),
}

/// What the input bar holds, and where the cursor is in it.
#[verifier::ext_equal]
pub struct InputView {
    pub prefix: (Seq<char>, Style),
    pub typed: (Seq<char>, Style),
    pub column: int,
    pub row: int,
}

/// What the screen holds.
#[verifier::ext_equal]
pub struct ScreenView {
    pub title: Seq<char>,
    pub rows: Seq<(Seq<(Seq<char>, Style)>, Style)>,
    pub max_offset: int,
    pub position: int,
    pub detail: Option<DetailView>,
    pub input: Option<InputView>,
}

/// What the detail panel holds: coloured lines of JSON, or text as it is.
#[derive(PartialEq, Eq, Debug)]
pub enum Detail {
    Json(Vec<StyledLine>),
    Text(String),
}

impl View for Detail {
    type V = DetailView;

    open spec fn view(&self) -> DetailView {
        match self {
            Detail::Json(lines) => DetailView::Json(line_views(lines@)),
            Detail::Text(text) => DetailView::Text(text@),
        }
    }
}

impl Detail {
    /// The title and the colour of the frame around the panel.
    pub fn frame(&self) -> (r: (&'static str, Color))
        ensures
            self is Json ==> r == (" JSON ", Color::Magenta),
            self is Text ==> r == (" Text ", Color::Cyan),
    {
        match self {
            Detail::Json(_) => (" JSON ", Color::Magenta),
            Detail::Text(_) => (" Text ", Color::Cyan),
        }
    }
}

/// What the input bar holds, and where the cursor is in it.
#[derive(PartialEq, Eq, Debug)]
pub struct InputBar {
    pub prefix: Span,
    pub typed: Span,
    pub column: u16,
    pub row: u16,
}

impl View for InputBar {
    type V = InputView;

    open spec fn view(&self) -> InputView {
        InputView {
            prefix: self.prefix@,
            typed: self.typed@,
            column: self.column as int,
            row: self.row as int,
        }
    }
}

/// What the screen holds.
#[derive(PartialEq, Eq, Debug)]
pub struct Screen {
    pub title: String,
    pub rows: Vec<StyledLine>,
    pub max_offset: usize,
    pub position: usize,
    pub detail: Option<Detail>,
    pub input: Option<InputBar>,
}

impl View for Screen {
    type V = ScreenView;

    open spec fn view(&self) -> ScreenView {
        ScreenView {
            title: self.title@,
            rows: line_views(self.rows@),
            max_offset: self.max_offset as int,
            position: self.position as int,
            detail: match self.detail {
                Some(d) => Some(d@),
                None => None,
            },
            input: match self.input {
                Some(i) => Some(i@),
                None => None,
            },
        }
    }
}

/// Whether a number is among others.
fn holds(v: &Vec<usize>, x: usize) -> (r: bool)
    ensures
        r == v@.contains(x),
{
    let mut i: usize = 0;
    while i < v.len()
        invariant
            i <= v@.len(),
            forall|j: int| 0 <= j < i ==> v@[j] != x,
        decreases v@.len() - i,
    {
        if v[i] == x {
            return true;
        }
        i = i + 1;
    }
    false
}

impl App {
    /// Divides an area of the terminal among the parts of the screen.
    pub fn panes(&self, area: Area) -> (r: Panes)
        ensures
            r == self@.panes(area),
            area.y + area.height <= u16::MAX ==> inner_height(r.log) >= self@.log_height(
                area.height as int,
            ),
    {
        let (main, input): (Area, Option<Area>) = if self.input_mode == InputMode::Normal {
            (area, None)
        } else {
            let (top, bottom): (Area, Area) = split_rows(area, Extent::Min(3), Extent::Length(1));
            (top, Some(bottom))
        };
        let (log, detail): (Area, Option<Area>) = if self.show_detail {
            let (top, bottom): (Area, Area) = split_rows(
                main,
                Extent::Percentage(50),
                Extent::Percentage(50),
            );
            (top, Some(bottom))
        } else {
            (main, None)
        };
        proof {
            if area.y + area.height <= u16::MAX {
                law_drawn_window_holds_the_window_kept(self@, area);
            }
        }
        Panes { log, detail, input }
    }

    /// The line in the frame of the log.
    #[verifier::rlimit(40)]
    pub fn title(&self) -> (r: String)
        requires
            self@.wf(),
        ensures
            r@ == self@.title(),
    {
        let total: usize = self.visible_count();
        let place: usize = if total > 0 {
            self.cursor + 1
        } else {
            0
        };
        let mut out: String = " ".to_owned();
        out.append(&self.filename);
        out.append(" \u{2014} line ");
        out.append(&to_decimal(place));
        out.append("/");
        out.append(&to_decimal(total));
        if self.follow {
            out.append(" [FOLLOW]");
        }
        let ghost a = out@;
        if let Some(indices) = &self.filtered_indices {
            out.append(" [FILTER: ");
            out.append(&to_decimal(indices.len()));
            out.append(" matches]");
        }
        assert(out@ =~= a + self@.filter_indicator());
        let ghost b = out@;
        if !self.search_matches.is_empty() {
            let at: usize = match self.search_match_idx {
                Some(k) => k + 1,
                None => 0,
            };
            out.append(" [");
            out.append(&to_decimal(at));
            out.append("/");
            out.append(&to_decimal(self.search_matches.len()));
            out.append("]");
        } else if !self.search_query.as_str().is_empty() {
            out.append(" [no matches]");
        }
        assert(out@ =~= b + self@.search_indicator());
        out.append(" ");
        assert(out@ =~= self@.title());
        out
    }

    /// A row as it is shown, given its line.
    fn render_row(&self, row: usize, idx: usize, line: &str) -> (r: StyledLine)
        requires
            self@.wf(),
            row < self@.visible_count(),
            idx == self@.real_index(row as int),
            line@ == self@.visible_line(row as int),
        ensures
            r@ == self@.shown_row(row as int),
            self@.search_matches.contains(row) ==> has_mark(r@.0),
    {
        let found: bool = holds(&self.search_matches, row);
        proof {
            if let Some(f) = self@.filtered_indices {
                assert(f[row as int] < self@.lines.len());
            }
            if found {
                let k = choose|k: int|
                    0 <= k < self@.search_matches.len() && self@.search_matches[k] == row;
                let at = self@.search_matches[k];
                assert(finds(self@.search_query, self@.visible_line(at as int)));
            }
        }
        render_log_line(line, idx + 1, row == self.cursor, &self.search_query, found)
    }

    /// The rows that a window of `height` rows shows.
    pub fn window_rows(&self, height: usize) -> (r: Vec<StyledLine>)
        requires
            self@.wf(),
        ensures
            line_views(r@) == self@.shown_rows(height as int),
            self@.found_rows_marked(line_views(r@)),
    {
        let rest: usize = self.visible_count() - self.offset;
        let count: usize = if height <= rest {
            height
        } else {
            rest
        };
        let ghost s = self@;
        let first: usize = self.offset;
        let lines: Vec<(usize, String)> = self.get_visible_range(first, first + count);
        let ghost all = s.rows(first as int, first + count);
        assert(lines@.len() == all.len());
        let mut out: Vec<StyledLine> = Vec::new();
        let mut i: usize = 0;
        while i < lines.len()
            invariant
                s == self@,
                s.wf(),
                s.offset == first,
                i <= lines@.len() == count == s.shown_count(height as int),
                first + count <= s.visible_count() <= usize::MAX,
                range_view(lines@) == all,
                all == s.rows(first as int, first + count),
                out@.len() == i,
                forall|k: int|
                    0 <= k < i ==> (#[trigger] out@[k])@ == s.shown_row(first + k) && (
                    s.search_matches.contains((first + k) as usize) ==> has_mark(out@[k]@.0)),
            decreases lines@.len() - i,
        {
            assert(all[i as int] == (lines@[i as int].0 as int, lines@[i as int].1@));
            assert(s.visible_lines()[first + i] == s.visible_line(first + i));
            let line: StyledLine = self.render_row(first + i, lines[i].0, &lines[i].1);
            out.push(line);
            i = i + 1;
        }
        assert(line_views(out@) =~= s.shown_rows(height as int));
        assert forall|k: int|
            0 <= k < line_views(out@).len() && s.search_matches.contains(
                (s.offset + k) as usize,
            ) implies has_mark((#[trigger] line_views(out@)[k]).0) by {
            assert(line_views(out@)[k] == out@[k]@);
        }
        out
    }

    /// The selected line for reading.
    pub fn detail(&self) -> (r: Detail)
        ensures
            r@ == self@.shown_detail(),
    {
        let (text, json): (String, bool) = self.selected_line_formatted();
        if !json {
            return Detail::Text(text);
        }
        let lines: Vec<String> = split_lines(&text);
        let ghost all = lines_of(text@);
        let mut out: Vec<StyledLine> = Vec::new();
        let mut i: usize = 0;
        while i < lines.len()
            invariant
                i <= lines@.len(),
                texts(lines@) == all,
                out@.len() == i,
                forall|k: int|
                    0 <= k < i ==> (#[trigger] out@[k])@ == (colored(all[k]), plain_style()),
            decreases lines@.len() - i,
        {
            let line: StyledLine = colorize_json_line(&lines[i]);
            assert(all[i as int] == lines@[i as int]@);
            out.push(line);
            i = i + 1;
        }
        assert(line_views(out@) =~= all.map_values(|l: Seq<char>| (colored(l), plain_style())));
        Detail::Json(out)
    }

    /// The input bar in an area; `None` where the column of the cursor is out of range.
    pub fn input_bar(&self, bar: Area) -> (r: Option<InputBar>)
        requires
            self@.input_mode != InputMode::Normal,
        ensures
            r is Some <==> self@.input_column(bar.x as int) <= u16::MAX,
            r matches Some(b) ==> b@ == self@.shown_input(bar),
    {
        let typed: u32 = (self.input_buf.as_str().as_bytes().len() % 0x10000) as u32;
        let column: u32 = bar.x as u32 + 1 + typed;
        if column > 0xffff {
            return None;
        }
        let (prefix, color): (&str, Color) = if self.input_mode == InputMode::Search {
            ("/", Color::Yellow)
        } else {
            ("\\", Color::Green)
        };
        Some(
            InputBar {
                prefix: Span {
                    text: prefix.to_owned(),
                    style: Style { fg: Some(color), bg: None, bold: true },
                },
                typed: Span { text: self.input_buf.clone(), style: fg(color) },
                column: column as u16,
                row: bar.y,
            },
        )
    }

    /// What the screen holds when it is divided so; `None` where the column of the cursor is out of
    /// range.
    pub fn draw(&self, panes: Panes) -> (r: Option<Screen>)
        requires
            self@.wf(),
            panes.input is Some ==> self@.input_mode != InputMode::Normal,
        ensures
            r is Some <==> self@.drawable(panes),
            r matches Some(s) ==> s@ == self@.shown_screen(panes) && self@.found_rows_marked(
                s@.rows,
            ),
    {
        let height: usize = if panes.log.height > 2 {
            (panes.log.height - 2) as usize
        } else {
            0
        };
        let total: usize = self.visible_count();
        let rows: Vec<StyledLine> = self.window_rows(height);
        let input: Option<InputBar> = match panes.input {
            Some(bar) => match self.input_bar(bar) {
                Some(b) => Some(b),
                None => {
                    return None;
                },
            },
            None => None,
        };
        let detail: Option<Detail> = if panes.detail.is_some() {
            Some(self.detail())
        } else {
            None
        };
        let screen: Screen = Screen {
            title: self.title(),
            rows,
            max_offset: if total > height {
                total - height
            } else {
                0
            },
            position: self.offset,
            detail,
            input,
        };
        assert(screen@ =~= self@.shown_screen(panes));
        Some(screen)
    }

    /// The file that the selected line is written to for the editor: its name, and its content.
    pub fn editor_file(&self) -> (r: (String, String))
        ensures
            r.1@ == self@.selected_detail().0,
            r.0@ == if self@.selected_detail().1 {
                "logoscope_line.json"@
            } else {
                "logoscope_line.txt"@
            },
    {
        let (content, json): (String, bool) = self.selected_line_formatted();
        let name: String = if json {
            "logoscope_line.json".to_owned()
        } else {
            "logoscope_line.txt".to_owned()
        };
        (name, content)
    }
}

/// The parts of the screen are as wide as the area, stand one below the other without a gap, the
/// log at the top, and take up its rows; the log has as many rows as the detail panel or one more,
/// and the input bar has one row where there are four or more.
pub proof fn law_panes_share_the_rows(s: State, area: Area)
    ensures
        ({
            let p = s.panes(area);
            let log_end = p.log.y + p.log.height;
            let main_end = match p.detail {
                Some(d) => d.y + d.height,
                None => log_end,
            };
            &&& same_columns(p.log, area) && p.log.y == area.y
            &&& p.detail matches Some(d) ==> {
                &&& same_columns(d, area) && d.y == log_end
                &&& d.height <= p.log.height <= d.height + 1
            }
            &&& p.input matches Some(i) ==> {
                &&& same_columns(i, area) && i.y == main_end
                &&& i.y + i.height == area.y + rows_of(area)
                &&& rows_of(area) >= 4 ==> i.height == 1
            }
            &&& p.input is None && p.detail is Some ==> main_end == area.y + rows_of(area)
            &&& p.detail is Some <==> s.show_detail
            &&& p.input is Some <==> s.input_mode != InputMode::Normal
            &&& p.input matches Some(i) ==> rows_of(area) < 4 ==> i.height == 0
            &&& p.input is None && p.detail is None ==> p.log == area
        }),
{
}

/// In an area whose rows are all in range, the log has room for the window that keys and follow
/// mode keep the selected row in.
pub proof fn law_drawn_window_holds_the_window_kept(s: State, area: Area)
    requires
        area.y + area.height <= u16::MAX,
    ensures
        inner_height(s.panes(area).log) >= s.log_height(area.height as int),
{
}

/// The rows that are drawn when the screen takes up an area.
pub open spec fn drawn_rows(s: State, area: Area) -> Seq<(Seq<(Seq<char>, Style)>, Style)> {
    s.shown_rows(inner_height(s.panes(area).log))
}

/// Whether the selected row is among those drawn.
pub open spec fn draws_selected_row(s: State, area: Area) -> bool {
    let rows = drawn_rows(s, area);
    let i = s.cursor - s.offset;
    0 <= i < rows.len() && rows[i] == s.shown_row(s.cursor) && rows[i].1 == under_style(true)
}

/// Whatever panes are open, a selected row in the window that keys and follow mode keep it in is
/// drawn, and stands out.
pub proof fn law_selected_row_is_drawn(s: State, area: Area)
    requires
        s.wf(),
        s.visible_count() > 0,
        area.y + area.height <= u16::MAX,
        s.in_window(s.log_height(area.height as int)),
    ensures
        draws_selected_row(s, area),
{
    law_drawn_window_holds_the_window_kept(s, area);
}

/// A key that leaves the log as many rows as it had leaves the selected row among those drawn.
pub proof fn law_press_draws_selected_row(s: State, key: Key, area: Area)
    requires
        s.wf(),
        area.y + area.height <= u16::MAX,
        s.in_window(s.log_height(area.height as int)),
        ({
            let h = area.height as int;
            s.press(key, s.log_height(h)).0.log_height(h) >= s.log_height(h)
        }),
    ensures
        ({
            let t = s.press(key, s.log_height(area.height as int)).0;
            t.visible_count() > 0 ==> draws_selected_row(t, area)
        }),
{
    let h = s.log_height(area.height as int);
    let t = s.press(key, h).0;
    law_press_keeps_wf(s, key, h);
    law_press_keeps_window(s, key, h);
    if t.visible_count() > 0 {
        law_selected_row_is_drawn(t, area);
    }
}

/// In follow mode the last row is selected and drawn, where the log has room for a row.
pub proof fn law_follow_draws_last_row(s: State, area: Area)
    requires
        s.wf(),
        s.follow,
        s.visible_count() > 0,
        area.y + area.height <= u16::MAX,
        s.log_height(area.height as int) > 0,
    ensures
        ({
            let t = s.auto_follow(s.log_height(area.height as int));
            t.cursor == s.visible_count() - 1 && draws_selected_row(t, area)
        }),
{
    let h = s.log_height(area.height as int);
    let t = s.auto_follow(h);
    law_auto_follow_keeps_wf(s, h);
    law_motion_stays_in_window(s, 0, h);
    law_selected_row_is_drawn(t, area);
}

/// In follow mode without a filter, a line that comes in is drawn, whatever panes are open, where
/// the log has room for a row.
pub proof fn law_follow_draws_new_line(s: State, line: Seq<char>, area: Area)
    requires
        s.wf(),
        s.lines.len() < usize::MAX,
        s.follow,
        s.filtered_indices is None,
        area.y + area.height <= u16::MAX,
        s.log_height(area.height as int) > 0,
    ensures
        ({
            let t = s.push_line(line).auto_follow(s.log_height(area.height as int));
            &&& draws_selected_row(t, area)
            &&& shown_text(drawn_rows(t, area)[t.cursor - t.offset].0) == number_text(
                s.lines.len() as int + 1,
            ) + line
        }),
{
    let u = s.push_line(line);
    let h = s.log_height(area.height as int);
    let t = u.auto_follow(h);
    law_push_line_keeps_wf(s, line);
    law_follow_draws_last_row(u, area);
    law_follow_selects_new_line(s, line, h);
    law_rows_show_their_lines(t, inner_height(t.panes(area).log), t.cursor - t.offset);
}

/// Each row of the screen shows the number of its line, counted from one, and the line's text.
pub proof fn law_rows_show_their_lines(s: State, h: int, i: int)
    requires
        0 <= i < s.shown_count(h),
    ensures
        shown_text(s.shown_rows(h)[i].0) == number_text(s.real_index(s.offset + i) + 1)
            + s.visible_line(s.offset + i),
{
    let row = s.offset + i;
    let line = s.visible_line(row);
    law_showing_keeps_text(
        line,
        s.real_index(row) + 1,
        row == s.cursor,
        lowercase(line),
        origins(line),
        lowercase(s.search_query),
        s.search_matches.contains(row as usize),
    );
}

/// Where the window holds the selected row, that row stands out on the screen, and no other does.
pub proof fn law_selected_row_stands_out(s: State, h: int, i: int)
    requires
        s.wf(),
        s.in_window(h),
        0 <= i < s.shown_count(h),
    ensures
        s.visible_count() > 0 ==> 0 <= s.cursor - s.offset < s.shown_count(h),
        s.shown_rows(h)[i].1 == under_style(i == s.cursor - s.offset),
        under_style(true) != under_style(false),
{
}

/// With a filter in force, every row on the screen shows a line that the filter finds.
pub proof fn law_filter_holds_on_screen(s: State, h: int, i: int)
    requires
        s.wf(),
        s.filtered_indices is Some,
        0 <= i < s.shown_count(h),
    ensures
        finds(s.filter_query, s.visible_line(s.offset + i)),
{
    let f = s.filtered_indices->0;
    assert(f[s.offset + i] < s.lines.len());
}

} // verus!
