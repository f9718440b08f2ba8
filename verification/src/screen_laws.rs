//! What the screen shows, said of the lines, the queries and the selection themselves.

use vstd::prelude::*;
use vstd::utf8::encode_utf8;

use crate::app::screen::{inner_height, DetailView, Panes};
use crate::app::{opening, range_view};
use crate::area::Area;
use crate::bridge::lowercase;
use crate::colorize::colored;
use crate::highlight::{ints, origins, shown_line};
use crate::json::pretty;
use crate::key_laws::{row_line, row_text, row_total};
use crate::state::{InputMode, State};
use crate::style::{line_views, Color, Style, StyledLine};
use crate::text::{decimal, lines_of, texts};
use crate::text_laws::{
    inner_lies, law_json_is_known_by_its_brackets, law_trimming_takes_the_white_space_away,
};

verus! {

/// A viewer begins at the top of its lines, in normal mode, with the detail panel closed, with
/// nothing typed, searched or filtered.
pub proof fn law_viewer_begins_plain(filename: Seq<char>, lines: Seq<Seq<char>>, follow: bool)
    ensures
        ({
            let s = opening(filename, lines, follow);
            &&& s.filename == filename && s.lines == lines && s.follow == follow
            &&& s.cursor == 0 && s.offset == 0
            &&& s.input_mode == InputMode::Normal && !s.show_detail
            &&& s.input_buf.len() == 0 && s.search_query.len() == 0 && s.filter_query.len() == 0
            &&& s.search_matches.len() == 0 && s.search_match_idx is None
            &&& s.filtered_indices is None
        }),
{
}

/// The rows are the lines that pass the filter, or all lines, and the last of them is one less than
/// their number.
pub proof fn law_rows_are_counted(s: State, row: int)
    ensures
        s.visible_count() == row_total(s),
        row_total(s) > 0 ==> s.max_line() == row_total(s) - 1,
        row_total(s) == 0 ==> s.max_line() == 0,
        0 <= row < row_total(s) ==> s.real_index(row) == row_line(s, row),
        s.filtered_indices is None ==> s.real_index(row) == row,
        s.filtered_indices is Some && row >= row_total(s) ==> s.real_index(row) == 0,
{
}

/// Some of the rows are given as they are asked for, as far as there are any, each with the place
/// and the text of its line.
pub proof fn law_rows_are_given_as_asked_for(s: State, start: int, end: int, i: int)
    requires
        s.wf(),
        0 <= start,
    ensures
        ({
            let rows = s.rows(start, end);
            let stop = if end < row_total(s) {
                end
            } else {
                row_total(s)
            };
            &&& start < stop ==> rows.len() == stop - start
            &&& start >= stop ==> rows.len() == 0
            &&& 0 <= i < rows.len() ==> rows[i] == (row_line(s, start + i), row_text(s, start + i))
        }),
{
}

/// The window shows as many rows as it has room for and as there are from its first on, each as a
/// line is shown: with the number of the line counted from one, selected where it is the selected
/// row, and with the search query marked where the search found it.
pub proof fn law_window_shows_the_rows(s: State, h: int, i: int)
    requires
        s.wf(),
        0 <= h,
    ensures
        ({
            let rows = s.shown_rows(h);
            let rest = row_total(s) - s.offset;
            &&& h <= rest ==> rows.len() == h
            &&& h > rest ==> rows.len() == rest
            &&& 0 <= i < rows.len() ==> rows[i] == shown_line(
                row_text(s, s.offset + i),
                row_line(s, s.offset + i) + 1,
                s.offset + i == s.cursor,
                lowercase(row_text(s, s.offset + i)),
                origins(row_text(s, s.offset + i)),
                lowercase(s.search_query),
                s.search_matches.contains((s.offset + i) as usize),
            )
        }),
{
}

/// The text that the selection stands on: that of the selected row; that of the first line where a
/// filter lets no line pass; and none where there is no line.
pub open spec fn selected_text(s: State) -> Seq<char> {
    if s.lines.len() == 0 {
        seq![]
    } else if row_total(s) == 0 {
        s.lines[0]
    } else {
        row_text(s, s.cursor)
    }
}

/// The detail panel and the editor get the selected text: pretty-printed, without the white space
/// around it, where it begins and ends as JSON does, and else as it is. The panel shows
/// pretty-printed text line by line, each line coloured.
pub proof fn law_detail_is_the_selected_text(s: State, a: int, b: int)
    requires
        s.wf(),
        inner_lies(selected_text(s), a, b),
    ensures
        ({
            let x = selected_text(s);
            let json = a < b && ((x[a] == '{' && x[b - 1] == '}') || (x[a] == '[' && x[b - 1]
                == ']'));
            let laid_out = pretty(x.subrange(a, b));
            let free = Style { fg: None, bg: None, bold: false };
            &&& s.selected_line() == x
            &&& json ==> {
                &&& s.selected_detail() == (laid_out, true)
                &&& s.shown_detail() matches DetailView::Json(lines) && {
                    &&& lines.len() == lines_of(laid_out).len()
                    &&& forall|i: int|
                        0 <= i < lines.len() ==> #[trigger] lines[i] == (
                            colored(lines_of(laid_out)[i]),
                            free,
                        )
                }
            }
            &&& !json ==> s.selected_detail() == (x, false) && s.shown_detail()
                == DetailView::Text(x)
        }),
{
    let x = selected_text(s);
    if s.lines.len() > 0 && row_total(s) > 0 {
        if let Some(f) = s.filtered_indices {
            assert(f[s.cursor] < s.lines.len());
        }
    }
    if s.lines.len() == 0 {
        if let Some(f) = s.filtered_indices {
            if f.len() > 0 {
                assert(f[0] < s.lines.len());
            }
        }
    }
    assert(s.selected_line() =~= x);
    law_trimming_takes_the_white_space_away(x, a, b);
    law_json_is_known_by_its_brackets(x, a, b);
    let t = x.subrange(a, b);
    if a < b {
        assert(t[0] == x[a] && t.last() == x[b - 1]);
        assert(inner_lies(t, 0, b - a));
        law_json_is_known_by_its_brackets(t, 0, b - a);
    } else {
        assert(inner_lies(t, 0, 0));
        law_json_is_known_by_its_brackets(t, 0, 0);
    }
}

/// How many rows of a terminal the log has for lines: those that the input bar leaves, or half of
/// them, rounded down, where the detail panel is open, less a border above and one below.
pub proof fn law_log_has_what_is_left(s: State, total: int)
    requires
        total > 0 || s.input_mode == InputMode::Normal,
        0 <= total,
    ensures
        ({
            let left = if s.input_mode == InputMode::Normal {
                total
            } else {
                total - 1
            };
            let h = s.log_height(total);
            &&& 0 <= h
            &&& !s.show_detail && left >= 2 ==> h + 2 == left
            &&& s.show_detail && left >= 4 ==> 2 * (h + 2) <= left < 2 * (h + 2) + 2
            &&& !s.show_detail && left < 2 ==> h == 0
            &&& s.show_detail && left < 4 ==> h == 0
        }),
{
}

/// The title names the log, the selected row and the number of rows, and says whether the viewer
/// follows, how many lines a filter lets pass, and which match of how many is the current one, or
/// that there are none.
pub proof fn law_title_says_where_one_is(s: State)
    requires
        s.wf(),
    ensures
        ({
            let place = if row_total(s) > 0 {
                (s.cursor + 1) as nat
            } else {
                0
            };
            let follow = if s.follow {
                seq![' ', '[', 'F', 'O', 'L', 'L', 'O', 'W', ']']
            } else {
                seq![]
            };
            let filter = match s.filtered_indices {
                Some(f) => seq![' ', '[', 'F', 'I', 'L', 'T', 'E', 'R', ':', ' '] + decimal(f.len())
                    + seq![' ', 'm', 'a', 't', 'c', 'h', 'e', 's', ']'],
                None => seq![],
            };
            let search = if s.search_matches.len() > 0 {
                seq![' ', '['] + decimal((s.search_match_idx->0 + 1) as nat) + seq!['/'] + decimal(
                    s.search_matches.len(),
                ) + seq![']']
            } else if s.search_query.len() > 0 {
                seq![' ', '[', 'n', 'o', ' ', 'm', 'a', 't', 'c', 'h', 'e', 's', ']']
            } else {
                seq![]
            };
            s.title() == seq![' '] + s.filename + seq![
                ' ',
                '\u{2014}',
                ' ',
                'l',
                'i',
                'n',
                'e',
                ' ',
            ] + decimal(place) + seq!['/'] + decimal(row_total(s) as nat) + follow + filter
                + search + seq![' ']
        }),
{
    reveal_strlit(" ");
    reveal_strlit(" \u{2014} line ");
    reveal_strlit("/");
    reveal_strlit(" [FOLLOW]");
    reveal_strlit(" [FILTER: ");
    reveal_strlit(" matches]");
    reveal_strlit(" [");
    reveal_strlit("]");
    reveal_strlit(" [no matches]");
    assert(" "@ =~= seq![' ']);
    assert(" \u{2014} line "@ =~= seq![' ', '\u{2014}', ' ', 'l', 'i', 'n', 'e', ' ']);
    assert("/"@ =~= seq!['/']);
    assert(" [FOLLOW]"@ =~= seq![' ', '[', 'F', 'O', 'L', 'L', 'O', 'W', ']']);
    assert(" [FILTER: "@ =~= seq![' ', '[', 'F', 'I', 'L', 'T', 'E', 'R', ':', ' ']);
    assert(" matches]"@ =~= seq![' ', 'm', 'a', 't', 'c', 'h', 'e', 's', ']']);
    assert(" ["@ =~= seq![' ', '[']);
    assert("]"@ =~= seq![']']);
    assert(" [no matches]"@ =~= seq![
        ' ',
        '[',
        'n',
        'o',
        ' ',
        'm',
        'a',
        't',
        'c',
        'h',
        'e',
        's',
        ']',
    ]);
}

/// The input bar shows a slash in bold yellow before what is typed for a search, and a backslash in
/// bold green before what is typed for a filter; what is typed has the same colour. The cursor
/// stands behind the bytes typed, in the row of the bar.
pub proof fn law_input_bar_shows_what_is_typed(s: State, bar: Area)
    requires
        s.input_mode != InputMode::Normal,
    ensures
        ({
            let i = s.shown_input(bar);
            let color = if s.input_mode == InputMode::Search {
                Color::Yellow
            } else {
                Color::Green
            };
            &&& s.input_mode == InputMode::Search ==> i.prefix.0 == seq!['/']
            &&& s.input_mode == InputMode::Filter ==> i.prefix.0 == seq!['\\']
            &&& i.prefix.1 == (Style { fg: Some(color), bg: None, bold: true })
            &&& i.typed == (s.input_buf, Style { fg: Some(color), bg: None, bold: false })
            &&& encode_utf8(s.input_buf).len() < 0x10000 ==> i.column == bar.x + 1 + encode_utf8(
                s.input_buf,
            ).len()
            &&& i.row == bar.y
            &&& s.input_column(bar.x as int) == i.column
        }),
{
    reveal_strlit("/");
    reveal_strlit("\\");
    assert("/"@ =~= seq!['/']);
    assert("\\"@ =~= seq!['\\']);
    let n = encode_utf8(s.input_buf).len();
    if n < 0x10000 {
        vstd::arithmetic::div_mod::lemma_small_mod(n, 0x10000);
    }
}

/// The screen holds the title, the rows that the log has room for between its borders, how far the
/// window can be moved and where it is, the detail panel where there is a place for it, and the
/// input bar where there is one for it.
pub proof fn law_screen_holds_its_parts(s: State, p: Panes)
    requires
        s.wf(),
    ensures
        ({
            let v = s.shown_screen(p);
            let room = if p.log.height >= 2 {
                p.log.height - 2
            } else {
                0
            };
            &&& v.title == s.title()
            &&& v.rows == s.shown_rows(room)
            &&& v.position == s.offset
            &&& row_total(s) >= room ==> v.max_offset + room == row_total(s)
            &&& row_total(s) < room ==> v.max_offset == 0
            &&& v.detail is Some <==> p.detail is Some
            &&& v.detail matches Some(d) ==> d == s.shown_detail()
            &&& v.input is Some <==> p.input is Some
            &&& v.input matches Some(i) ==> p.input matches Some(bar) && i == s.shown_input(bar)
            &&& s.drawable(p) <==> (p.input matches Some(bar) ==> s.shown_input(bar).column
                <= 0xffff)
            &&& inner_height(p.log) == room
        }),
{
}

/// What is said of strings, spans and lines is said of their texts, styles and order.
pub proof fn law_values_are_taken_as_they_are(
    strings: Seq<String>,
    rows: Seq<(usize, String)>,
    numbers: Seq<usize>,
    line: StyledLine,
    lines: Seq<StyledLine>,
    i: int,
)
    ensures
        texts(strings).len() == strings.len(),
        0 <= i < strings.len() ==> texts(strings)[i] == strings[i]@,
        range_view(rows).len() == rows.len(),
        0 <= i < rows.len() ==> range_view(rows)[i] == (rows[i].0 as int, rows[i].1@),
        ints(numbers).len() == numbers.len(),
        0 <= i < numbers.len() ==> ints(numbers)[i] == numbers[i],
        line@.0.len() == line.spans@.len(),
        0 <= i < line.spans@.len() ==> line@.0[i] == (
            line.spans@[i].text@,
            line.spans@[i].style,
        ),
        line@.1 == line.style,
        line_views(lines).len() == lines.len(),
        0 <= i < lines.len() ==> line_views(lines)[i] == lines[i]@,
{
}

} // verus!
