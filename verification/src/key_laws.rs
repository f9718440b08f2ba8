//! What each key does, said of what was there before it and of what is there after it.

use vstd::prelude::*;

use crate::bridge::lowercase;
use crate::highlight_laws::{lemma_stands, stands};
use crate::keys::{Action, Key, KeyCode};
use crate::laws::{lemma_filtered_rows_wf, lemma_same_rows_wf};
use crate::matching::{finds, law_matching_rows, lemma_first_from, lowered, matching_rows};
use crate::state::{lemma_do_search_wf, InputMode, State};
use crate::text::{has, occurs_at};

verus! {

/// How many rows there are to move among: one for each line that passes the filter, or one for
/// each line where there is no filter.
pub open spec fn row_total(s: State) -> int {
    match s.filtered_indices {
        Some(f) => f.len() as int,
        None => s.lines.len() as int,
    }
}

/// The line that a row stands for.
pub open spec fn row_line(s: State, row: int) -> int {
    match s.filtered_indices {
        Some(f) => f[row] as int,
        None => row,
    }
}

/// The text of a row.
pub open spec fn row_text(s: State, row: int) -> Seq<char> {
    s.lines[row_line(s, row)]
}

/// Whether a line holds a query, upper and lower case aside.
pub open spec fn holds(line: Seq<char>, query: Seq<char>) -> bool {
    exists|m: int| stands(lowercase(line), lowercase(query), m)
}

pub proof fn lemma_holds(line: Seq<char>, query: Seq<char>)
    ensures
        holds(line, query) == finds(query, line),
{
    let l = lowercase(line);
    let q = lowercase(query);
    if holds(line, query) {
        let m = choose|m: int| stands(l, q, m);
        lemma_stands(l, q, m);
    }
    if finds(query, line) {
        let m = choose|m: int| occurs_at(l, q, m);
        lemma_stands(l, q, m);
    }
}

/// Whether the window, of `h` rows, went with the selected row: no further than it had to.
pub open spec fn window_went_along(s: State, t: State, h: int) -> bool {
    &&& s.offset <= t.cursor && (h <= 0 || t.cursor < s.offset + h) ==> t.offset == s.offset
    &&& t.cursor < s.offset ==> t.offset == t.cursor
    &&& h > 0 && t.cursor >= s.offset + h ==> t.offset + h == t.cursor + 1
}

/// Whether nothing changed but the selected row, the window, and whether the viewer follows.
pub open spec fn only_moved(s: State, t: State) -> bool {
    t == (State { cursor: t.cursor, offset: t.offset, follow: t.follow, ..s })
}

/// Whether the selection went `by` rows down, or up where `by` is negative, as far as there are
/// rows.
pub open spec fn went(s: State, t: State, by: int) -> bool {
    let aim = s.cursor + by;
    &&& 0 <= aim < row_total(s) ==> t.cursor == aim
    &&& aim >= row_total(s) && row_total(s) > 0 ==> t.cursor == row_total(s) - 1
    &&& aim < 0 || row_total(s) == 0 ==> t.cursor == 0
}

/// Going down by `n` rows goes `n` rows down, and going up `n` rows up, as far as there are rows;
/// the window goes along, and nothing else changes.
pub proof fn law_motions_go_as_far_as_asked(s: State, n: int, h: int)
    requires
        s.wf(),
        0 <= n,
        0 <= h,
    ensures
        went(s, s.cursor_down(n, h), n),
        window_went_along(s, s.cursor_down(n, h), h),
        only_moved(s, s.cursor_down(n, h)),
        s.cursor_down(n, h).follow == s.follow,
        went(s, s.cursor_up(n, h), -n),
        window_went_along(s, s.cursor_up(n, h), h),
        only_moved(s, s.cursor_up(n, h)),
        s.cursor_up(n, h).follow == s.follow,
{
}

/// Going to the top selects the first row and shows it first; going to the bottom selects the last.
pub proof fn law_ends_are_reached(s: State, h: int)
    requires
        s.wf(),
        0 <= h,
    ensures
        s.goto_top() == (State { cursor: 0, offset: 0, ..s }),
        row_total(s) > 0 ==> s.goto_bottom(h).cursor == row_total(s) - 1,
        row_total(s) == 0 ==> s.goto_bottom(h).cursor == 0,
        window_went_along(s, s.goto_bottom(h), h),
        only_moved(s, s.goto_bottom(h)),
        s.goto_bottom(h).follow == s.follow,
{
}

/// Making the selected row visible moves the window and nothing else, no further than needed.
pub proof fn law_window_goes_along(s: State, h: int)
    requires
        0 <= h,
    ensures
        s.ensure_visible(h) == (State { offset: s.ensure_visible(h).offset, ..s }),
        window_went_along(s, s.ensure_visible(h), h),
{
}

/// A viewer that follows selects the last row each time it looks; one that does not stays.
pub proof fn law_following_selects_the_last_row(s: State, h: int)
    requires
        0 <= h,
    ensures
        !s.follow || row_total(s) == 0 ==> s.auto_follow(h) == s,
        s.follow && row_total(s) > 0 ==> {
            &&& s.auto_follow(h).cursor == row_total(s) - 1
            &&& window_went_along(s, s.auto_follow(h), h)
            &&& only_moved(s, s.auto_follow(h))
            &&& s.auto_follow(h).follow
        },
{
}

/// A line that comes in is put behind the others, and nothing else changes.
pub proof fn law_line_is_put_behind_the_others(s: State, line: Seq<char>)
    ensures
        s.push_line(line).lines.len() == s.lines.len() + 1,
        s.push_line(line).lines.last() == line,
        forall|i: int| 0 <= i < s.lines.len() ==> s.push_line(line).lines[i] == s.lines[i],
        s.push_line(line) == (State { lines: s.push_line(line).lines, ..s }),
{
}

/// Whether a key goes with Control alone.
pub open spec fn with_control(key: Key) -> bool {
    let m = key.modifiers;
    m.control && !m.shift && !m.alt && !m.logo && !m.hyper && !m.meta
}

/// Whether the key is this character.
pub open spec fn is_char(key: Key, c: char) -> bool {
    key.code == KeyCode::Char(c)
}

/// How many rows a key in normal mode moves the selection by, where it is one that moves it by
/// rows: down is positive.
pub open spec fn rows_of_key(key: Key, h: int) -> Option<int> {
    if is_char(key, 'j') || key.code is Down {
        Some(1)
    } else if is_char(key, 'k') || key.code is Up {
        Some(-1)
    } else if is_char(key, 'd') && with_control(key) {
        Some(h / 2)
    } else if is_char(key, 'u') && with_control(key) {
        Some(-(h / 2))
    } else if (is_char(key, 'f') && with_control(key)) || key.code is PageDown {
        Some(h)
    } else if (is_char(key, 'b') && with_control(key)) || key.code is PageUp {
        Some(-h)
    } else {
        None
    }
}

/// In normal mode `j` and Down go a row down, `k` and Up a row up; with Control, `d` and `u` go
/// half a window down and up, `f` and `b` a whole one, as PageDown and PageUp do. Following ends,
/// the window goes along, and nothing else changes.
pub proof fn law_motion_keys(s: State, key: Key, h: int)
    requires
        s.wf(),
        s.input_mode == InputMode::Normal,
        rows_of_key(key, h) is Some,
        0 <= h,
    ensures
        ({
            let t = s.press(key, h).0;
            &&& went(s, t, rows_of_key(key, h)->0)
            &&& window_went_along(s, t, h)
            &&& only_moved(s, t)
            &&& !t.follow
        }),
{
    let u = State { follow: false, ..s };
    let by = rows_of_key(key, h)->0;
    let n = if by >= 0 {
        by
    } else {
        -by
    };
    lemma_same_rows_wf(s, u);
    law_motions_go_as_far_as_asked(u, n, h);
    lemma_motion_press(s, key, h);
}

/// A key that moves the selection by rows goes down or up by so many.
proof fn lemma_motion_press(s: State, key: Key, h: int)
    requires
        s.input_mode == InputMode::Normal,
        rows_of_key(key, h) is Some,
        0 <= h,
    ensures
        ({
            let u = State { follow: false, ..s };
            let by = rows_of_key(key, h)->0;
            let t = s.press(key, h).0;
            (by >= 0 ==> t == u.cursor_down(by, h) || t == u.cursor_up(by, h) && by == 0) && (by < 0
                ==> t == u.cursor_up(-by, h))
        }),
{
}

/// In normal mode `g` and Home select the first row and show it first.
pub proof fn law_top_keys(s: State, key: Key, h: int)
    requires
        s.input_mode == InputMode::Normal,
        is_char(key, 'g') || key.code is Home,
    ensures
        s.press(key, h).0 == (State { cursor: 0, offset: 0, follow: false, ..s }),
{
}

/// In normal mode `G` and End select the last row and begin to follow.
pub proof fn law_bottom_keys(s: State, key: Key, h: int)
    requires
        s.wf(),
        s.input_mode == InputMode::Normal,
        is_char(key, 'G') || key.code is End,
        0 <= h,
    ensures
        ({
            let t = s.press(key, h).0;
            &&& row_total(s) > 0 ==> t.cursor == row_total(s) - 1
            &&& row_total(s) == 0 ==> t.cursor == 0
            &&& window_went_along(s, t, h)
            &&& only_moved(s, t)
            &&& t.follow
        }),
{
}

/// In normal mode `F` switches whether the viewer follows, Space whether the detail panel is open,
/// and `/` and `\` open the input bar: empty for a search, with the filter in force for a filter.
pub proof fn law_switching_keys(s: State, key: Key, h: int)
    requires
        s.input_mode == InputMode::Normal,
    ensures
        is_char(key, 'F') ==> s.press(key, h).0 == (State { follow: !s.follow, ..s }),
        is_char(key, ' ') ==> s.press(key, h).0 == (State {
            show_detail: !s.show_detail,
            follow: false,
            ..s
        }),
        is_char(key, '/') ==> s.press(key, h).0 == (State {
            input_mode: InputMode::Search,
            input_buf: seq![],
            follow: false,
            ..s
        }),
        is_char(key, '\\') ==> s.press(key, h).0 == (State {
            input_mode: InputMode::Filter,
            input_buf: s.filter_query,
            follow: false,
            ..s
        }),
{
}

/// Whether a key in normal mode does something to the state besides ending to follow.
pub open spec fn has_use(key: Key, h: int) -> bool {
    ||| rows_of_key(key, h) is Some
    ||| key.code is Home || key.code is End || key.code is Esc
    ||| is_char(key, 'g') || is_char(key, 'G') || is_char(key, 'F') || is_char(key, ' ')
    ||| is_char(key, '/') || is_char(key, '\\') || is_char(key, 'n') || is_char(key, 'N')
}

/// In normal mode every other key changes nothing, but that the viewer no longer follows.
pub proof fn law_other_keys(s: State, key: Key, h: int)
    requires
        s.input_mode == InputMode::Normal,
        !has_use(key, h),
    ensures
        s.press(key, h).0 == (State { follow: false, ..s }),
{
}

/// The viewer is left by `q`, and by `c` with Control, and Enter opens the editor: in normal mode,
/// and by no other key.
pub proof fn law_what_a_key_asks_for(s: State, key: Key, h: int)
    ensures
        s.press(key, h).1 == Action::Quit <==> s.input_mode == InputMode::Normal && (is_char(
            key,
            'q',
        ) || (is_char(key, 'c') && with_control(key))),
        s.press(key, h).1 == Action::OpenEditor <==> s.input_mode == InputMode::Normal
            && key.code is Enter,
{
}

/// Whether the selection went to the match at `k`.
pub open spec fn went_to_match(s: State, t: State, k: int, h: int) -> bool {
    &&& t.search_match_idx == Some(k as usize)
    &&& t.cursor == s.search_matches[k]
    &&& window_went_along(s, t, h)
    &&& t == (State {
        cursor: t.cursor,
        offset: t.offset,
        search_match_idx: t.search_match_idx,
        follow: t.follow,
        ..s
    })
}

/// The match after a match: the one behind it, and behind the last the first.
pub open spec fn match_after(k: int, n: int) -> int {
    if k + 1 < n {
        k + 1
    } else {
        0
    }
}

/// The match before a match: the one in front of it, and in front of the first the last.
pub open spec fn match_before(k: int, n: int) -> int {
    if k > 0 {
        k - 1
    } else {
        n - 1
    }
}

/// The next match is the one after the current one, and the previous match the one before it, round
/// the ends; where there are no matches, nothing changes. Switching the detail panel switches it
/// and nothing else.
pub proof fn law_next_and_previous_match(s: State, h: int)
    requires
        s.wf(),
        0 <= h,
    ensures
        ({
            let n = s.search_matches.len() as int;
            let k = s.search_match_idx->0 as int;
            &&& n == 0 ==> s.search_next(h) == s && s.search_prev(h) == s
            &&& n > 0 ==> went_to_match(s, s.search_next(h), match_after(k, n), h)
            &&& n > 0 ==> went_to_match(s, s.search_prev(h), match_before(k, n), h)
            &&& n > 0 ==> s.search_next(h).follow == s.follow
            &&& n > 0 ==> s.search_prev(h).follow == s.follow
            &&& s.toggle_detail() == (State { show_detail: !s.show_detail, ..s })
        }),
{
    let n = s.search_matches.len() as int;
    if n > 0 {
        let k = s.search_match_idx->0 as int;
        if k + 1 < n {
            vstd::arithmetic::div_mod::lemma_small_mod((k + 1) as nat, n as nat);
        } else {
            vstd::arithmetic::div_mod::lemma_mod_self_0(n);
        }
    }
}

/// In normal mode `n` goes from the current match to the one after it, and `N` to the one before
/// it, round the ends; where there are no matches, both do nothing.
pub proof fn law_match_keys(s: State, key: Key, h: int)
    requires
        s.wf(),
        s.input_mode == InputMode::Normal,
        0 <= h,
    ensures
        ({
            let t = s.press(key, h).0;
            let n = s.search_matches.len() as int;
            &&& (is_char(key, 'n') || is_char(key, 'N')) && n == 0 ==> t == (State {
                follow: false,
                ..s
            })
            &&& is_char(key, 'n') && n > 0 ==> !t.follow && went_to_match(
                s,
                t,
                match_after(s.search_match_idx->0 as int, n),
                h,
            )
            &&& is_char(key, 'N') && n > 0 ==> !t.follow && went_to_match(
                s,
                t,
                match_before(s.search_match_idx->0 as int, n),
                h,
            )
        }),
{
    let n = s.search_matches.len() as int;
    if n > 0 {
        let k = s.search_match_idx->0 as int;
        if k + 1 < n {
            vstd::arithmetic::div_mod::lemma_small_mod((k + 1) as nat, n as nat);
        } else {
            vstd::arithmetic::div_mod::lemma_mod_self_0(n);
        }
    }
}

/// Whether the matches of a state are those of its search query among its rows: the rows that hold
/// it, each once and in order, and none where there is no query.
pub open spec fn matches_are_right(s: State) -> bool {
    &&& s.search_query.len() == 0 ==> s.search_matches.len() == 0
    &&& s.search_query.len() > 0 ==> forall|row: usize| #[trigger]
        s.search_matches.contains(row) <==> row < row_total(s) && holds(
            row_text(s, row as int),
            s.search_query,
        )
    &&& forall|i: int, j: int|
        0 <= i < j < s.search_matches.len() ==> s.search_matches[i] < s.search_matches[j]
}

/// Whether the current match is the first at `row` or below it, or else the first of all; and
/// whether there is none where there are no matches.
pub open spec fn current_is_first_from(s: State, row: int) -> bool {
    match s.search_match_idx {
        Some(k) => {
            &&& k < s.search_matches.len()
            &&& {
                ||| s.search_matches[k as int] >= row && forall|j: int|
                    0 <= j < k ==> (#[trigger] s.search_matches[j]) < row
                ||| k == 0 && forall|j: int|
                    0 <= j < s.search_matches.len() ==> (#[trigger] s.search_matches[j]) < row
            }
        },
        None => s.search_matches.len() == 0,
    }
}

/// A search finds the rows that hold the query, all of them and no others, and makes the first from
/// the selected row on the current match. It changes nothing else.
pub proof fn law_search_is_right(s: State)
    requires
        s.rows_wf(),
    ensures
        matches_are_right(s.do_search()),
        current_is_first_from(s.do_search(), s.cursor),
        s.do_search() == (State {
            search_matches: s.do_search().search_matches,
            search_match_idx: s.do_search().search_match_idx,
            ..s
        }),
{
    let t = s.do_search();
    let m = t.search_matches;
    lemma_do_search_wf(s);
    let rows = lowered(s.visible_lines());
    let needle = lowercase(s.search_query);
    assert(s.visible_count() == row_total(s));
    law_matching_rows(rows, needle);
    if m.len() > 0 {
        lemma_first_from(m, s.cursor, 0);
    }
    if s.search_query.len() > 0 {
        assert forall|row: usize| #[trigger] m.contains(row) <==> row < row_total(t) && holds(
            row_text(t, row as int),
            t.search_query,
        ) by {
            if row < row_total(s) {
                let r = row as int;
                assert(rows[r] == lowercase(s.visible_lines()[r]));
                assert(s.visible_lines()[r] == s.visible_line(r));
                assert(s.visible_line(r) == row_text(t, r));
                lemma_holds(row_text(t, r), s.search_query);
                assert(has(rows[r], needle) == holds(row_text(t, r), s.search_query));
            }
            if m.contains(row) {
                let k = choose|k: int| 0 <= k < m.len() && m[k] == row;
                assert(matching_rows(rows, needle)[k] < rows.len());
            }
        }
    }
}

/// Enter behind a search that was typed: what was typed is the query, whatever the query was
/// before; its matches are the rows that hold it; the first of them from the selected row on, or
/// else the first of all, is selected; the bar is closed. Nothing else changes.
pub proof fn law_typed_search_is_done(s: State, key: Key, h: int)
    requires
        s.wf(),
        s.input_mode == InputMode::Search,
        key.code is Enter,
        0 <= h,
    ensures
        ({
            let t = s.press(key, h).0;
            &&& t.search_query == s.input_buf
            &&& matches_are_right(t)
            &&& current_is_first_from(t, s.cursor)
            &&& t.search_match_idx matches Some(k) ==> t.cursor == t.search_matches[k as int]
                && window_went_along(s, t, h)
            &&& t.search_match_idx is None ==> t.cursor == s.cursor && t.offset == s.offset
            &&& t == (State {
                search_query: t.search_query,
                search_matches: t.search_matches,
                search_match_idx: t.search_match_idx,
                cursor: t.cursor,
                offset: t.offset,
                input_mode: InputMode::Normal,
                ..s
            })
        }),
{
    let q = State { search_query: s.input_buf, ..s };
    let t = s.press(key, h).0;
    law_search_is_right(q);
    lemma_same_matches(q.do_search(), t);
}

/// What is right of the matches does not depend on the selection, the window or the bar.
proof fn lemma_same_matches(s: State, t: State)
    requires
        matches_are_right(s),
        t.lines == s.lines,
        t.filtered_indices == s.filtered_indices,
        t.search_query == s.search_query,
        t.search_matches == s.search_matches,
    ensures
        matches_are_right(t),
{
    assert(row_total(t) == row_total(s));
    if t.search_query.len() > 0 {
        assert forall|row: usize| #[trigger] t.search_matches.contains(row) <==> row < row_total(t)
            && holds(row_text(t, row as int), t.search_query) by {
            assert(row_text(t, row as int) == row_text(s, row as int));
        }
    }
}

/// Whether the filter in force is that of the filter query: it lets pass the lines that hold it,
/// each once and in order; and there is none where there is no query.
pub open spec fn filter_is_right(s: State) -> bool {
    if s.filter_query.len() == 0 {
        s.filtered_indices is None
    } else {
        &&& s.filtered_indices is Some
        &&& forall|line: usize| #[trigger]
            s.filtered_indices->0.contains(line) <==> line < s.lines.len() && holds(
                s.lines[line as int],
                s.filter_query,
            )
        &&& forall|i: int, j: int|
            0 <= i < j < s.filtered_indices->0.len() ==> s.filtered_indices->0[i]
                < s.filtered_indices->0[j]
    }
}

/// Filtering lets the lines pass that hold the filter query, all of them and no others, goes to the
/// top, and searches again where there is a search query. It changes nothing else.
pub proof fn law_filter_is_right(s: State)
    requires
        s.lines.len() <= usize::MAX,
        s.idle_search_wf(),
    ensures
        ({
            let t = s.apply_filter();
            &&& filter_is_right(t)
            &&& t.cursor == 0 && t.offset == 0
            &&& matches_are_right(t)
            &&& current_is_first_from(t, 0)
            &&& t == (State {
                filtered_indices: t.filtered_indices,
                cursor: 0,
                offset: 0,
                search_matches: t.search_matches,
                search_match_idx: t.search_match_idx,
                ..s
            })
        }),
{
    let rows = lowered(s.lines);
    let needle = lowercase(s.filter_query);
    let u = State { filtered_indices: s.passing_lines(), ..s }.goto_top();
    let t = s.apply_filter();
    law_matching_rows(rows, needle);
    if s.filter_query.len() > 0 {
        let f = matching_rows(rows, needle);
        assert(t.filtered_indices == Some(f));
        assert forall|line: usize| #[trigger] f.contains(line) <==> line < s.lines.len()
            && holds(s.lines[line as int], s.filter_query) by {
            if line < s.lines.len() {
                assert(rows[line as int] == lowercase(s.lines[line as int]));
                lemma_holds(s.lines[line as int], s.filter_query);
            }
            if f.contains(line) {
                let k = choose|k: int| 0 <= k < f.len() && f[k] == line;
                assert(f[k] < rows.len());
            }
        }
    }
    lemma_filtered_rows_wf(s);
    if s.search_query.len() > 0 {
        law_search_is_right(u);
    }
}

/// Enter behind a filter that was typed: what was typed is the query, whatever the query was
/// before; the lines that hold it pass, and no others; all lines where nothing was typed; the first
/// row is selected and shown first; what was searched for is searched again; the bar is closed.
/// Nothing else changes.
pub proof fn law_typed_filter_is_put_in_force(s: State, key: Key, h: int)
    requires
        s.wf(),
        s.input_mode == InputMode::Filter,
        key.code is Enter,
    ensures
        ({
            let t = s.press(key, h).0;
            &&& t.filter_query == s.input_buf
            &&& filter_is_right(t)
            &&& matches_are_right(t)
            &&& current_is_first_from(t, 0)
            &&& t == (State {
                filter_query: t.filter_query,
                filtered_indices: t.filtered_indices,
                cursor: 0,
                offset: 0,
                search_matches: t.search_matches,
                search_match_idx: t.search_match_idx,
                input_mode: InputMode::Normal,
                ..s
            })
        }),
{
    let q = State { filter_query: s.input_buf, ..s };
    law_filter_is_right(q);
    lemma_same_matches(q.apply_filter(), s.press(key, h).0);
}

/// While the input bar is open, a character is put behind what was typed, Backspace takes the last
/// character away where there is one, Escape closes the bar, and every key but these and Enter does
/// nothing.
pub proof fn law_typing(s: State, key: Key, h: int)
    requires
        s.input_mode != InputMode::Normal,
    ensures
        ({
            let t = s.press(key, h).0;
            &&& t == (State { input_buf: t.input_buf, input_mode: t.input_mode, ..s })
                || key.code is Enter
            &&& key.code matches KeyCode::Char(c) ==> {
                &&& t.input_mode == s.input_mode
                &&& t.input_buf.len() == s.input_buf.len() + 1
                &&& t.input_buf.last() == c
                &&& forall|i: int| 0 <= i < s.input_buf.len() ==> t.input_buf[i] == s.input_buf[i]
            }
            &&& key.code is Backspace ==> {
                &&& t.input_mode == s.input_mode
                &&& s.input_buf.len() == 0 ==> t == s
                &&& s.input_buf.len() > 0 ==> {
                    &&& t.input_buf.len() == s.input_buf.len() - 1
                    &&& forall|i: int|
                        0 <= i < t.input_buf.len() ==> t.input_buf[i] == s.input_buf[i]
                }
            }
            &&& key.code is Esc ==> t.input_mode == InputMode::Normal && t.input_buf
                == s.input_buf
            &&& !(key.code is Char || key.code is Backspace || key.code is Esc
                || key.code is Enter) ==> t == s
        }),
{
}

/// Clearing the filter shows all lines from the top, and what was searched for is searched again
/// among them. It changes nothing else.
pub proof fn law_cleared_filter_is_gone(s: State)
    requires
        s.wf(),
    ensures
        ({
            let t = s.clear_filter();
            &&& t.filter_query.len() == 0 && t.filtered_indices is None
            &&& matches_are_right(t)
            &&& current_is_first_from(t, 0)
            &&& t == (State {
                filter_query: seq![],
                filtered_indices: None,
                cursor: 0,
                offset: 0,
                search_matches: t.search_matches,
                search_match_idx: t.search_match_idx,
                ..s
            })
        }),
{
    let u = State { filter_query: seq![], filtered_indices: None, cursor: 0, offset: 0, ..s };
    if s.search_query.len() > 0 {
        law_search_is_right(u);
    }
}

/// In normal mode Escape takes one thing back: it closes the detail panel where it is open; else it
/// clears the filter where there is one; else the search; else nothing but that following ends.
pub proof fn law_escape_takes_one_thing_back(s: State, key: Key, h: int)
    requires
        s.wf(),
        s.input_mode == InputMode::Normal,
        key.code is Esc,
    ensures
        ({
            let t = s.press(key, h).0;
            let u = State { follow: false, ..s };
            &&& s.show_detail ==> t == (State { show_detail: false, ..u })
            &&& !s.show_detail && s.filtered_indices is Some ==> {
                &&& t.filter_query.len() == 0 && t.filtered_indices is None
                &&& matches_are_right(t)
                &&& current_is_first_from(t, 0)
                &&& t == (State {
                    filter_query: seq![],
                    filtered_indices: None,
                    cursor: 0,
                    offset: 0,
                    search_matches: t.search_matches,
                    search_match_idx: t.search_match_idx,
                    ..u
                })
            }
            &&& !s.show_detail && s.filtered_indices is None ==> t == (State {
                search_query: seq![],
                search_matches: seq![],
                search_match_idx: None,
                ..u
            })
        }),
{
    let u = State { follow: false, ..s };
    lemma_same_rows_wf(s, u);
    if !s.show_detail {
        if s.filtered_indices is Some {
            law_cleared_filter_is_gone(u);
        } else if s.search_query.len() == 0 {
            assert(s.search_query =~= seq![]);
            assert(s.search_matches =~= seq![]);
        }
    }
}

} // verus!
