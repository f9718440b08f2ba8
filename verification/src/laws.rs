//! What holds of the viewer whatever is done with it.

use vstd::prelude::*;

use crate::app::opening;
use crate::bridge::lowercase;
use crate::keys::{Action, Key, KeyCode};
use crate::matching::{
    finds, first_from, law_matching_rows, lemma_first_from, lowered, matching_rows,
};
use crate::state::{lemma_do_search_wf, lemma_increasing_len, InputMode, State};

verus! {

/// Moving a window, or selecting a row that exists, keeps the state well-formed.
pub proof fn lemma_select_wf(s: State, row: int, h: int)
    requires
        s.wf(),
        0 <= row <= s.max_line(),
        0 <= h,
    ensures
        s.select(row, h).wf(),
{
    let t = s.select(row, h);
    assert(forall|r: int| t.visible_line(r) == s.visible_line(r));
    assert(t.search_wf());
}

/// Moving by rows keeps the state well-formed.
pub proof fn lemma_motion_wf(s: State, n: int, h: int)
    requires
        s.wf(),
        0 <= n,
        0 <= h,
    ensures
        s.cursor_down(n, h).wf(),
        s.cursor_up(n, h).wf(),
        s.goto_bottom(h).wf(),
{
    let down = if s.cursor + n <= s.max_line() {
        s.cursor + n
    } else {
        s.max_line()
    };
    let up = if n <= s.cursor {
        s.cursor - n
    } else {
        0
    };
    lemma_select_wf(s, down, h);
    lemma_select_wf(s, up, h);
    lemma_select_wf(s, s.max_line(), h);
}

/// Going to a match keeps the state well-formed.
pub proof fn lemma_goto_match_wf(s: State, k: int, h: int)
    requires
        s.wf(),
        0 <= k < s.search_matches.len(),
        0 <= h,
    ensures
        s.goto_match(k, h).wf(),
{
    let t = State { search_match_idx: Some(k as usize), ..s };
    assert(s.search_matches[k] < s.visible_count());
    assert(forall|r: int| t.visible_line(r) == s.visible_line(r));
    assert(t.wf());
    lemma_select_wf(t, s.search_matches[k] as int, h);
}

/// The rows that a filter leaves, seen from the top.
pub proof fn lemma_filtered_rows_wf(s: State)
    requires
        s.lines.len() <= usize::MAX,
    ensures
        (State { filtered_indices: s.passing_lines(), ..s }).goto_top().rows_wf(),
{
    let rows = lowered(s.lines);
    law_matching_rows(rows, lowercase(s.filter_query));
    if let Some(f) = s.passing_lines() {
        lemma_increasing_len(f, rows.len() as int);
        assert forall|i: int| 0 <= i < f.len() implies (#[trigger] f[i]) < s.lines.len() && finds(
            s.filter_query,
            s.lines[f[i] as int],
        ) by {
            assert(rows[f[i] as int] == lowercase(s.lines[f[i] as int]));
        }
    }
}

/// Filtering leads to a well-formed state, whatever the filter was before.
pub proof fn lemma_apply_filter_wf(s: State)
    requires
        s.lines.len() <= usize::MAX,
        s.idle_search_wf(),
    ensures
        s.apply_filter().wf(),
{
    lemma_filtered_rows_wf(s);
    lemma_do_search_wf(State { filtered_indices: s.passing_lines(), ..s }.goto_top());
}

/// Clearing the filter keeps the state well-formed.
pub proof fn lemma_clear_filter_wf(s: State)
    requires
        s.wf(),
    ensures
        s.clear_filter().wf(),
{
    let t = State { filter_query: seq![], filtered_indices: None, ..s }.goto_top();
    lemma_do_search_wf(t);
}

/// Searching keeps the state well-formed.
pub proof fn lemma_submit_search_wf(s: State, h: int)
    requires
        s.wf(),
        0 <= h,
    ensures
        s.submit_search(h).wf(),
{
    let s0 = State { search_query: s.input_buf, ..s };
    lemma_do_search_wf(s0);
    let t = s0.do_search();
    if let Some(k) = t.search_match_idx {
        assert(t.search_matches[k as int] < t.visible_count());
        lemma_select_wf(t, t.search_matches[k as int] as int, h);
    }
}

/// A change of what the lines, rows and queries do not depend on keeps the state well-formed.
pub proof fn lemma_same_rows_wf(s: State, t: State)
    requires
        s.wf(),
        t.lines == s.lines,
        t.offset == s.offset,
        t.cursor == s.cursor,
        t.search_query == s.search_query,
        t.search_matches == s.search_matches,
        t.search_match_idx == s.search_match_idx,
        t.filter_query == s.filter_query,
        t.filtered_indices == s.filtered_indices,
    ensures
        t.wf(),
{
    assert(forall|r: int| t.visible_line(r) == s.visible_line(r));
}

/// Another line that comes in leaves the state well-formed.
pub proof fn law_push_line_keeps_wf(s: State, line: Seq<char>)
    requires
        s.wf(),
        s.lines.len() < usize::MAX,
    ensures
        s.push_line(line).wf(),
{
    let t = s.push_line(line);
    assert(t.filter_wf()) by {
        if let Some(f) = s.filtered_indices {
            assert forall|i: int| 0 <= i < f.len() implies (#[trigger] f[i]) < t.lines.len()
                && finds(t.filter_query, t.lines[f[i] as int]) by {
                assert(t.lines[f[i] as int] == s.lines[f[i] as int]);
            }
        }
    }
    let m = s.search_matches;
    assert forall|i: int| 0 <= i < m.len() implies (#[trigger] m[i]) < t.visible_count() && finds(
        t.search_query,
        t.visible_line(m[i] as int),
    ) by {
        assert(m[i] < s.visible_count());
        let at = s.real_index(m[i] as int);
        assert(t.real_index(m[i] as int) == at);
        if let Some(f) = s.filtered_indices {
            assert(f[m[i] as int] < s.lines.len());
        }
        assert(t.lines[at] == s.lines[at]);
    }
}

/// Following leaves the state well-formed.
pub proof fn law_auto_follow_keeps_wf(s: State, h: int)
    requires
        s.wf(),
        0 <= h,
    ensures
        s.auto_follow(h).wf(),
{
    if s.follow && s.visible_count() > 0 {
        lemma_select_wf(s, s.visible_count() - 1, h);
    }
}

/// Whatever key is pressed, the state stays well-formed: the filter holds lines that its query
/// finds, the matches are rows that the search query finds, and the selected row exists.
#[verifier::rlimit(40)]
pub proof fn law_press_keeps_wf(s: State, key: Key, h: int)
    requires
        s.wf(),
        0 <= h,
    ensures
        s.press(key, h).0.wf(),
{
    if s.input_mode == InputMode::Normal {
        let t = State { follow: false, ..s };
        lemma_same_rows_wf(s, t);
        lemma_motion_wf(t, 1, h);
        lemma_motion_wf(t, h / 2, h);
        lemma_motion_wf(t, h, h);
        lemma_same_rows_wf(t.goto_bottom(h), State { follow: true, ..t.goto_bottom(h) });
        lemma_goto_top_wf(t);
        lemma_next_prev_wf(t, h);
        lemma_step_back_wf(t);
        let u = s.press(key, h).0;
        if u.lines == t.lines && u.offset == t.offset && u.cursor == t.cursor && u.search_query
            == t.search_query && u.search_matches == t.search_matches && u.search_match_idx
            == t.search_match_idx && u.filter_query == t.filter_query && u.filtered_indices
            == t.filtered_indices {
            lemma_same_rows_wf(t, u);
        }
    } else {
        lemma_submit_search_wf(s, h);
        lemma_apply_filter_wf(State { filter_query: s.input_buf, ..s });
        let u = s.press(key, h).0;
        if key.code is Enter {
            if s.input_mode == InputMode::Search {
                lemma_same_rows_wf(s.submit_search(h), u);
            } else {
                lemma_same_rows_wf(s.submit_filter(), u);
            }
        } else {
            lemma_same_rows_wf(s, u);
        }
    }
}

pub proof fn lemma_goto_top_wf(s: State)
    requires
        s.wf(),
    ensures
        s.goto_top().wf(),
{
    let t = s.goto_top();
    assert(forall|r: int| t.visible_line(r) == s.visible_line(r));
    assert(t.search_wf());
}

pub proof fn lemma_next_prev_wf(s: State, h: int)
    requires
        s.wf(),
        0 <= h,
    ensures
        s.search_next(h).wf(),
        s.search_prev(h).wf(),
{
    let n = s.search_matches.len() as int;
    if n > 0 {
        if let Some(k) = s.search_match_idx {
            vstd::arithmetic::div_mod::lemma_mod_bound(k + 1, n);
            lemma_goto_match_wf(s, (k + 1) % n, h);
            if k > 0 {
                lemma_goto_match_wf(s, k - 1, h);
            }
        }
        lemma_goto_match_wf(s, 0, h);
        lemma_goto_match_wf(s, n - 1, h);
    }
}

pub proof fn lemma_step_back_wf(s: State)
    requires
        s.wf(),
    ensures
        s.step_back().wf(),
{
    lemma_same_rows_wf(s, State { show_detail: false, ..s });
    lemma_clear_filter_wf(s);
    let t = s.clear_search();
    assert(t.search_wf());
}

/// After each motion the selected row is in the window.
pub proof fn law_motion_stays_in_window(s: State, n: int, h: int)
    requires
        s.wf(),
        0 <= n,
        0 < h,
    ensures
        s.cursor_down(n, h).in_window(h),
        s.cursor_up(n, h).in_window(h),
        s.goto_top().in_window(h),
        s.goto_bottom(h).in_window(h),
        s.search_matches.len() > 0 ==> s.search_next(h).in_window(h),
        s.search_matches.len() > 0 ==> s.search_prev(h).in_window(h),
        s.follow && s.visible_count() > 0 ==> s.auto_follow(h).in_window(h),
        s.apply_filter().in_window(h),
        s.clear_filter().in_window(h),
{
}

/// Whatever key is pressed, a window that holds the selected row goes on holding it.
pub proof fn law_press_keeps_window(s: State, key: Key, h: int)
    requires
        s.wf(),
        s.in_window(h),
    ensures
        s.press(key, h).0.in_window(h),
{
    if s.input_mode == InputMode::Normal {
        let t = State { follow: false, ..s };
        lemma_same_rows_wf(s, t);
        law_motion_stays_in_window(t, 1, h);
        law_motion_stays_in_window(t, h / 2, h);
        law_motion_stays_in_window(t, h, h);
        assert(t.step_back().in_window(h));
    } else {
        assert(s.submit_search(h).in_window(h));
        assert(s.submit_filter().in_window(h));
    }
}

/// Where the window holds the selected row already, it does not move.
pub proof fn law_window_moves_only_at_need(s: State, row: int, h: int)
    requires
        s.offset <= row < s.offset + h,
    ensures
        s.select(row, h).offset == s.offset,
{
}

/// Going up undoes going down, where there were rows enough below.
pub proof fn law_up_undoes_down(s: State, n: int, h: int)
    requires
        s.wf(),
        0 <= n,
        s.cursor + n <= s.max_line(),
    ensures
        s.cursor_down(n, h).cursor_up(n, h).cursor == s.cursor,
{
}

/// The previous match of the next match is the current one, and the other way round.
pub proof fn law_prev_undoes_next(s: State, h: int)
    requires
        s.wf(),
    ensures
        s.search_next(h).search_prev(h).search_match_idx == s.search_match_idx,
        s.search_prev(h).search_next(h).search_match_idx == s.search_match_idx,
        s.search_match_idx matches Some(k) ==> {
            &&& s.search_next(h).search_prev(h).cursor == s.search_matches[k as int]
            &&& s.search_prev(h).search_next(h).cursor == s.search_matches[k as int]
        },
{
    let n = s.search_matches.len() as int;
    if let Some(k) = s.search_match_idx {
        lemma_wrap(k as int, n);
        lemma_wrap(n - 1, n);
        if k > 0 {
            lemma_wrap(k - 1, n);
        }
    }
}

/// One step further on a circle of `n`.
proof fn lemma_wrap(k: int, n: int)
    requires
        0 <= k < n,
    ensures
        (k + 1) % n == if k + 1 == n {
            0
        } else {
            k + 1
        },
{
    if k + 1 == n {
        vstd::arithmetic::div_mod::lemma_mod_self_0(n);
    } else {
        vstd::arithmetic::div_mod::lemma_small_mod((k + 1) as nat, n as nat);
    }
}

/// The state after going to the next match `times` times.
pub open spec fn next_times(s: State, h: int, times: nat) -> State
    decreases times,
{
    if times == 0 {
        s
    } else {
        next_times(s, h, (times - 1) as nat).search_next(h)
    }
}

/// The `times`-th press of the key for the next match stands so many matches further on, on the
/// circle of all of them.
pub proof fn law_next_steps_on(s: State, h: int, times: nat)
    requires
        s.wf(),
        s.search_match_idx is Some,
    ensures
        ({
            let t = next_times(s, h, times);
            let k = (s.search_match_idx->0 + times) % (s.search_matches.len() as int);
            &&& t.search_matches == s.search_matches
            &&& 0 <= k < s.search_matches.len()
            &&& t.search_match_idx == Some(k as usize)
            &&& times > 0 ==> t.cursor == s.search_matches[k]
        }),
    decreases times,
{
    let n = s.search_matches.len() as int;
    let k = s.search_match_idx->0 as int;
    vstd::arithmetic::div_mod::lemma_mod_bound(k + times, n);
    if times == 0 {
        vstd::arithmetic::div_mod::lemma_small_mod(k as nat, n as nat);
    } else {
        law_next_steps_on(s, h, (times - 1) as nat);
        vstd::arithmetic::div_mod::lemma_add_mod_noop_right(1, k + times - 1, n);
    }
}

/// Going to the next match as often as there are matches goes round all of them: it ends at the
/// match that was current.
pub proof fn law_next_goes_round(s: State, h: int)
    requires
        s.wf(),
        s.search_match_idx is Some,
    ensures
        ({
            let t = next_times(s, h, s.search_matches.len());
            &&& t.search_match_idx == s.search_match_idx
            &&& t.cursor == s.search_matches[s.search_match_idx->0 as int]
        }),
{
    let n = s.search_matches.len();
    let k = s.search_match_idx->0;
    law_next_steps_on(s, h, n);
    vstd::arithmetic::div_mod::lemma_mod_add_multiples_vanish(k as int, n as int);
    vstd::arithmetic::div_mod::lemma_small_mod(k as nat, n);
}

/// The next and the previous match are rows that the search query finds.
pub proof fn law_jumps_land_on_matches(s: State, h: int)
    requires
        s.wf(),
        s.search_matches.len() > 0,
    ensures
        s.search_matches.contains(s.search_next(h).cursor as usize),
        s.search_matches.contains(s.search_prev(h).cursor as usize),
        finds(s.search_query, s.visible_line(s.search_next(h).cursor)),
        finds(s.search_query, s.visible_line(s.search_prev(h).cursor)),
{
    let n = s.search_matches.len() as int;
    let k = s.search_match_idx->0 as int;
    lemma_wrap(k, n);
    let next = (k + 1) % n;
    let prev = if k > 0 {
        k - 1
    } else {
        n - 1
    };
    assert(finds(s.search_query, s.visible_line(s.search_matches[next] as int)));
    assert(finds(s.search_query, s.visible_line(s.search_matches[prev] as int)));
    assert(s.search_next(h).cursor == s.search_matches[next]);
    assert(s.search_prev(h).cursor == s.search_matches[prev]);
}

/// The matches of a search are exactly the rows that the query finds.
pub proof fn law_search_finds_all(s: State, row: usize)
    requires
        s.rows_wf(),
        s.search_query.len() > 0,
        row < s.visible_count(),
    ensures
        s.do_search().search_matches.contains(row) <==> finds(
            s.search_query,
            s.visible_line(row as int),
        ),
{
    let rows = lowered(s.visible_lines());
    let needle = lowercase(s.search_query);
    lemma_visible_fits(s);
    law_matching_rows(rows, needle);
    assert(rows[row as int] == lowercase(s.visible_line(row as int)));
    let m = matching_rows(rows, needle);
    if m.contains(row) {
        let k = choose|k: int| 0 <= k < m.len() && m[k] == row;
        assert(m[k] == row);
    }
}

proof fn lemma_visible_fits(s: State)
    requires
        s.rows_wf(),
    ensures
        0 <= s.visible_count() <= usize::MAX,
{
}

/// A search that finds something goes to the first match at or below the selected row, or else to
/// the first match of all.
pub proof fn law_search_goes_to_first_match(s: State, h: int)
    requires
        s.wf(),
    ensures
        ({
            let t = s.submit_search(h);
            let m = t.search_matches;
            &&& m.len() == 0 ==> t.cursor == s.cursor
            &&& m.len() > 0 ==> {
                ||| t.cursor >= s.cursor && m.contains(t.cursor as usize) && (forall|i: int|
                    0 <= i < m.len() && m[i] >= s.cursor ==> t.cursor <= #[trigger] m[i])
                ||| t.cursor == m[0] && (forall|i: int|
                    0 <= i < m.len() ==> (#[trigger] m[i]) < s.cursor)
            }
        }),
{
    let t = State { search_query: s.input_buf, ..s }.do_search();
    let m = t.search_matches;
    lemma_do_search_wf(State { search_query: s.input_buf, ..s });
    if m.len() > 0 {
        lemma_first_from(m, s.cursor, 0);
        let k = first_from(m, s.cursor, 0);
        assert(t.search_match_idx == Some(k as usize));
        assert(m.contains(m[k]));
    }
}

/// A filter shows exactly the lines that its query finds.
pub proof fn law_filter_shows_what_it_finds(s: State, line: usize)
    requires
        s.lines.len() <= usize::MAX,
        s.filter_query.len() > 0,
        line < s.lines.len(),
    ensures
        s.apply_filter().filtered_indices matches Some(f) && (f.contains(line) <==> finds(
            s.filter_query,
            s.lines[line as int],
        )),
{
    let rows = lowered(s.lines);
    let needle = lowercase(s.filter_query);
    law_matching_rows(rows, needle);
    assert(rows[line as int] == lowercase(s.lines[line as int]));
    let f = matching_rows(rows, needle);
    assert(s.apply_filter().filtered_indices == Some(f));
    if f.contains(line) {
        let k = choose|k: int| 0 <= k < f.len() && f[k] == line;
        assert(f[k] == line);
    }
}

/// Search and filter stack: with a filter in force, what the search finds passes the filter too.
pub proof fn law_matches_pass_the_filter(s: State, k: int)
    requires
        s.wf(),
        s.filtered_indices is Some,
        0 <= k < s.search_matches.len(),
    ensures
        finds(s.search_query, s.visible_line(s.search_matches[k] as int)),
        finds(s.filter_query, s.visible_line(s.search_matches[k] as int)),
{
    let row = s.search_matches[k];
    assert(row < s.visible_count());
    let f = s.filtered_indices->0;
    assert(f[row as int] < s.lines.len());
}

/// Queries that differ in nothing but case find the same rows and the same lines.
pub proof fn law_case_does_not_matter(s: State, other: Seq<char>)
    requires
        lowercase(other) == lowercase(s.search_query),
        other.len() == 0 <==> s.search_query.len() == 0,
    ensures
        (State { search_query: other, ..s }).found_rows() == s.found_rows(),
{
    let t = State { search_query: other, ..s };
    assert(t.visible_lines() =~= s.visible_lines());
}

/// Filters that differ in nothing but case let the same lines pass.
pub proof fn law_case_does_not_matter_to_filter(s: State, other: Seq<char>)
    requires
        lowercase(other) == lowercase(s.filter_query),
        other.len() == 0 <==> s.filter_query.len() == 0,
    ensures
        (State { filter_query: other, ..s }).passing_lines() == s.passing_lines(),
{
}

/// Clearing a filter brings every line back, at the top.
pub proof fn law_clearing_shows_all(s: State)
    ensures
        s.clear_filter().visible_lines() == s.lines,
        s.clear_filter().cursor == 0,
        s.clear_filter().offset == 0,
{
    assert(s.clear_filter().visible_lines() =~= s.lines);
}

/// In normal mode, Escape closes the detail panel, then clears the filter, then the search: after
/// the third nothing of them is left.
pub proof fn law_escape_thrice_clears_all(s: State, key: Key, h: int)
    requires
        s.input_mode == InputMode::Normal,
        key.code is Esc,
    ensures
        ({
            let t = s.press(key, h).0.press(key, h).0.press(key, h).0;
            &&& !t.show_detail
            &&& t.filtered_indices is None
            &&& t.search_query.len() == 0
        }),
{
}

/// Switching the detail panel twice changes nothing.
pub proof fn law_detail_twice(s: State)
    ensures
        s.toggle_detail().toggle_detail() == s,
{
}

/// The key `F` switches follow mode, and pressing it twice changes nothing.
pub proof fn law_follow_key_twice(s: State, key: Key, h: int)
    requires
        s.input_mode == InputMode::Normal,
        key.code == KeyCode::Char('F'),
    ensures
        s.press(key, h).0.follow == !s.follow,
        s.press(key, h).0.press(key, h).0 == s,
{
}

/// While the input bar is open, Backspace takes back the character typed last.
pub proof fn law_backspace_undoes_typing(s: State, c: char, typed: Key, back: Key, h: int)
    requires
        s.input_mode != InputMode::Normal,
        typed.code == KeyCode::Char(c),
        back.code is Backspace,
    ensures
        s.press(typed, h).0.press(back, h).0 == s,
{
    assert(s.input_buf.push(c).drop_last() =~= s.input_buf);
}

/// Escape closes the input bar and changes nothing else.
pub proof fn law_escape_abandons_input(s: State, key: Key, h: int)
    requires
        s.input_mode != InputMode::Normal,
        key.code is Esc,
    ensures
        s.press(key, h).0 == (State { input_mode: InputMode::Normal, ..s }),
{
}

/// No key changes the lines of the log or its name, and the viewer leaves or opens the editor only
/// in normal mode.
pub proof fn law_keys_leave_the_log_alone(s: State, key: Key, h: int)
    ensures
        s.press(key, h).0.lines == s.lines,
        s.press(key, h).0.filename == s.filename,
        s.input_mode != InputMode::Normal ==> s.press(key, h).1 == Action::Continue,
{
    if s.input_mode == InputMode::Normal {
        lemma_normal_keeps_log(s, key, h);
    } else {
        lemma_input_keeps_log(s, key, h);
    }
}

proof fn lemma_normal_keeps_log(s: State, key: Key, h: int)
    ensures
        s.press_normal(key, h).0.lines == s.lines,
        s.press_normal(key, h).0.filename == s.filename,
{
    let t = State { follow: false, ..s };
    assert(t.step_back().lines == s.lines && t.step_back().filename == s.filename);
    assert(t.search_next(h).lines == s.lines && t.search_next(h).filename == s.filename);
    assert(t.search_prev(h).lines == s.lines && t.search_prev(h).filename == s.filename);
}

proof fn lemma_input_keeps_log(s: State, key: Key, h: int)
    ensures
        s.press_input(key, h).lines == s.lines,
        s.press_input(key, h).filename == s.filename,
{
    assert(s.submit_search(h).lines == s.lines && s.submit_search(h).filename == s.filename);
    assert(s.submit_filter().lines == s.lines && s.submit_filter().filename == s.filename);
}

/// In normal mode no key but `G`, End and `F` leaves the viewer following.
pub proof fn law_keys_stop_following(s: State, key: Key, h: int)
    requires
        s.input_mode == InputMode::Normal,
        s.press(key, h).0.follow,
    ensures
        key.code is End || key.code == KeyCode::Char('G') || (key.code == KeyCode::Char('F')
            && !s.follow),
{
}

/// In follow mode without a filter, a line that comes in is selected.
pub proof fn law_follow_selects_new_line(s: State, line: Seq<char>, h: int)
    requires
        s.follow,
        s.filtered_indices is None,
    ensures
        ({
            let t = s.push_line(line).auto_follow(h);
            &&& t.cursor == s.lines.len()
            &&& t.visible_line(t.cursor) == line
        }),
{
}

/// What can happen to a viewer, one thing after another: a line comes in, a key is pressed, or the
/// viewer looks whether it follows; the last two with a log window of `height` rows.
pub enum Event {
    Line(Seq<char>),
    Press { key: Key, height: int },
    Follow { height: int },
}

/// The state after an event.
pub open spec fn after(s: State, e: Event) -> State {
    match e {
        Event::Line(line) => s.push_line(line),
        Event::Press { key, height } => s.press(key, height).0,
        Event::Follow { height } => s.auto_follow(height),
    }
}

/// The state after some events.
pub open spec fn after_all(s: State, events: Seq<Event>) -> State
    decreases events.len(),
{
    if events.len() == 0 {
        s
    } else {
        after(after_all(s, events.drop_last()), events.last())
    }
}

/// The lines that come in with some events.
pub open spec fn arrivals(events: Seq<Event>) -> Seq<Seq<char>>
    decreases events.len(),
{
    if events.len() == 0 {
        seq![]
    } else {
        match events.last() {
            Event::Line(line) => arrivals(events.drop_last()).push(line),
            _ => arrivals(events.drop_last()),
        }
    }
}

/// Whether the windows of the events have a height.
pub open spec fn heights_fit(events: Seq<Event>) -> bool {
    forall|i: int|
        0 <= i < events.len() ==> match #[trigger] events[i] {
            Event::Line(_) => true,
            Event::Press { height, .. } => 0 <= height,
            Event::Follow { height } => 0 <= height,
        }
}

/// Whatever happens to a viewer, its lines are those that it began with and those that came in
/// since, whole and in order; and it stays well-formed.
pub proof fn law_lines_come_in_order(s: State, events: Seq<Event>)
    requires
        s.wf(),
        heights_fit(events),
        s.lines.len() + arrivals(events).len() <= usize::MAX,
    ensures
        after_all(s, events).lines == s.lines + arrivals(events),
        after_all(s, events).filename == s.filename,
        after_all(s, events).wf(),
    decreases events.len(),
{
    if events.len() == 0 {
        assert(s.lines + arrivals(events) =~= s.lines);
    } else {
        let head = events.drop_last();
        let t = after_all(s, head);
        law_lines_come_in_order(s, head);
        match events[events.len() - 1] {
            Event::Line(line) => {
                law_push_line_keeps_wf(t, line);
                assert(t.lines.push(line) =~= s.lines + arrivals(events));
            },
            Event::Press { key, height } => {
                law_press_keeps_wf(t, key, height);
                law_keys_leave_the_log_alone(t, key, height);
            },
            Event::Follow { height } => {
                law_auto_follow_keeps_wf(t, height);
            },
        }
    }
}

proof fn lemma_arrivals_prefix(events: Seq<Event>, n: int)
    requires
        0 <= n <= events.len(),
    ensures
        arrivals(events.take(n)).is_prefix_of(arrivals(events)),
    decreases events.len(),
{
    if n < events.len() {
        let head = events.drop_last();
        lemma_arrivals_prefix(head, n);
        assert(head.take(n) =~= events.take(n));
    } else {
        assert(events.take(n) =~= events);
    }
}

/// A viewer of standard input begins without a line, following. At every moment it shows, in order
/// and unchanged, a first part of the lines that come in, and in the end all of them.
pub proof fn law_stdin_lines_arrive(events: Seq<Event>, n: int)
    requires
        0 <= n <= events.len(),
        heights_fit(events),
        arrivals(events).len() <= usize::MAX,
    ensures
        ({
            let begin = opening("<stdin>"@, seq![], true);
            let now = after_all(begin, events.take(n));
            let end = after_all(begin, events);
            &&& now.lines == arrivals(events.take(n))
            &&& now.lines.is_prefix_of(arrivals(events))
            &&& end.lines == arrivals(events)
            &&& now.filename == "<stdin>"@
        }),
{
    let begin = opening("<stdin>"@, seq![], true);
    lemma_arrivals_prefix(events, n);
    law_lines_come_in_order(begin, events);
    law_lines_come_in_order(begin, events.take(n));
    assert(begin.lines + arrivals(events) =~= arrivals(events));
    assert(begin.lines + arrivals(events.take(n)) =~= arrivals(events.take(n)));
}

} // verus!
