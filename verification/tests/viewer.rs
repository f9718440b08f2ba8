use logoscope::app::screen::{Detail, Panes, Screen};
use logoscope::app::App;
use logoscope::area::Area;
use logoscope::keys::{Action, Key, KeyCode, Modifiers};
use logoscope::matching::{find_rows, first_at_or_after, lower_rows};
use logoscope::source::{choose_source, Source};
use logoscope::state::InputMode;
use logoscope::style::{Color, Style};

fn held(control: bool, shift: bool) -> Modifiers {
    Modifiers { shift, control, alt: false, logo: false, hyper: false, meta: false }
}

fn code(code: KeyCode) -> Key {
    Key { modifiers: held(false, false), code }
}

fn ch(c: char) -> Key {
    code(KeyCode::Char(c))
}

fn ctrl(c: char) -> Key {
    Key { modifiers: held(true, false), code: KeyCode::Char(c) }
}

fn press(app: &mut App, keys: &[Key], h: usize) {
    for k in keys {
        assert_eq!(app.handle_key(*k, h), Action::Continue);
    }
}

fn type_in(app: &mut App, opener: char, text: &str, h: usize) {
    press(app, &[ch(opener)], h);
    for c in text.chars() {
        press(app, &[ch(c)], h);
    }
    press(app, &[code(KeyCode::Enter)], h);
}

fn numbered(n: usize) -> App {
    let content: String = (0..n).map(|i| format!("line {}\n", i)).collect();
    App::from_file("n.log", &content)
}

fn area(height: u16) -> Area {
    Area { x: 0, y: 0, width: 40, height }
}

fn screen(app: &App, height: u16) -> Screen {
    app.draw(app.panes(area(height))).unwrap()
}

fn place(app: &App) -> String {
    let title = app.title();
    title.split_once("line ").unwrap().1.trim_end().to_string()
}

fn row_texts(app: &App) -> Vec<String> {
    app.get_visible_range(0, usize::MAX).into_iter().map(|r| r.1).collect()
}

#[test]
fn file_is_split_into_lines() {
    let app = App::from_file("a.log", "one\r\ntwo\nthree");
    assert_eq!(app.line_count(), 3);
    assert_eq!(app.get_line(0).as_deref(), Some("one"));
    assert_eq!(app.get_line(2).as_deref(), Some("three"));
    assert_eq!(app.get_line(3), None);
    assert_eq!(app.title(), " a.log — line 1/3 ");
    assert_eq!(app.visible_to_real(2), 2);
    assert_eq!(app.max_line(), 2);
}

#[test]
fn empty_log_has_no_row() {
    let mut app = App::from_file("e", "");
    assert_eq!(app.title(), " e — line 0/0 ");
    assert_eq!(app.max_line(), 0);
    assert_eq!(app.selected_line_raw(), "");
    press(&mut app, &[ch('j'), ch('G'), ch('n'), ch('N'), ch('k')], 5);
    assert_eq!(place(&app), "0/0");
    assert!(app.get_visible_range(0, 9).is_empty());
}

#[test]
fn motions_stay_on_rows_and_in_the_window() {
    let mut app = numbered(30);
    let h = 10;
    press(&mut app, &[ch('j'), code(KeyCode::Down)], h);
    assert_eq!(place(&app), "3/30");
    press(&mut app, &[ch('k')], h);
    assert_eq!(place(&app), "2/30");
    press(&mut app, &[ctrl('d')], h);
    assert_eq!(place(&app), "7/30");
    press(&mut app, &[ctrl('f')], h);
    assert_eq!(place(&app), "17/30");
    assert_eq!(screen(&app, 12).position, 7);
    press(&mut app, &[code(KeyCode::PageDown), code(KeyCode::PageDown)], h);
    assert_eq!(place(&app), "30/30");
    assert_eq!(screen(&app, 12).position, 20);
    press(&mut app, &[ctrl('u')], h);
    assert_eq!(place(&app), "25/30");
    assert_eq!(screen(&app, 12).position, 20);
    press(&mut app, &[ctrl('b'), code(KeyCode::PageUp)], h);
    assert_eq!(place(&app), "5/30");
    assert_eq!(screen(&app, 12).position, 4);
    press(&mut app, &[ch('g')], h);
    assert_eq!(place(&app), "1/30");
    press(&mut app, &[code(KeyCode::End)], h);
    assert_eq!(place(&app), "30/30 [FOLLOW]");
    press(&mut app, &[code(KeyCode::Home)], h);
    assert_eq!(place(&app), "1/30");
    press(&mut app, &[code(KeyCode::Up)], h);
    assert_eq!(place(&app), "1/30");
}

#[test]
fn up_undoes_down() {
    let mut app = numbered(9);
    app.cursor_down(4, 3);
    app.cursor_up(4, 3);
    assert_eq!(place(&app), "1/9");
    app.cursor_down(usize::MAX, 3);
    assert_eq!(place(&app), "9/9");
    app.cursor_up(usize::MAX, 3);
    assert_eq!(place(&app), "1/9");
}

#[test]
fn window_without_height_follows_upward_only() {
    let mut app = numbered(9);
    app.cursor_down(5, 0);
    assert_eq!(screen(&app, 40).position, 0);
    app.cursor_down(1, 3);
    assert_eq!(screen(&app, 40).position, 4);
    app.cursor_up(4, 0);
    assert_eq!(screen(&app, 40).position, 2);
    app.goto_bottom(usize::MAX);
    assert_eq!(screen(&app, 40).position, 2);
    app.ensure_visible(1);
    assert_eq!(screen(&app, 40).position, 8);
}

#[test]
fn control_means_control_alone() {
    let mut app = numbered(30);
    let both = Key { modifiers: held(true, true), code: KeyCode::Char('d') };
    press(&mut app, &[both, ch('d'), ch('c'), ch('f')], 10);
    assert_eq!(place(&app), "1/30");
    assert_eq!(app.handle_key(ctrl('c'), 10), Action::Quit);
    assert_eq!(app.handle_key(ch('q'), 10), Action::Quit);
    assert_eq!(app.handle_key(ctrl('q'), 10), Action::Quit);
    assert_eq!(app.handle_key(code(KeyCode::Enter), 10), Action::OpenEditor);
    press(&mut app, &[ctrl('j'), code(KeyCode::Other), code(KeyCode::Backspace)], 10);
    assert_eq!(place(&app), "2/30");
}

#[test]
fn search_finds_rows_in_any_case_and_goes_round() {
    let mut app = App::from_file("s", "alpha\nBETA\ngamma\nbeta beta\nAlphaBeta\n");
    type_in(&mut app, '/', "bEtA", 10);
    assert_eq!(place(&app), "2/5 [1/3]");
    press(&mut app, &[ch('n')], 10);
    assert_eq!(place(&app), "4/5 [2/3]");
    press(&mut app, &[ch('n')], 10);
    assert_eq!(place(&app), "5/5 [3/3]");
    press(&mut app, &[ch('n')], 10);
    assert_eq!(place(&app), "2/5 [1/3]");
    press(&mut app, &[ch('N')], 10);
    assert_eq!(place(&app), "5/5 [3/3]");
    press(&mut app, &[ch('n'), ch('N')], 10);
    assert_eq!(place(&app), "5/5 [3/3]");
}

#[test]
fn search_goes_to_first_match_from_the_selection_on() {
    let mut app = App::from_file("s", "x\na\nx\na\n");
    press(&mut app, &[ch('j'), ch('j')], 10);
    type_in(&mut app, '/', "x", 10);
    assert_eq!(place(&app), "3/4 [2/2]");
    press(&mut app, &[ch('G')], 10);
    type_in(&mut app, '/', "x", 10);
    assert_eq!(place(&app), "1/4 [1/2]");
}

#[test]
fn search_without_matches_says_so() {
    let mut app = numbered(3);
    type_in(&mut app, '/', "nothing", 10);
    assert_eq!(place(&app), "1/3 [no matches]");
    press(&mut app, &[ch('n'), ch('N')], 10);
    assert_eq!(place(&app), "1/3 [no matches]");
    type_in(&mut app, '/', "", 10);
    assert_eq!(place(&app), "1/3");
}

#[test]
fn unicode_queries_find_lines_in_any_case() {
    let mut app = App::from_file("u", "ÜBER\nunder\nüber");
    type_in(&mut app, '/', "Über", 10);
    assert_eq!(place(&app), "1/3 [1/2]");
}

#[test]
fn filter_shows_only_matching_lines() {
    let mut app = App::from_file("f", "Error a\nok\nerror b\nOK error\n");
    type_in(&mut app, '\\', "ERROR", 10);
    assert_eq!(app.visible_count(), 3);
    assert_eq!(row_texts(&app), vec!["Error a", "error b", "OK error"]);
    assert_eq!(app.visible_to_real(2), 3);
    assert_eq!(app.visible_to_real(9), 0);
    assert_eq!(place(&app), "1/3 [FILTER: 3 matches]");
    app.clear_filter();
    assert_eq!(app.visible_count(), 4);
    assert_eq!(place(&app), "1/4");
}

#[test]
fn filter_without_matches_leaves_no_row() {
    let mut app = numbered(3);
    type_in(&mut app, '\\', "zzz", 10);
    assert_eq!(place(&app), "0/0 [FILTER: 0 matches]");
    assert_eq!(app.selected_line_raw(), "line 0");
    assert!(screen(&app, 10).rows.is_empty());
    let back = code(KeyCode::Backspace);
    press(&mut app, &[ch('\\'), back, back, back, code(KeyCode::Enter)], 10);
    assert_eq!(app.title(), " n.log — line 1/3 ");
}

#[test]
fn search_and_filter_stack() {
    let mut app = App::from_file("f", "a x\nb x\na y\na x\n");
    type_in(&mut app, '/', "x", 10);
    assert_eq!(place(&app), "1/4 [1/3]");
    type_in(&mut app, '\\', "a", 10);
    assert_eq!(place(&app), "1/3 [FILTER: 3 matches] [1/2]");
    press(&mut app, &[ch('n')], 10);
    assert_eq!(place(&app), "3/3 [FILTER: 3 matches] [2/2]");
    assert_eq!(app.selected_line_raw(), "a x");
}

#[test]
fn filter_bar_begins_with_the_old_query() {
    let mut app = numbered(20);
    type_in(&mut app, '\\', "1", 10);
    assert_eq!(app.visible_count(), 11);
    press(&mut app, &[ch('\\'), ch('9'), code(KeyCode::Enter)], 10);
    assert_eq!(row_texts(&app), vec!["line 19"]);
    press(&mut app, &[ch('\\')], 10);
    assert_eq!(screen(&app, 12).input.unwrap().typed.text, "19");
}

#[test]
fn escape_steps_back_from_panel_filter_and_search() {
    let mut app = numbered(12);
    type_in(&mut app, '/', "line", 10);
    type_in(&mut app, '\\', "1", 10);
    press(&mut app, &[ch(' ')], 10);
    assert!(screen(&app, 20).detail.is_some());
    press(&mut app, &[code(KeyCode::Esc)], 10);
    assert!(screen(&app, 20).detail.is_none());
    assert_eq!(place(&app), "1/3 [FILTER: 3 matches] [1/3]");
    press(&mut app, &[code(KeyCode::Esc)], 10);
    assert_eq!(place(&app), "1/12 [1/12]");
    press(&mut app, &[code(KeyCode::Esc)], 10);
    assert_eq!(place(&app), "1/12");
    press(&mut app, &[code(KeyCode::Esc)], 10);
    assert_eq!(place(&app), "1/12");
}

#[test]
fn input_bar_takes_characters_and_gives_them_back() {
    let mut app = numbered(5);
    press(&mut app, &[ch('/'), ch('q'), ch('é'), code(KeyCode::Backspace), ch('j'), code(KeyCode::Down)], 10);
    assert_eq!(app.input_mode(), InputMode::Search);
    assert_eq!(screen(&app, 12).input.unwrap().typed.text, "qj");
    press(&mut app, &[code(KeyCode::Backspace), code(KeyCode::Backspace), code(KeyCode::Backspace)], 10);
    assert_eq!(screen(&app, 12).input.unwrap().typed.text, "");
    press(&mut app, &[ch('x'), code(KeyCode::Esc)], 10);
    assert_eq!(app.input_mode(), InputMode::Normal);
    assert_eq!(place(&app), "1/5");
    press(&mut app, &[ch('/')], 10);
    assert_eq!(screen(&app, 12).input.unwrap().typed.text, "");
}

#[test]
fn stdin_is_followed() {
    let mut app = App::from_stdin();
    assert_eq!(app.title(), " <stdin> — line 0/0 [FOLLOW] ");
    for i in 0..20 {
        app.push_line(format!("l{}", i));
        app.auto_follow(5);
        assert_eq!(app.selected_line_raw(), format!("l{}", i));
    }
    assert_eq!(screen(&app, 7).position, 15);
    press(&mut app, &[ch('k')], 5);
    app.push_line("more".to_string());
    app.auto_follow(5);
    assert_eq!(place(&app), "19/21");
    press(&mut app, &[ch('G')], 5);
    assert_eq!(place(&app), "21/21 [FOLLOW]");
}

#[test]
fn follow_key_switches_follow_mode() {
    let mut app = numbered(4);
    press(&mut app, &[ch('F')], 5);
    assert_eq!(place(&app), "1/4 [FOLLOW]");
    press(&mut app, &[ch('F')], 5);
    assert_eq!(place(&app), "1/4");
    press(&mut app, &[ch('F'), ch('x')], 5);
    assert_eq!(place(&app), "1/4");
}

#[test]
fn lines_that_come_in_do_not_pass_an_old_filter() {
    let mut app = App::from_stdin();
    app.push_line("a".to_string());
    type_in(&mut app, '\\', "a", 5);
    app.push_line("aa".to_string());
    assert_eq!(app.visible_count(), 1);
    assert_eq!(app.line_count(), 2);
    type_in(&mut app, '\\', "", 5);
    assert_eq!(app.visible_count(), 2);
}

#[test]
fn detail_shows_json_laid_out_and_colored() {
    let mut app = App::from_file("j", "  {\"a\":[1]} \nplain {text}\n");
    assert_eq!(app.selected_line_raw(), "  {\"a\":[1]} ");
    assert_eq!(app.selected_line_formatted(), ("{\n  \"a\": [\n    1\n  ]\n}".to_string(), true));
    match app.detail() {
        Detail::Json(lines) => {
            assert_eq!(lines.len(), 5);
            assert_eq!(lines[1].spans[1].text, "\"a\":");
            assert_eq!(lines[1].spans[1].style.fg, Some(Color::Cyan));
            assert_eq!(Detail::Json(lines).frame(), (" JSON ", Color::Magenta));
        }
        Detail::Text(_) => panic!("laid out as text"),
    }
    assert_eq!(app.editor_file().0, "logoscope_line.json");
    press(&mut app, &[ch('j')], 5);
    assert_eq!(app.detail(), Detail::Text("plain {text}".to_string()));
    assert_eq!(app.detail().frame(), (" Text ", Color::Cyan));
    assert_eq!(
        app.editor_file(),
        ("logoscope_line.txt".to_string(), "plain {text}".to_string())
    );
}

#[test]
fn detail_key_switches_the_panel() {
    let mut app = numbered(2);
    app.toggle_detail();
    assert!(app.panes(area(20)).detail.is_some());
    app.toggle_detail();
    assert!(app.panes(area(20)).detail.is_none());
}

#[test]
fn log_height_leaves_room_for_the_rest() {
    let mut app = numbered(2);
    assert_eq!(app.log_height(24), 22);
    assert_eq!(app.log_height(1), 0);
    assert_eq!(app.log_height(0), 0);
    app.toggle_detail();
    assert_eq!(app.log_height(24), 10);
    press(&mut app, &[ch('/')], 10);
    assert_eq!(app.log_height(24), 9);
    app.toggle_detail();
    assert_eq!(app.log_height(24), 21);
    assert_eq!(app.log_height(1), 0);
}

#[test]
fn panes_divide_the_area() {
    let mut app = numbered(2);
    let whole = Area { x: 3, y: 2, width: 40, height: 21 };
    assert_eq!(app.panes(whole), Panes { log: whole, detail: None, input: None });
    press(&mut app, &[ch('/')], 10);
    let p = app.panes(whole);
    assert_eq!(p.log, Area { height: 20, ..whole });
    assert_eq!(p.input, Some(Area { y: 22, height: 1, ..whole }));
    app.toggle_detail();
    let p = app.panes(whole);
    assert_eq!(p.log, Area { height: 10, ..whole });
    assert_eq!(p.detail, Some(Area { y: 12, height: 10, ..whole }));
    assert_eq!(p.input, Some(Area { y: 22, height: 1, ..whole }));
}

#[test]
fn screen_shows_the_window() {
    let mut app = numbered(30);
    press(&mut app, &[ctrl('f'), ctrl('f')], 10);
    let s = screen(&app, 12);
    assert_eq!(s.rows.len(), 10);
    assert_eq!(s.position, 11);
    assert_eq!(s.max_offset, 20);
    assert_eq!(s.title, " n.log — line 21/30 ");
    let last = &s.rows[9];
    assert_eq!(last.spans[0].text, "    21 ");
    assert_eq!(last.spans[1].text, "line 20");
    let selected = Style { fg: None, bg: Some(Color::DarkGray), bold: false };
    for (i, row) in s.rows.iter().enumerate() {
        assert_eq!(row.style == selected, i == 9);
    }
    assert!(s.detail.is_none());
    assert!(s.input.is_none());
    assert_eq!(screen(&app, 2).rows.len(), 0);
    assert_eq!(screen(&app, 200).rows.len(), 19);
    assert_eq!(screen(&app, 200).max_offset, 0);
}

#[test]
fn screen_numbers_filtered_rows_by_their_lines() {
    let mut app = numbered(20);
    type_in(&mut app, '\\', "7", 10);
    let s = screen(&app, 12);
    let numbers: Vec<&str> = s.rows.iter().map(|r| r.spans[0].text.trim()).collect();
    assert_eq!(numbers, vec!["8", "18"]);
}

#[test]
fn screen_marks_the_rows_found() {
    let mut app = numbered(5);
    type_in(&mut app, '/', "E 3", 10);
    let s = screen(&app, 12);
    let marked = Style { fg: Some(Color::Black), bg: Some(Color::Yellow), bold: false };
    for (i, row) in s.rows.iter().enumerate() {
        assert_eq!(row.spans.iter().any(|p| p.style == marked), i == 3);
    }
    assert_eq!(s.rows[3].spans[2].text, "e 3");
}

#[test]
fn screen_marks_rows_with_letters_of_other_widths() {
    let mut app = App::from_file("u", "İé\nx\n\u{212A}é\n");
    type_in(&mut app, '/', "É", 10);
    assert_eq!(place(&app), "1/3 [1/2]");
    let s = screen(&app, 10);
    for (row, before) in [(0, "İ"), (2, "\u{212A}")] {
        let texts: Vec<&str> = s.rows[row].spans.iter().map(|p| p.text.as_str()).collect();
        assert_eq!(texts[1..], [before, "é"]);
        let marked = Style { fg: Some(Color::Black), bg: Some(Color::Yellow), bold: false };
        assert_eq!(s.rows[row].spans[2].style, marked);
    }
    assert_eq!(app.window_rows(1).len(), 1);
}

#[test]
fn screen_with_the_cursor_out_of_range_is_refused() {
    let mut app = numbered(2);
    press(&mut app, &[ch('/')], 10);
    let log = area(9);
    let bar = Area { x: u16::MAX, y: 9, width: 1, height: 1 };
    assert!(app.draw(Panes { log, detail: None, input: Some(bar) }).is_none());
    let bar = Area { x: u16::MAX - 1, ..bar };
    let shown = app.draw(Panes { log, detail: None, input: Some(bar) }).unwrap();
    assert_eq!(shown.input.unwrap().column, u16::MAX);
}

#[test]
fn panes_stand_one_below_the_other_at_every_height() {
    let (x, width) = (2, 30);
    let part = |y: u16, height: u16| Area { x, y, width, height };
    for (input, detail) in [(false, false), (false, true), (true, false), (true, true)] {
        let mut app = numbered(2);
        if detail {
            app.toggle_detail();
        }
        if input {
            press(&mut app, &[ch('/')], 10);
        }
        let heights = (0..=120).chain([255, 256, 999, 1000, 20001, 65000, 65534, 65535]);
        for height in heights {
            for y in [0, 1, 7, 300, 65000, 65530, u16::MAX] {
                let whole = part(y, height);
                let rows = height.min(u16::MAX - y);
                let bar = if input && rows >= 4 { 1 } else { 0 };
                let main = if input || detail { rows - bar } else { height };
                let log = if detail { main / 2 + main % 2 } else { main };
                let expected = Panes {
                    log: part(y, log),
                    detail: if detail { Some(part(y + log, main - log)) } else { None },
                    input: if input { Some(part(y + main, bar)) } else { None },
                };
                assert_eq!(app.panes(whole), expected, "{:?}", whole);
            }
        }
    }
}

#[test]
fn selected_row_is_drawn_whatever_panes_are_open() {
    let selected = Style { fg: None, bg: Some(Color::DarkGray), bold: false };
    for height in 3..=40 {
        for (input, detail) in [(false, false), (false, true), (true, false), (true, true)] {
            let mut app = App::from_stdin();
            if detail {
                press(&mut app, &[ch(' '), ch('F')], 1);
            }
            if input {
                press(&mut app, &[ch('\\')], 1);
            }
            for i in 1..=50 {
                app.push_line(format!("line {}", i));
                let h = app.log_height(height as usize);
                if input {
                    app.goto_bottom(h);
                } else {
                    app.auto_follow(h);
                }
                let shown = screen(&app, height);
                assert!(shown.rows.len() >= h.min(i));
                if h > 0 {
                    let row = shown.rows.iter().find(|r| r.style == selected).unwrap();
                    assert_eq!(row.spans[1].text, format!("line {}", i));
                }
            }
        }
    }
}

#[test]
fn next_steps_on_round_the_matches() {
    let mut app = App::from_file("s", "x\na\nx\nx\n");
    type_in(&mut app, '/', "x", 10);
    let rows = ["1/4 [1/3]", "3/4 [2/3]", "4/4 [3/3]"];
    for j in 0..10 {
        assert_eq!(place(&app), rows[j % 3]);
        press(&mut app, &[ch('n')], 10);
    }
}

#[test]
fn lines_come_in_whole_and_in_order_whatever_keys_are_pressed() {
    let mut app = App::from_stdin();
    let incoming = ["a {\"x\":1}", "", "b", "a", "İ"];
    let keys = "j/a\u{1}n\\b\u{1}G\u{2} F";
    let mut came = 0;
    for (i, c) in keys.chars().enumerate() {
        let key = match c {
            '\u{1}' => code(KeyCode::Enter),
            '\u{2}' => code(KeyCode::Esc),
            c => ch(c),
        };
        press(&mut app, &[key], 3);
        if i % 2 == 0 && came < incoming.len() {
            app.push_line(incoming[came].to_string());
            came += 1;
        }
        app.auto_follow(3);
        assert_eq!(app.line_count(), came);
        assert!((0..came).all(|k| app.get_line(k).as_deref() == Some(incoming[k])));
        assert!(app.title().starts_with(" <stdin> "));
    }
    assert_eq!(came, incoming.len());
}

#[test]
fn input_bar_shows_prefix_and_cursor() {
    let mut app = numbered(2);
    press(&mut app, &[ch('/'), ch('a'), ch('é')], 10);
    let bar = app.input_bar(Area { x: 5, y: 9, width: 10, height: 1 }).unwrap();
    assert_eq!(bar.prefix.text, "/");
    assert_eq!(bar.prefix.style, Style { fg: Some(Color::Yellow), bg: None, bold: true });
    assert_eq!(bar.typed.text, "aé");
    assert_eq!(bar.typed.style, Style { fg: Some(Color::Yellow), bg: None, bold: false });
    assert_eq!((bar.column, bar.row), (9, 9));
    assert!(app.input_bar(Area { x: 65532, y: 0, width: 1, height: 1 }).is_none());
    assert_eq!(app.input_bar(Area { x: 65531, y: 0, width: 1, height: 1 }).unwrap().column, 65535);
    press(&mut app, &[code(KeyCode::Esc), ch('\\')], 10);
    let bar = app.input_bar(area(1)).unwrap();
    assert_eq!(bar.prefix.text, "\\");
    assert_eq!(bar.typed.style.fg, Some(Color::Green));
}

#[test]
fn rows_are_found_in_order() {
    let rows: Vec<String> = ["AB", "b", "c", "xaBx"].iter().map(|s| s.to_string()).collect();
    let low = lower_rows(&rows);
    assert_eq!(low, vec!["ab", "b", "c", "xabx"]);
    assert_eq!(find_rows(&low, "ab"), vec![0, 3]);
    assert_eq!(find_rows(&low, "z"), Vec::<usize>::new());
    assert_eq!(first_at_or_after(&vec![2, 5, 9], 5), 1);
    assert_eq!(first_at_or_after(&vec![2, 5, 9], 6), 2);
    assert_eq!(first_at_or_after(&vec![2, 5, 9], 10), 0);
}

#[test]
fn visible_range_is_cut_to_the_rows() {
    let app = numbered(4);
    assert_eq!(
        app.get_visible_range(2, 9),
        vec![(2, "line 2".to_string()), (3, "line 3".to_string())]
    );
    assert!(app.get_visible_range(3, 3).is_empty());
    assert!(app.get_visible_range(9, 12).is_empty());
    assert!(app.get_visible_range(3, 1).is_empty());
}

#[test]
fn source_is_the_file_named_or_what_is_piped() {
    let args = |v: &[&str]| -> Vec<String> { v.iter().map(|s| s.to_string()).collect() };
    assert_eq!(choose_source(&args(&["logoscope", "a", "b"]), true), Source::File("a".to_string()));
    assert_eq!(choose_source(&args(&["logoscope"]), true), Source::Stdin);
    assert_eq!(choose_source(&args(&["logoscope"]), false), Source::Usage);
    assert_eq!(choose_source(&args(&[]), false), Source::Usage);
}

#[test]
fn keys_keep_one_selected_row_in_view_and_the_log_as_it_is() {
    let mut app = numbered(40);
    let h = 6;
    let keys = "jjjGkkkgnNjG/line 1\u{1}nnnNj\\2\u{1}jnNGg\u{2}kjG\u{2}nnn";
    let selected = Style { fg: None, bg: Some(Color::DarkGray), bold: false };
    for c in keys.chars() {
        let key = match c {
            '\u{1}' => code(KeyCode::Enter),
            '\u{2}' => code(KeyCode::Esc),
            c => ch(c),
        };
        press(&mut app, &[key], h);
        let rows = app.window_rows(h);
        assert!(rows.len() <= h);
        assert_eq!(rows.iter().filter(|r| r.style == selected).count(), 1);
        assert_eq!(app.line_count(), 40);
        assert!((0..40).all(|i| app.get_line(i) == Some(format!("line {}", i))));
    }
}
