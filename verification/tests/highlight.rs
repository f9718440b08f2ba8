use logoscope::highlight::{find_matches, find_origins, render_log_line, render_lowered};
use logoscope::style::{Color, Style, StyledLine};

fn marked() -> Style {
    Style { fg: Some(Color::Black), bg: Some(Color::Yellow), bold: false }
}

fn plain() -> Style {
    Style { fg: None, bg: None, bold: false }
}

fn parts(l: &StyledLine) -> Vec<(&str, Style)> {
    l.spans.iter().map(|s| (s.text.as_str(), s.style)).collect()
}

#[test]
fn plain_line_has_number_and_text() {
    let l = render_log_line("hello", 7, false, "", false);
    assert_eq!(
        parts(&l),
        vec![
            ("     7 ", Style { fg: Some(Color::DarkGray), bg: None, bold: false }),
            ("hello", plain()),
        ]
    );
    assert_eq!(l.style, plain());
}

#[test]
fn selected_line_stands_out() {
    let l = render_log_line("hello", 1234567, true, "x", false);
    assert_eq!(
        parts(&l),
        vec![
            ("1234567 ", Style { fg: Some(Color::Yellow), bg: None, bold: true }),
            ("hello", Style { fg: Some(Color::White), bg: Some(Color::DarkGray), bold: true }),
        ]
    );
    assert_eq!(l.style, Style { fg: None, bg: Some(Color::DarkGray), bold: false });
}

#[test]
fn matches_are_marked_in_any_case() {
    let l = render_log_line("Error: no error", 1, false, "ERROR", true);
    assert_eq!(
        parts(&l)[1..],
        [("Error", marked()), (": no ", plain()), ("error", marked())]
    );
}

#[test]
fn matches_do_not_overlap() {
    assert_eq!(find_matches("aaaaa", "aa"), vec![0, 2]);
    assert_eq!(find_matches("é-é", "é"), vec![0, 2]);
    assert!(find_matches("abc", "d").is_empty());
    let l = render_log_line("aaaaa", 1, false, "aa", true);
    assert_eq!(parts(&l)[1..], [("aa", marked()), ("aa", marked()), ("a", plain())]);
}

#[test]
fn no_match_is_marked_without_query_or_in_other_lines() {
    assert_eq!(parts(&render_log_line("aa", 1, false, "", true))[1..], [("aa", plain())]);
    assert_eq!(parts(&render_log_line("aa", 1, false, "a", false))[1..], [("aa", plain())]);
}

#[test]
fn empty_line_of_a_match_shows_its_number() {
    assert_eq!(parts(&render_log_line("", 1, false, "a", true)).len(), 1);
}

#[test]
fn unicode_is_lowered_by_its_own_rules() {
    let l = render_log_line("ÄÖ Straße", 1, false, "äö", true);
    assert_eq!(parts(&l)[1..], [("ÄÖ", marked()), (" Straße", plain())]);
}

#[test]
fn letters_whose_lower_case_form_is_longer_keep_the_marks_in_place() {
    let l = render_log_line("\u{130}a", 1, false, "a", true);
    assert_eq!(
        parts(&l),
        vec![
            ("     1 ", Style { fg: Some(Color::DarkGray), bg: None, bold: false }),
            ("\u{130}", plain()),
            ("a", marked()),
        ]
    );
    let l = render_log_line("İé", 1, false, "É", true);
    assert_eq!(parts(&l)[1..], [("İ", plain()), ("é", marked())]);
    assert_eq!(find_origins("aİb"), vec![0, 1, 1, 2]);
}

#[test]
fn letters_whose_lower_case_form_has_fewer_bytes_keep_the_marks_in_place() {
    let l = render_log_line("\u{212A}abc", 1, false, "c", true);
    assert_eq!(parts(&l)[1..], [("\u{212A}ab", plain()), ("c", marked())]);
    let l = render_log_line("\u{212A}abc", 1, false, "KA", true);
    assert_eq!(parts(&l)[1..], [("\u{212A}a", marked()), ("bc", plain())]);
}

#[test]
fn match_in_part_of_a_character_marks_the_character() {
    for query in ["i", "I", "\u{307}", "İ"] {
        let l = render_log_line("xİy", 1, false, query, true);
        assert_eq!(parts(&l)[1..], [("x", plain()), ("İ", marked()), ("y", plain())]);
    }
}

#[test]
fn character_that_two_matches_share_belongs_to_the_first() {
    let l = render_log_line("İİİ-", 1, false, "\u{307}I", true);
    assert_eq!(parts(&l)[1..], [("İİ", marked()), ("İ", marked()), ("-", plain())]);
    let l = render_lowered("ab", 1, false, "xxy", &vec![0, 0, 1], "x", true);
    assert_eq!(parts(&l)[1..], [("a", marked()), ("b", plain())]);
}

#[test]
fn sigma_is_found_at_the_end_of_a_word() {
    let l = render_log_line("ΟΔΟΣ ΣΟΔ", 1, false, "δος", true);
    assert_eq!(parts(&l)[1..], [("Ο", plain()), ("ΔΟΣ", marked()), (" ΣΟΔ", plain())]);
}

#[test]
fn every_letter_with_a_lower_case_form_keeps_the_marks_in_place() {
    let letters = ('\u{80}'..=char::MAX).filter(|c| c.to_lowercase().next() != Some(*c));
    let mut count = 0;
    for c in letters {
        let around = c.to_string();
        let l = render_log_line(&format!("{c}-{c}"), 1, false, "-", true);
        let shown = [(around.as_str(), plain()), ("-", marked()), (around.as_str(), plain())];
        assert_eq!(parts(&l)[1..], shown);
        let l = render_log_line(&around, 1, false, &around, true);
        assert_eq!(parts(&l)[1..], [(around.as_str(), marked())]);
        count += 1;
    }
    assert!(count > 1000);
}

#[test]
fn marks_in_ascii_lines_read_as_the_query() {
    let line: String = (0u8..128).map(|b| b as char).collect();
    for b in 0u8..128 {
        let query = (b as char).to_string();
        let l = render_log_line(&line, 1, false, &query, true);
        let found: Vec<&str> =
            parts(&l).iter().filter(|p| p.1 == marked()).map(|p| p.0).collect();
        assert!(!found.is_empty());
        assert!(found.iter().all(|f| f.eq_ignore_ascii_case(&query)));
    }
}

#[test]
fn showing_keeps_text() {
    for (line, query) in [
        ("", "x"), ("abc", "b"), ("aXbxc", "x"), ("naïve Naïve", "NAÏVE"), ("İé\u{212A}İ", "k"),
    ] {
        let l = render_log_line(line, 12, true, query, true);
        let all: String = l.spans.iter().map(|s| s.text.as_str()).collect();
        assert_eq!(all, format!("    12 {}", line));
    }
}
