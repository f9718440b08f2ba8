use logoscope::colorize::colorize_json_line;
use logoscope::style::{Color, Style, StyledLine};

fn fg(c: Color) -> Style {
    Style { fg: Some(c), bg: None, bold: false }
}

fn plain() -> Style {
    Style { fg: None, bg: None, bold: false }
}

fn parts(l: &StyledLine) -> Vec<(&str, Style)> {
    l.spans.iter().map(|s| (s.text.as_str(), s.style)).collect()
}

fn shown(l: &StyledLine) -> String {
    l.spans.iter().map(|s| s.text.as_str()).collect()
}

#[test]
fn key_value_and_comma_have_their_colors() {
    let l = colorize_json_line("  \"a\": 1,");
    assert_eq!(
        parts(&l),
        vec![
            ("  ", plain()),
            ("\"a\":", fg(Color::Cyan)),
            (" ", plain()),
            ("1", fg(Color::Magenta)),
            (",", fg(Color::DarkGray)),
        ]
    );
    assert_eq!(l.style, plain());
}

#[test]
fn lone_brace_is_white() {
    assert_eq!(parts(&colorize_json_line("{")), vec![("{", fg(Color::White))]);
    assert_eq!(parts(&colorize_json_line("  }")), vec![("  ", plain()), ("}", fg(Color::White))]);
    assert_eq!(
        parts(&colorize_json_line("},")),
        vec![("}", fg(Color::White)), (",", fg(Color::DarkGray))]
    );
}

#[test]
fn values_have_the_color_of_their_kind() {
    let color = |s: &str| colorize_json_line(s).spans[0].style;
    assert_eq!(color("\"text\""), fg(Color::Green));
    assert_eq!(color("true"), fg(Color::Yellow));
    assert_eq!(color("false"), fg(Color::Yellow));
    assert_eq!(color("null"), fg(Color::Yellow));
    assert_eq!(color("-1.5e3"), fg(Color::Magenta));
    assert_eq!(color("nan"), fg(Color::Magenta));
    assert_eq!(color("["), fg(Color::White));
    assert_eq!(color("nul"), fg(Color::White));
}

#[test]
fn key_without_space_or_value() {
    assert_eq!(
        parts(&colorize_json_line("\"k\":2")),
        vec![("\"k\":", fg(Color::Cyan)), ("2", fg(Color::Magenta))]
    );
    assert_eq!(
        parts(&colorize_json_line("\"k\":")),
        vec![("\"k\":", fg(Color::Cyan)), ("", fg(Color::White))]
    );
    assert_eq!(parts(&colorize_json_line("")), vec![("", fg(Color::White))]);
}

#[test]
fn coloring_keeps_text() {
    for s in ["", "{", "  \"a\": \"x:y\",", "\t[", "\"only", "\"a\":  1", "x,", "\u{3000}é"] {
        assert_eq!(shown(&colorize_json_line(s)), s);
    }
    assert_eq!(shown(&colorize_json_line("1,,,")), "1,");
}
