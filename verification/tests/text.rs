use logoscope::number::float_literal;
use logoscope::text::{
    align_right, ascii_space, contains, find, leading_whitespace, same, split_lines, substring,
    to_chars, to_decimal, trim, whitespace,
};

#[test]
fn whitespace_is_that_of_unicode() {
    for n in 0..=0x10ffffu32 {
        if let Some(c) = char::from_u32(n) {
            assert_eq!(whitespace(c), c.is_whitespace(), "U+{:04X}", n);
            assert_eq!(ascii_space(c), c.is_ascii_whitespace(), "U+{:04X}", n);
        }
    }
}

#[test]
fn trim_takes_whitespace_off_both_ends() {
    for s in ["", " ", "a", " a b ", "\u{3000}x\u{2003}", "\t\r\n", "\u{85}é \u{a0}"] {
        assert_eq!(trim(s), s.trim());
        assert_eq!(leading_whitespace(&to_chars(s)), s.chars().count() - s.trim_start().chars().count());
    }
}

#[test]
fn lines_end_at_line_feeds() {
    for s in [
        "", "\n", "a", "a\n", "a\nb", "a\r\nb\r\n", "a\r", "a\rb\n", "\r\n", "\n\n", "x\r\r\n", "é\n\u{2028}z",
    ] {
        let expected: Vec<String> = s.lines().map(String::from).collect();
        assert_eq!(split_lines(s), expected, "{:?}", s);
        assert!(split_lines(s).iter().all(|l| !l.contains('\n')));
    }
}

#[test]
fn search_in_text_finds_the_first_place() {
    for (hay, needle) in [
        ("", ""), ("abc", ""), ("abc", "c"), ("abc", "abcd"), ("aab", "ab"), ("aaa", "b"), ("xéyéy", "éy"),
    ] {
        assert_eq!(contains(hay, needle), hay.contains(needle));
        let at = find(&to_chars(hay), &to_chars(needle), 0);
        assert_eq!(at, hay.find(needle).map(|b| hay[..b].chars().count()));
    }
    assert_eq!(find(&to_chars("aéaé"), &to_chars("é"), 2), Some(3));
    assert_eq!(find(&to_chars("aéaé"), &to_chars("é"), 4), None);
    assert!(same("né", "né"));
    assert!(!same("ne", "né"));
    assert!(!same("n", "né"));
    assert_eq!(substring(&to_chars("xéyz"), 1, 3), "éy");
}

#[test]
fn numbers_are_written_in_decimal() {
    for n in [0usize, 7, 10, 99, 100, 65536, usize::MAX] {
        assert_eq!(to_decimal(n), n.to_string());
        assert_eq!(align_right(&to_decimal(n), 6), format!("{:>6}", n));
    }
    assert_eq!(align_right("é", 3), "  é");
}

#[test]
fn float_literals_are_those_that_parse() {
    for s in [
        "", ".", "+", "-", "1", "-1", "+1", "1.", ".5", "1.5", "1..5", "1.5.2", "1e5", "1E5", "1e", "1e+", "1e+5",
        "1e-5", "e5", ".e5", "1.e5", ".5e5", "1e5.0", "1e5e5", "inf", "-INF", "Infinity", "infinit", "nan", "+NaN",
        "nano", " 1", "1 ", "1_000", "0x10", "--1", "1e999999", "007", "١", "1f", "-.", "-.5", "+e1", "true",
    ] {
        assert_eq!(float_literal(s), s.parse::<f64>().is_ok(), "{:?}", s);
    }
}

#[test]
fn lines_join_to_the_text() {
    for s in ["", "\n", "a\nb\n", "a\rb\n\nc\n"] {
        let joined: String = split_lines(s).iter().map(|l| format!("{}\n", l)).collect();
        assert_eq!(joined, s);
    }
    let joined: String = split_lines("a\nb\r").iter().map(|l| format!("{}\n", l)).collect();
    assert_eq!(joined, "a\nb\r\n");
}
