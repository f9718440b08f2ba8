use logoscope::json::{looks_like_json, pretty_print_json, push_indent};

#[test]
fn test_pretty_print_simple() {
    let input = r#"{"a":1,"b":"hello"}"#;
    let result = pretty_print_json(input);
    assert_eq!(result, "{\n  \"a\": 1,\n  \"b\": \"hello\"\n}");
}

#[test]
fn test_pretty_print_nested() {
    let input = r#"{"a":{"b":2}}"#;
    let result = pretty_print_json(input);
    assert_eq!(result, "{\n  \"a\": {\n    \"b\": 2\n  }\n}");
}

#[test]
fn test_pretty_print_empty_object() {
    let input = r#"{"a":{},"b":1}"#;
    let result = pretty_print_json(input);
    assert_eq!(result, "{\n  \"a\": {},\n  \"b\": 1\n}");
}

#[test]
fn test_pretty_print_array() {
    let input = r#"{"a":[1,2,3]}"#;
    let result = pretty_print_json(input);
    assert_eq!(result, "{\n  \"a\": [\n    1,\n    2,\n    3\n  ]\n}");
}

/// The text without the whitespace outside string literals.
fn without_layout(s: &str) -> String {
    let mut out = String::new();
    let mut in_string = false;
    let mut escaped = false;
    for c in s.chars() {
        let outside = !in_string;
        if escaped {
            escaped = false;
        } else if c == '\\' && in_string {
            escaped = true;
        } else if c == '"' {
            in_string = !in_string;
        }
        if !(outside && c.is_ascii_whitespace()) {
            out.push(c);
        }
    }
    out
}

fn samples() -> Vec<&'static str> {
    vec![
        "",
        "{}",
        "[ ]",
        "{ \t}",
        "[\u{c}]",
        "[\u{c}1\u{c}]",
        "{\"a\":[{},[],[1,[2]]],\"b c\":\"x, y: {z}\"}",
        "{\"q\":\"say \\\"hi\\\" \\\\\",\"n\":null}",
        "}}{{",
        "[}",
        "{]",
        "\"unfinished, {string",
        "{ \"a\" : 1 , \"b\" : [ 1 , 2 ] }",
        "plain text",
    ]
}

#[test]
fn pretty_print_leaves_strings_alone() {
    let input = r#"{"k":"a: b, {c} [d] \" \\"}"#;
    assert_eq!(pretty_print_json(input), "{\n  \"k\": \"a: b, {c} [d] \\\" \\\\\"\n}");
}

#[test]
fn pretty_print_drops_old_layout() {
    assert_eq!(pretty_print_json("{ \"a\" :\n 1 }"), "{\n  \"a\": 1\n}");
    assert_eq!(pretty_print_json("[ \r\n\t ]"), "[]");
}

#[test]
fn pretty_print_drops_form_feed_in_empty_container_only() {
    assert_eq!(pretty_print_json("[ \u{c} ]"), "[]");
    assert_eq!(pretty_print_json("[\u{c}1]"), "[\n  \u{c}1\n]");
    assert_eq!(pretty_print_json("[\u{c}}"), "[\n  \u{c}\n}");
}

#[test]
fn pretty_print_keeps_unmatched_brackets() {
    assert_eq!(pretty_print_json("}"), "\n}");
    assert_eq!(pretty_print_json("]]1"), "\n]\n]1");
    assert_eq!(pretty_print_json("{"), "{\n  ");
    assert_eq!(pretty_print_json("{]"), "{\n  \n]");
}

#[test]
fn pretty_print_of_nothing_is_nothing() {
    assert_eq!(pretty_print_json(""), "");
}

#[test]
fn pretty_print_keeps_content() {
    for s in samples() {
        assert_eq!(without_layout(&pretty_print_json(s)), without_layout(s));
    }
}

#[test]
fn pretty_print_twice_is_once() {
    for s in samples() {
        let once = pretty_print_json(s);
        assert_eq!(pretty_print_json(&once), once);
    }
}

#[test]
fn json_is_told_by_its_ends() {
    assert!(looks_like_json("{}"));
    assert!(looks_like_json(" \t[1, 2]\n"));
    assert!(looks_like_json("\u{3000}{x}\u{a0}"));
    assert!(!looks_like_json("{]"));
    assert!(!looks_like_json("{"));
    assert!(!looks_like_json(""));
    assert!(!looks_like_json("   "));
    assert!(!looks_like_json("x{}"));
}

#[test]
fn indentation_is_two_spaces_a_level() {
    let mut s = String::from("x");
    push_indent(&mut s, 3);
    assert_eq!(s, "x      ");
    push_indent(&mut s, 0);
    assert_eq!(s, "x      ");
}
