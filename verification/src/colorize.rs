//! Colours for a line of pretty-printed JSON.

use vstd::prelude::*;

use crate::number::{float_literal, is_float_literal};
use crate::style::{
    fg, fg_style, lemma_shown_text_concat, lemma_shown_text_one, plain, plain_style, push_span,
    shown_text, span_views, Color, Span, Style, StyledLine,
};
use crate::text::{
    find, is_whitespace, leading_whitespace, lemma_next_occurrence, next_occurrence, occurs_at,
    same, substring, to_chars, trim_start,
};

verus! {

/// The text without the commas that it ends with.
pub open spec fn without_commas(s: Seq<char>) -> Seq<char>
    decreases s.len(),
{
    if s.len() > 0 && s.last() == ',' {
        without_commas(s.drop_last())
    } else {
        s
    }
}

/// The style of a value: strings are green, the three words of JSON yellow, numbers magenta, and
/// anything else is white.
pub open spec fn value_style(v: Seq<char>) -> Style {
    if v.len() > 0 && v[0] == '"' {
        fg_style(Color::Green)
    } else if v == "true"@ || v == "false"@ || v == "null"@ {
        fg_style(Color::Yellow)
    } else if is_float_literal(v) {
        fg_style(Color::Magenta)
    } else {
        fg_style(Color::White)
    }
}

/// Where the key that the text begins with ends, colon included; zero where there is no key.
pub open spec fn key_len(t: Seq<char>) -> int {
    if t.len() > 0 && t[0] == '"' {
        match next_occurrence(t, seq!['"', ':'], 0) {
            Some(k) => k + 2,
            None => 0,
        }
    } else {
        0
    }
}

/// The spans of a key, and of the one space that may follow it.
pub open spec fn key_spans(t: Seq<char>) -> Seq<(Seq<char>, Style)> {
    let k = key_len(t);
    if k == 0 {
        seq![]
    } else if k < t.len() && t[k] == ' ' {
        seq![(t.take(k), fg_style(Color::Cyan)), (seq![' '], plain_style())]
    } else {
        seq![(t.take(k), fg_style(Color::Cyan))]
    }
}

/// What follows the key and its space.
pub open spec fn after_key(t: Seq<char>) -> Seq<char> {
    let k = key_len(t);
    if k > 0 && k < t.len() && t[k] == ' ' {
        t.skip(k + 1)
    } else {
        t.skip(k)
    }
}

/// The spans of a value, and of a comma where commas follow it.
pub open spec fn value_spans(rest: Seq<char>) -> Seq<(Seq<char>, Style)> {
    let v = without_commas(rest);
    let spans = seq![(v, value_style(v))];
    if rest.len() > v.len() {
        spans.push((seq![','], fg_style(Color::DarkGray)))
    } else {
        spans
    }
}

/// The spans of the text behind the indentation.
pub open spec fn body_spans(t: Seq<char>) -> Seq<(Seq<char>, Style)> {
    if t == seq!['{'] || t == seq!['}'] {
        seq![(t, fg_style(Color::White))]
    } else {
        key_spans(t) + value_spans(after_key(t))
    }
}

/// The spans of a line: its indentation, a key, a value, a comma.
pub open spec fn colored(line: Seq<char>) -> Seq<(Seq<char>, Style)> {
    let t = trim_start(line);
    let indent = line.take(line.len() - t.len());
    if indent.len() > 0 {
        seq![(indent, plain_style())] + body_spans(t)
    } else {
        body_spans(t)
    }
}

/// Whether the text ends with two commas or more.
pub open spec fn ends_with_commas(s: Seq<char>) -> bool {
    s.len() >= 2 && s[s.len() - 1] == ',' && s[s.len() - 2] == ','
}

proof fn lemma_value_spans_text(rest: Seq<char>)
    requires
        !ends_with_commas(rest),
    ensures
        shown_text(value_spans(rest)) == rest,
{
    let v = without_commas(rest);
    let spans = seq![(v, value_style(v))];
    lemma_shown_text_one(v, value_style(v));
    if rest.len() > 0 && rest.last() == ',' {
        let d = rest.drop_last();
        assert(v == without_commas(d));
        assert(v == d);
        let all = value_spans(rest);
        assert(all.drop_last() =~= spans);
        assert(shown_text(all) =~= rest);
    }
}

proof fn lemma_key_spans_text(t: Seq<char>)
    ensures
        0 <= key_len(t) <= t.len(),
        shown_text(key_spans(t)) + after_key(t) == t,
        after_key(t).len() <= t.len(),
        after_key(t) == t.skip(t.len() - after_key(t).len()),
{
    let k = key_len(t);
    let mark = seq!['"', ':'];
    lemma_next_occurrence(t, mark, 0);
    if k > 0 {
        assert(occurs_at(t, mark, k - 2));
        let key = seq![(t.take(k), fg_style(Color::Cyan))];
        lemma_shown_text_one(t.take(k), fg_style(Color::Cyan));
        if k < t.len() && t[k] == ' ' {
            let all = key_spans(t);
            assert(all.drop_last() =~= key);
            assert(all.last().0 == seq![' ']);
            assert(shown_text(all) =~= t.take(k + 1));
        }
        assert(shown_text(key_spans(t)) + after_key(t) =~= t);
    } else {
        assert(shown_text(key_spans(t)) + after_key(t) =~= t);
    }
    assert(after_key(t) =~= t.skip(t.len() - after_key(t).len()));
}

proof fn lemma_trim_start_suffix(s: Seq<char>)
    ensures
        trim_start(s).len() <= s.len(),
        trim_start(s) == s.skip(s.len() - trim_start(s).len()),
    decreases s.len(),
{
    if s.len() > 0 && is_whitespace(s[0]) {
        lemma_trim_start_suffix(s.drop_first());
        let n = trim_start(s).len();
        assert(s.drop_first().skip(s.len() - 1 - n) =~= s.skip(s.len() - n));
    } else {
        assert(s.skip(0) =~= s);
    }
}

proof fn lemma_body_spans_text(t: Seq<char>)
    requires
        !ends_with_commas(t),
    ensures
        shown_text(body_spans(t)) == t,
{
    if t == seq!['{'] || t == seq!['}'] {
        lemma_shown_text_one(t, fg_style(Color::White));
    } else {
        lemma_key_spans_text(t);
        let rest = after_key(t);
        if ends_with_commas(rest) {
            assert(rest[rest.len() - 1] == t[t.len() - 1]);
            assert(rest[rest.len() - 2] == t[t.len() - 2]);
        }
        lemma_value_spans_text(rest);
        lemma_shown_text_concat(key_spans(t), value_spans(rest));
    }
}

/// Colouring a line changes nothing of its text. (Of several commas at the end of a line only one
/// is shown, so a line that ends so is left out.)
pub proof fn law_coloring_keeps_text(line: Seq<char>)
    requires
        !ends_with_commas(line),
    ensures
        shown_text(colored(line)) == line,
{
    let t = trim_start(line);
    lemma_trim_start_suffix(line);
    if ends_with_commas(t) {
        assert(t[t.len() - 1] == line[line.len() - 1]);
        assert(t[t.len() - 2] == line[line.len() - 2]);
    }
    lemma_body_spans_text(t);
    let indent = line.take(line.len() - t.len());
    assert(indent + t =~= line);
    if indent.len() > 0 {
        let head = seq![(indent, plain_style())];
        lemma_shown_text_one(indent, plain_style());
        lemma_shown_text_concat(head, body_spans(t));
    } else {
        assert(line =~= t);
    }
}

/// The style of a value.
fn style_of_value(v: &str) -> (r: Style)
    ensures
        r == value_style(v@),
{
    let chars: Vec<char> = to_chars(v);
    if chars.len() > 0 && chars[0] == '"' {
        fg(Color::Green)
    } else if same(v, "true") || same(v, "false") || same(v, "null") {
        fg(Color::Yellow)
    } else if float_literal(v) {
        fg(Color::Magenta)
    } else {
        fg(Color::White)
    }
}

/// Where the key that the text begins with ends.
fn key_end(t: &Vec<char>) -> (r: usize)
    ensures
        r == key_len(t@),
        r <= t@.len(),
{
    if t.len() > 0 && t[0] == '"' {
        let mark: Vec<char> = vec!['"', ':'];
        proof {
            lemma_next_occurrence(t@, mark@, 0);
            assert(mark@ =~= seq!['"', ':']);
        }
        match find(t, &mark, 0) {
            Some(k) => k + 2,
            None => 0,
        }
    } else {
        0
    }
}

/// Where the commas that the text ends with begin.
fn commas_begin(t: &Vec<char>, from: usize) -> (r: usize)
    requires
        from <= t@.len(),
    ensures
        from <= r <= t@.len(),
        without_commas(t@.skip(from as int)) == t@.subrange(from as int, r as int),
{
    let mut k: usize = t.len();
    assert(t@.subrange(from as int, k as int) =~= t@.skip(from as int));
    while from < k && t[k - 1] == ','
        invariant
            from <= k <= t@.len(),
            without_commas(t@.skip(from as int)) == without_commas(
                t@.subrange(from as int, k as int),
            ),
        decreases k,
    {
        assert(t@.subrange(from as int, k as int).drop_last() =~= t@.subrange(from as int, k - 1));
        k = k - 1;
    }
    k
}

/// Colours a line of pretty-printed JSON.
#[verifier::rlimit(40)]
pub fn colorize_json_line(line: &str) -> (r: StyledLine)
    ensures
        span_views(r.spans@) == colored(line@),
        r.style == plain_style(),
{
    let chars: Vec<char> = to_chars(line);
    let cut: usize = leading_whitespace(&chars);
    let mut spans: Vec<Span> = Vec::new();
    let ghost ts = trim_start(line@);
    assert(span_views(spans@) =~= seq![]);
    assert(line@.subrange(0, cut as int) =~= line@.take(line@.len() - ts.len()));
    if cut > 0 {
        push_span(&mut spans, substring(&chars, 0, cut), plain());
    }
    let ghost head = span_views(spans@);
    let trimmed: String = substring(&chars, cut, chars.len());
    assert(trimmed@ =~= ts);
    let t: Vec<char> = to_chars(&trimmed);
    if t.len() == 1 && (t[0] == '{' || t[0] == '}') {
        assert(ts =~= seq![t[0]]);
        push_span(&mut spans, trimmed, fg(Color::White));
        assert(span_views(spans@) =~= colored(line@));
        return StyledLine { spans, style: plain() };
    }
    let mut from: usize = key_end(&t);
    if from > 0 {
        push_span(&mut spans, substring(&t, 0, from), fg(Color::Cyan));
        assert(ts.subrange(0, from as int) =~= ts.take(from as int));
        if from < t.len() && t[from] == ' ' {
            let mut gap: String = String::new();
            gap.push(' ');
            assert(gap@ =~= seq![' ']);
            push_span(&mut spans, gap, plain());
            from = from + 1;
        }
    }
    let ghost rest = after_key(ts);
    assert(span_views(spans@) =~= head + key_spans(ts));
    assert(rest =~= ts.skip(from as int));
    let end: usize = commas_begin(&t, from);
    let value: String = substring(&t, from, end);
    let style: Style = style_of_value(&value);
    push_span(&mut spans, value, style);
    if end < t.len() {
        let mut comma: String = String::new();
        comma.push(',');
        assert(comma@ =~= seq![',']);
        push_span(&mut spans, comma, fg(Color::DarkGray));
    }
    assert(span_views(spans@) =~= head + (key_spans(ts) + value_spans(rest)));
    assert(span_views(spans@) =~= colored(line@));
    StyledLine { spans, style: plain() }
}

} // verus!
