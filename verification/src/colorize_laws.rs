//! The colour of each character of a coloured line, said of the line itself.

use vstd::prelude::*;

use crate::colorize::{
    after_key, body_spans, colored, key_len, key_spans, value_spans, value_style, without_commas,
};
use crate::number_laws::{law_number_is_written_as_one, numeral, reads_as_number};
use crate::style::{
    lemma_shown_text_concat, lemma_shown_text_one, lemma_style_at_concat, shown_text, style_at,
    Color, Style,
};
use crate::text::{lemma_next_occurrence, next_occurrence, occurs_at};
use crate::text_laws::{lemma_trim_start_to, lemma_white_end, white};

verus! {

/// Whether a quote stands at `j` with a colon behind it.
pub open spec fn quote_colon(line: Seq<char>, j: int) -> bool {
    0 <= j && j + 1 < line.len() && line[j] == '"' && line[j + 1] == ':'
}

/// Whether a line divides so: white space up to `w`; a key up to `k`, from a quote there to the
/// first quote with a colon behind it, or no key; where there is a key, a space up to `a`, or none;
/// a value up to `b`; and commas.
pub open spec fn divides(line: Seq<char>, w: int, k: int, a: int, b: int) -> bool {
    &&& 0 <= w <= k <= a <= b <= line.len()
    &&& forall|i: int| 0 <= i < w ==> white(#[trigger] line[i])
    &&& w < line.len() ==> !white(line[w])
    &&& {
        ||| k == w && (w == line.len() || line[w] != '"' || forall|j: int|
            w <= j ==> !quote_colon(line, j))
        ||| k >= w + 2 && line[w] == '"' && quote_colon(line, k - 2) && forall|j: int|
            w <= j < k - 2 ==> !quote_colon(line, j)
    }
    &&& a == if k > w && k < line.len() && line[k] == ' ' {
        k + 1
    } else {
        k
    }
    &&& forall|i: int| b <= i < line.len() ==> #[trigger] line[i] == ','
    &&& b > a ==> line[b - 1] != ','
}

/// A colour, and nothing else.
pub open spec fn just(c: Color) -> Style {
    Style { fg: Some(c), bg: None, bold: false }
}

/// The colour of a value.
pub open spec fn value_color(v: Seq<char>) -> Color {
    if v.len() > 0 && v[0] == '"' {
        Color::Green
    } else if v == seq!['t', 'r', 'u', 'e'] || v == seq!['f', 'a', 'l', 's', 'e'] || v == seq![
        'n',
        'u',
        'l',
        'l',
    ] {
        Color::Yellow
    } else if reads_as_number(v) {
        Color::Magenta
    } else {
        Color::White
    }
}

proof fn lemma_value_color(v: Seq<char>)
    ensures
        value_style(v) == just(value_color(v)),
{
    reveal_strlit("true");
    reveal_strlit("false");
    reveal_strlit("null");
    assert("true"@ =~= seq!['t', 'r', 'u', 'e']);
    assert("false"@ =~= seq!['f', 'a', 'l', 's', 'e']);
    assert("null"@ =~= seq!['n', 'u', 'l', 'l']);
    law_number_is_written_as_one(v);
}

proof fn lemma_without_commas_at(s: Seq<char>, b: int)
    requires
        0 <= b <= s.len(),
        forall|i: int| b <= i < s.len() ==> #[trigger] s[i] == ',',
        b > 0 ==> s[b - 1] != ',',
    ensures
        without_commas(s) == s.take(b),
    decreases s.len(),
{
    if b == s.len() {
        assert(s.take(b) =~= s);
    } else {
        assert(s[s.len() - 1] == ',');
        lemma_without_commas_at(s.drop_last(), b);
        assert(s.drop_last().take(b) =~= s.take(b));
    }
}

proof fn lemma_quote_colon(t: Seq<char>, j: int)
    ensures
        occurs_at(t, seq!['"', ':'], j) == quote_colon(t, j),
{
    let mark = seq!['"', ':'];
    if 0 <= j && j + 2 <= t.len() {
        let sub = t.subrange(j, j + 2);
        assert(sub[0] == t[j] && sub[1] == t[j + 1]);
        if quote_colon(t, j) {
            assert(sub =~= mark);
        }
    }
}

proof fn lemma_key_len_at(line: Seq<char>, w: int, k: int, a: int, b: int)
    requires
        divides(line, w, k, a, b),
    ensures
        key_len(line.skip(w)) == k - w,
{
    let t = line.skip(w);
    let mark = seq!['"', ':'];
    lemma_next_occurrence(t, mark, 0);
    assert forall|j: int| 0 <= j implies #[trigger] occurs_at(t, mark, j) == quote_colon(
        line,
        w + j,
    ) by {
        lemma_quote_colon(t, j);
        if j + 1 < t.len() {
            assert(t[j] == line[w + j] && t[j + 1] == line[w + j + 1]);
        }
    }
    if k > w {
        assert(occurs_at(t, mark, k - 2 - w));
        let f = next_occurrence(t, mark, 0)->0;
        assert(quote_colon(line, w + f));
        assert(f == k - 2 - w);
    } else if w < line.len() && line[w] == '"' {
        if let Some(f) = next_occurrence(t, mark, 0) {
            assert(occurs_at(t, mark, f));
            assert(quote_colon(line, w + f));
        }
    }
}

proof fn lemma_bracket_is_white(t: Seq<char>)
    requires
        t == seq!['{'] || t == seq!['}'],
    ensures
        key_spans(t) + value_spans(after_key(t)) == body_spans(t),
{
    assert(after_key(t) =~= t);
    assert(without_commas(t) == t);
    lemma_value_color(t);
    assert(!reads_as_number(t)) by {
        if exists|a: int, b: int, c: int, x: int| numeral(t, a, b, c, x) {
            let (a, b, c, x) = choose|a: int, b: int, c: int, x: int| numeral(t, a, b, c, x);
            if b > a {
                assert('0' <= t[a] <= '9');
            } else {
                assert(t[b] == '.');
            }
        }
    }
    assert(t.len() == 1);
    assert(value_color(t) == Color::White);
    assert(key_spans(t) + value_spans(after_key(t)) =~= body_spans(t));
}

/// A span alone shows its text in its style.
proof fn lemma_one_span(text: Seq<char>, style: Style, i: int)
    requires
        0 <= i,
    ensures
        style_at(seq![(text, style)], i) == style,
        shown_text(seq![(text, style)]) == text,
{
    let one = seq![(text, style)];
    lemma_shown_text_one(text, style);
    assert(one.drop_last() =~= seq![]);
    assert(shown_text(one.drop_last()) =~= seq![]);
}

proof fn lemma_two_spans(a: (Seq<char>, Style), b: (Seq<char>, Style), i: int)
    requires
        0 <= i < a.0.len() + b.0.len(),
    ensures
        style_at(seq![a, b], i) == if i < a.0.len() {
            a.1
        } else {
            b.1
        },
        shown_text(seq![a, b]) == a.0 + b.0,
{
    let two = seq![a, b];
    assert(two.drop_last() =~= seq![a]);
    assert(two.last() == b);
    lemma_one_span(a.0, a.1, i);
}

proof fn lemma_two_texts(a: (Seq<char>, Style), b: (Seq<char>, Style))
    ensures
        shown_text(seq![a, b]) == a.0 + b.0,
{
    let two = seq![a, b];
    assert(two.drop_last() =~= seq![a]);
    assert(two.last() == b);
    lemma_one_span(a.0, a.1, 0);
}

/// The colours of a value and of a comma behind it.
proof fn lemma_value_look(rest: Seq<char>, b: int, i: int)
    requires
        0 <= b <= rest.len(),
        without_commas(rest) == rest.take(b),
        forall|j: int| b <= j < rest.len() ==> #[trigger] rest[j] == ',',
        0 <= i,
        i < b || (i == b && b < rest.len()),
    ensures
        style_at(value_spans(rest), i) == if i < b {
            just(value_color(rest.take(b)))
        } else {
            just(Color::DarkGray)
        },
{
    let v = rest.take(b);
    lemma_value_color(v);
    if b < rest.len() {
        assert(value_spans(rest) =~= seq![
            (v, value_style(v)),
            (seq![','], just(Color::DarkGray)),
        ]);
        lemma_two_spans((v, value_style(v)), (seq![','], just(Color::DarkGray)), i);
    } else {
        assert(value_spans(rest) =~= seq![(v, value_style(v))]);
        lemma_one_span(v, value_style(v), i);
    }
}

proof fn lemma_value_text(rest: Seq<char>, b: int)
    requires
        0 <= b <= rest.len(),
        without_commas(rest) == rest.take(b),
        forall|j: int| b <= j < rest.len() ==> #[trigger] rest[j] == ',',
    ensures
        shown_text(value_spans(rest)) == if b < rest.len() {
            rest.take(b + 1)
        } else {
            rest
        },
{
    let v = rest.take(b);
    if b < rest.len() {
        assert(value_spans(rest) =~= seq![
            (v, value_style(v)),
            (seq![','], just(Color::DarkGray)),
        ]);
        lemma_two_texts((v, value_style(v)), (seq![','], just(Color::DarkGray)));
        assert(rest[b] == ',');
        assert(v + seq![','] =~= rest.take(b + 1));
    } else {
        assert(value_spans(rest) =~= seq![(v, value_style(v))]);
        lemma_one_span(v, value_style(v), 0);
        assert(v =~= rest);
    }
}

/// The colours of a key and of a space behind it.
proof fn lemma_key_look(t: Seq<char>, i: int)
    requires
        0 <= key_len(t) <= t.len(),
        0 <= i < t.len() - after_key(t).len(),
    ensures
        style_at(key_spans(t), i) == if i < key_len(t) {
            just(Color::Cyan)
        } else {
            Style { fg: None, bg: None, bold: false }
        },
{
    let k = key_len(t);
    if k > 0 {
        if k < t.len() && t[k] == ' ' {
            assert(key_spans(t) =~= seq![
                (t.take(k), just(Color::Cyan)),
                (seq![' '], Style { fg: None, bg: None, bold: false }),
            ]);
            lemma_two_spans(
                (t.take(k), just(Color::Cyan)),
                (seq![' '], Style { fg: None, bg: None, bold: false }),
                i,
            );
        } else {
            lemma_one_span(t.take(k), just(Color::Cyan), i);
        }
    }
}

proof fn lemma_key_text(t: Seq<char>)
    requires
        0 <= key_len(t) <= t.len(),
    ensures
        after_key(t).len() <= t.len(),
        shown_text(key_spans(t)) == t.take(t.len() - after_key(t).len()),
{
    let k = key_len(t);
    if k == 0 {
        assert(shown_text(key_spans(t)) =~= t.take(0));
    } else if k < t.len() && t[k] == ' ' {
        lemma_two_texts(
            (t.take(k), just(Color::Cyan)),
            (seq![' '], Style { fg: None, bg: None, bold: false }),
        );
        assert(t.take(k) + seq![' '] =~= t.take(k + 1));
        assert(key_spans(t) =~= seq![
            (t.take(k), just(Color::Cyan)),
            (seq![' '], Style { fg: None, bg: None, bold: false }),
        ]);
    } else {
        lemma_one_span(t.take(k), just(Color::Cyan), 0);
    }
}

/// The parts of a coloured line, one behind another.
proof fn lemma_parts(line: Seq<char>, w: int, k: int, a: int, b: int) -> (r: (
    Seq<(Seq<char>, Style)>,
    Seq<(Seq<char>, Style)>,
    Seq<(Seq<char>, Style)>,
))
    requires
        divides(line, w, k, a, b),
    ensures
        colored(line) == r.0 + (r.1 + r.2),
        r.1 == key_spans(line.skip(w)),
        r.2 == value_spans(line.skip(a)),
        shown_text(r.0) == line.take(w),
        forall|i: int|
            0 <= i < w ==> #[trigger] style_at(r.0, i) == (Style {
                fg: None,
                bg: None,
                bold: false,
            }),
        shown_text(r.1) == line.subrange(w, a),
        shown_text(r.2) == if b < line.len() {
            line.subrange(a, b + 1)
        } else {
            line.subrange(a, b)
        },
        after_key(line.skip(w)) == line.skip(a),
        without_commas(line.skip(a)) == line.skip(a).take(b - a),
        key_len(line.skip(w)) == k - w,
{
    let t = line.skip(w);
    let rest = line.skip(a);
    let indent = line.take(w);
    let free = Style { fg: None, bg: None, bold: false };
    lemma_trim_start_to(line, w);
    lemma_key_len_at(line, w, k, a, b);
    if k < line.len() {
        assert(t[k - w] == line[k]);
    }
    assert(after_key(t) =~= rest);
    assert forall|i: int| b - a <= i < rest.len() implies #[trigger] rest[i] == ',' by {
        assert(line[a + i] == ',');
    }
    lemma_without_commas_at(rest, b - a);
    lemma_value_text(rest, b - a);
    lemma_key_text(t);
    assert(t.take(t.len() - rest.len()) =~= line.subrange(w, a));
    if b < line.len() {
        assert(rest.take(b - a + 1) =~= line.subrange(a, b + 1));
    } else {
        assert(rest =~= line.subrange(a, b));
    }
    if t == seq!['{'] || t == seq!['}'] {
        lemma_bracket_is_white(t);
    }
    let body = key_spans(t) + value_spans(rest);
    assert(body_spans(t) == body);
    let head = if w > 0 {
        seq![(indent, free)]
    } else {
        seq![]
    };
    assert(line.take(line.len() - t.len()) =~= indent);
    if w > 0 {
        assert forall|i: int| 0 <= i < w implies #[trigger] style_at(head, i) == free by {
            lemma_one_span(indent, free, i);
        }
        lemma_one_span(indent, free, 0);
    } else {
        assert(shown_text(head) =~= indent);
    }
    assert(colored(line) =~= head + body);
    (head, key_spans(t), value_spans(rest))
}

/// A coloured line shows the line; of commas at its end only the first is shown.
pub proof fn law_colored_line_shows_the_line(line: Seq<char>, w: int, k: int, a: int, b: int)
    requires
        divides(line, w, k, a, b),
    ensures
        shown_text(colored(line)) == if b < line.len() {
            line.take(b + 1)
        } else {
            line
        },
{
    let (head, key, value) = lemma_parts(line, w, k, a, b);
    lemma_shown_text_concat(key, value);
    lemma_shown_text_concat(head, key + value);
    assert(shown_text(colored(line)) =~= if b < line.len() {
        line.take(b + 1)
    } else {
        line
    });
}

/// In a coloured line a key is cyan with its quotes and its colon; of values, strings are green,
/// the words `true`, `false` and `null` yellow, numbers magenta, and everything else is white; the
/// comma behind a value is dark grey; and what stands before the key, or between it and the value,
/// has no colour.
pub proof fn law_each_part_has_its_color(
    line: Seq<char>,
    w: int,
    k: int,
    a: int,
    b: int,
    i: int,
)
    requires
        divides(line, w, k, a, b),
        0 <= i < line.len(),
        i <= b,
    ensures
        style_at(colored(line), i) == if i < w {
            Style { fg: None, bg: None, bold: false }
        } else if i < k {
            just(Color::Cyan)
        } else if i < a {
            Style { fg: None, bg: None, bold: false }
        } else if i < b {
            just(value_color(line.subrange(a, b)))
        } else {
            just(Color::DarkGray)
        },
{
    let (head, key, value) = lemma_parts(line, w, k, a, b);
    let rest = line.skip(a);
    lemma_shown_text_concat(key, value);
    lemma_shown_text_concat(head, key + value);
    lemma_style_at_concat(head, key + value, i);
    if i >= w {
        lemma_style_at_concat(key, value, i - w);
        if i < a {
            lemma_key_look(line.skip(w), i - w);
        } else {
            assert forall|j: int| b - a <= j < rest.len() implies #[trigger] rest[j] == ',' by {
                assert(line[a + j] == ',');
            }
            lemma_value_look(rest, b - a, i - a);
            assert(rest.take(b - a) =~= line.subrange(a, b));
        }
    }
}

/// Every line divides into such parts.
pub proof fn law_every_line_divides(line: Seq<char>)
    ensures
        exists|w: int, k: int, a: int, b: int| divides(line, w, k, a, b),
{
    let w = lemma_white_end(line, 0);
    let k = lemma_key_end(line, w);
    let a = if k > w && k < line.len() && line[k] == ' ' {
        k + 1
    } else {
        k
    };
    let b = lemma_commas_begin(line, a, line.len() as int);
    assert(divides(line, w, k, a, b));
}

proof fn lemma_first_quote_colon(line: Seq<char>, w: int, from: int) -> (r: Option<int>)
    requires
        0 <= w <= from,
        forall|j: int| w <= j < from ==> !quote_colon(line, j),
    ensures
        match r {
            Some(q) => w <= q && quote_colon(line, q) && forall|j: int|
                w <= j < q ==> !quote_colon(line, j),
            None => forall|j: int| w <= j ==> !quote_colon(line, j),
        },
    decreases line.len() - from,
{
    if from >= line.len() {
        None
    } else if quote_colon(line, from) {
        Some(from)
    } else {
        lemma_first_quote_colon(line, w, from + 1)
    }
}

proof fn lemma_key_end(line: Seq<char>, w: int) -> (k: int)
    requires
        0 <= w <= line.len(),
    ensures
        w <= k <= line.len(),
        (k == w && (w == line.len() || line[w] != '"' || forall|j: int|
            w <= j ==> !quote_colon(line, j))) || (k >= w + 2 && line[w] == '"' && quote_colon(
            line,
            k - 2,
        ) && forall|j: int| w <= j < k - 2 ==> !quote_colon(line, j)),
{
    match lemma_first_quote_colon(line, w, w) {
        Some(q) => if w < line.len() && line[w] == '"' {
            q + 2
        } else {
            w
        },
        None => w,
    }
}

proof fn lemma_commas_begin(line: Seq<char>, a: int, from: int) -> (b: int)
    requires
        0 <= a <= from <= line.len(),
        forall|i: int| from <= i < line.len() ==> #[trigger] line[i] == ',',
    ensures
        a <= b <= line.len(),
        forall|i: int| b <= i < line.len() ==> #[trigger] line[i] == ',',
        b > a ==> line[b - 1] != ',',
    decreases from,
{
    if from > a && line[from - 1] == ',' {
        lemma_commas_begin(line, a, from - 1)
    } else {
        from
    }
}

} // verus!
