//! A line of the log as it is shown: its number, and the matches of a search in it.

use vstd::prelude::*;
use vstd::utf8::is_ascii_chars;

use crate::bridge::{
    ascii_lowered, lower_char, lowercase, lowered_char, lowered_width, to_lowercase,
};
use crate::style::{
    fg, fg_style, lemma_shown_text_concat, lemma_shown_text_one, lemma_style_at_concat, plain,
    plain_style, push_span, shown_text, span_views, style_at, Color, Span, Style, StyledLine,
};
use crate::text::{
    align_right, decimal, find, has, lemma_next_occurrence, next_occurrence, occurs_at,
    right_aligned, substring, to_chars, to_decimal,
};

verus! {

/// The places from `from` on at which `needle` stands in `hay`, each beginning behind the one
/// before it.
pub open spec fn match_starts(hay: Seq<char>, needle: Seq<char>, from: int) -> Seq<int>
    decreases hay.len() - from,
{
    match next_occurrence(hay, needle, from) {
        Some(i) => if from <= i && needle.len() > 0 && i + needle.len() <= hay.len() {
            seq![i] + match_starts(hay, needle, i + needle.len())
        } else {
            seq![]
        },
        None => seq![],
    }
}

/// The places at which the lower-case form of a query stands in that of a line.
pub open spec fn found(line_lower: Seq<char>, query_lower: Seq<char>) -> Seq<int> {
    match_starts(line_lower, query_lower, 0)
}

/// For each character of the lower-case forms of a line's characters, one form behind another, the
/// place in the line of the character that it comes from.
pub open spec fn origins(line: Seq<char>) -> Seq<int>
    decreases line.len(),
{
    if line.len() == 0 {
        seq![]
    } else {
        origins(line.drop_last()) + Seq::new(
            lowered_char(line.last()).len(),
            |j: int| line.len() - 1,
        )
    }
}

/// The places of `n` characters, of which each comes from itself.
pub open spec fn in_place(n: nat) -> Seq<int> {
    Seq::new(n, |i: int| i)
}

/// Whether origins are those of a line of `len` characters: they are places in the line, in order,
/// and no character of the line is left out.
pub open spec fn traces(origin: Seq<int>, len: int) -> bool {
    &&& forall|p: int| 0 <= p < origin.len() ==> 0 <= #[trigger] origin[p] < len
    &&& forall|p: int, q: int| 0 <= p <= q < origin.len() ==> origin[p] <= origin[q]
    &&& forall|i: int| 0 <= i < len ==> #[trigger] origin.contains(i)
}

/// Whether every character of the lower-case form of a line comes from a character of the line.
pub open spec fn traced(line: Seq<char>) -> bool {
    origins(line).len() == lowercase(line).len() && traces(origins(line), line.len() as int)
}

/// The stretches of a line that the matches of a query take up: each from the character that the
/// match begins in up to, and with, the one that it ends in.
pub open spec fn marks(
    line_lower: Seq<char>,
    origin: Seq<int>,
    query_lower: Seq<char>,
) -> Seq<(int, int)> {
    found(line_lower, query_lower).map_values(
        |m: int| (origin[m], origin[m + query_lower.len() - 1] + 1),
    )
}

/// The line from its character `last` on: the stretches in one style, what lies between them in
/// another. A character that two stretches share belongs to the first of them.
pub open spec fn runs(
    line: Seq<char>,
    stretches: Seq<(int, int)>,
    last: int,
    base: Style,
    mark: Style,
) -> Seq<(Seq<char>, Style)>
    decreases stretches.len(),
{
    let size = line.len() as int;
    if stretches.len() == 0 {
        if last < size {
            seq![(line.subrange(last, size), base)]
        } else {
            seq![]
        }
    } else {
        let (from, to) = clipped(stretches[0], last, size);
        let rest = stretches.drop_first();
        if from < to {
            marked_run(line, last, from, to, base, mark) + runs(line, rest, to, base, mark)
        } else {
            runs(line, rest, last, base, mark)
        }
    }
}

/// What of a stretch lies from `last` on and before `size`.
pub open spec fn clipped(stretch: (int, int), last: int, size: int) -> (int, int) {
    (
        if stretch.0 > last {
            stretch.0
        } else {
            last
        },
        if stretch.1 < size {
            stretch.1
        } else {
            size
        },
    )
}

/// A stretch from `from` up to `to`, behind what lies between it and `last`.
pub open spec fn marked_run(
    line: Seq<char>,
    last: int,
    from: int,
    to: int,
    base: Style,
    mark: Style,
) -> Seq<(Seq<char>, Style)> {
    if from > last {
        seq![(line.subrange(last, from), base), (line.subrange(from, to), mark)]
    } else {
        seq![(line.subrange(from, to), mark)]
    }
}

pub(crate) proof fn lemma_match_starts(hay: Seq<char>, needle: Seq<char>, from: int)
    requires
        0 <= from,
        needle.len() > 0,
    ensures
        forall|k: int|
            0 <= k < match_starts(hay, needle, from).len() ==> from <= (#[trigger] match_starts(
                hay,
                needle,
                from,
            )[k]) && occurs_at(hay, needle, match_starts(hay, needle, from)[k]),
        forall|j: int, k: int|
            0 <= j < k < match_starts(hay, needle, from).len() ==> (#[trigger] match_starts(
                hay,
                needle,
                from,
            )[j]) + needle.len() <= #[trigger] match_starts(hay, needle, from)[k],
    decreases hay.len() - from,
{
    lemma_next_occurrence(hay, needle, from);
    let all = match_starts(hay, needle, from);
    if let Some(i) = next_occurrence(hay, needle, from) {
        let rest = match_starts(hay, needle, i + needle.len());
        lemma_match_starts(hay, needle, i + needle.len());
        assert(all == seq![i] + rest);
        assert forall|k: int| 0 <= k < all.len() implies from <= (#[trigger] all[k])
            && occurs_at(hay, needle, all[k]) by {
            if k > 0 {
                assert(all[k] == rest[k - 1]);
            }
        }
        assert forall|j: int, k: int| 0 <= j < k < all.len() implies (#[trigger] all[j])
            + needle.len() <= #[trigger] all[k] by {
            assert(all[k] == rest[k - 1]);
            if j > 0 {
                assert(all[j] == rest[j - 1]);
            }
        }
    }
}

pub open spec fn ints(v: Seq<usize>) -> Seq<int> {
    v.map_values(|x: usize| x as int)
}

/// The places at which one string stands in another, left to right and without overlap.
pub fn find_matches(hay: &str, needle: &str) -> (r: Vec<usize>)
    requires
        needle@.len() > 0,
    ensures
        ints(r@) == found(hay@, needle@),
{
    let h: Vec<char> = to_chars(hay);
    let n: Vec<char> = to_chars(needle);
    let size: usize = h.len();
    let mut out: Vec<usize> = Vec::new();
    let mut from: usize = 0;
    assert(ints(out@) + match_starts(h@, n@, 0) =~= found(hay@, needle@));
    loop
        invariant
            h@ == hay@,
            n@ == needle@,
            n@.len() > 0,
            from <= size == h@.len(),
            ints(out@) + match_starts(h@, n@, from as int) == found(hay@, needle@),
        decreases h@.len() - from,
    {
        proof {
            lemma_next_occurrence(h@, n@, from as int);
        }
        match find(&h, &n, from) {
            Some(i) => {
                let ghost before = ints(out@);
                out.push(i);
                from = i + n.len();
                assert(ints(out@) =~= before.push(i as int));
                assert(ints(out@) + match_starts(h@, n@, from as int) =~= found(hay@, needle@));
            },
            None => {
                assert(ints(out@) =~= found(hay@, needle@));
                return out;
            },
        }
    }
}

pub(crate) proof fn lemma_origins_len(line: Seq<char>)
    ensures
        origins(line).len() == lowered_width(line),
    decreases line.len(),
{
    if line.len() > 0 {
        lemma_origins_len(line.drop_last());
    }
}

/// The origins of a longer line, where its last character has a lower-case form.
proof fn lemma_traces_step(line: Seq<char>)
    requires
        line.len() > 0,
        traces(origins(line.drop_last()), line.len() - 1),
        lowered_char(line.last()).len() > 0,
    ensures
        traces(origins(line), line.len() as int),
{
    let head = origins(line.drop_last());
    let all = origins(line);
    assert forall|i: int| 0 <= i < line.len() implies #[trigger] all.contains(i) by {
        if i < line.len() - 1 {
            assert(head.contains(i));
            let p = choose|p: int| 0 <= p < head.len() && head[p] == i;
            assert(all[p] == i);
        } else {
            assert(all[head.len() as int] == i);
        }
    }
}

/// For each character of the lower-case form of a line, the place in the line of the character
/// that it comes from.
pub fn find_origins(line: &str) -> (r: Vec<usize>)
    ensures
        ints(r@) == origins(line@),
        traces(origins(line@), line@.len() as int),
        is_ascii_chars(line@) ==> origins(line@) == in_place(line@.len()),
{
    let chars: Vec<char> = to_chars(line);
    let mut out: Vec<usize> = Vec::new();
    let mut i: usize = 0;
    assert(ints(out@) =~= origins(chars@.take(0)));
    while i < chars.len()
        invariant
            i <= chars@.len(),
            ints(out@) == origins(chars@.take(i as int)),
            traces(origins(chars@.take(i as int)), i as int),
            is_ascii_chars(chars@) ==> origins(chars@.take(i as int)) == in_place(i as nat),
        decreases chars@.len() - i,
    {
        let low: Vec<char> = lower_char(chars[i]);
        let ghost head = origins(chars@.take(i as int));
        let mut j: usize = 0;
        assert(ints(out@) =~= head + Seq::new(0, |k: int| i as int));
        while j < low.len()
            invariant
                j <= low@.len(),
                ints(out@) == head + Seq::new(j as nat, |k: int| i as int),
            decreases low@.len() - j,
        {
            let ghost before = ints(out@);
            out.push(i);
            assert(ints(out@) =~= before.push(i as int));
            assert(ints(out@) =~= head + Seq::new((j + 1) as nat, |k: int| i as int));
            j = j + 1;
        }
        proof {
            let longer = chars@.take(i + 1);
            assert(longer.drop_last() =~= chars@.take(i as int));
            lemma_traces_step(longer);
            assert(ints(out@) =~= origins(longer));
            if is_ascii_chars(chars@) {
                assert(origins(longer) =~= in_place((i + 1) as nat));
            }
        }
        i = i + 1;
    }
    assert(chars@.take(i as int) =~= line@);
    out
}

/// Marks the matches of a query in a line: the characters of the line that the lower-case
/// characters come from among which the lower-case query stands.
pub fn highlight(
    line: &str,
    line_lower: &str,
    origin: &Vec<usize>,
    query_lower: &str,
    base: Style,
    mark: Style,
) -> (r: Vec<Span>)
    requires
        query_lower@.len() > 0,
        origin@.len() == line_lower@.len(),
    ensures
        span_views(r@) == runs(
            line@,
            marks(line_lower@, ints(origin@), query_lower@),
            0,
            base,
            mark,
        ),
{
    let starts: Vec<usize> = find_matches(line_lower, query_lower);
    let chars: Vec<char> = to_chars(line);
    let n: usize = to_chars(query_lower).len();
    let size: usize = chars.len();
    let count: usize = origin.len();
    let mut spans: Vec<Span> = Vec::new();
    let mut last: usize = 0;
    let mut k: usize = 0;
    let ghost places = found(line_lower@, query_lower@);
    let ghost all = marks(line_lower@, ints(origin@), query_lower@);
    let ghost whole = runs(line@, all, 0, base, mark);
    proof {
        lemma_match_starts(line_lower@, query_lower@, 0);
        assert(all.skip(0) =~= all);
        assert(span_views(spans@) + whole =~= whole);
    }
    while k < starts.len()
        invariant
            k <= starts@.len() == all.len(),
            chars@ == line@,
            n == query_lower@.len() > 0,
            count == origin@.len() == line_lower@.len(),
            ints(starts@) == places,
            forall|j: int|
                0 <= j < places.len() ==> occurs_at(
                    line_lower@,
                    query_lower@,
                    #[trigger] places[j],
                ),
            all == marks(line_lower@, ints(origin@), query_lower@),
            places == found(line_lower@, query_lower@),
            last <= size == chars@.len(),
            span_views(spans@) + runs(line@, all.skip(k as int), last as int, base, mark) == whole,
        decreases starts@.len() - k,
    {
        let m: usize = starts[k];
        let ghost rest = all.skip(k as int);
        proof {
            assert(ints(starts@)[k as int] == m);
            assert(occurs_at(line_lower@, query_lower@, places[k as int]));
            assert(rest[0] == all[k as int]);
            assert(rest.drop_first() =~= all.skip(k + 1));
        }
        let first: usize = origin[m];
        let end: usize = origin[m + (n - 1)];
        assert(ints(origin@)[m as int] == first && ints(origin@)[m + n - 1] == end);
        let from: usize = if first > last {
            first
        } else {
            last
        };
        let to: usize = if end < size {
            end + 1
        } else {
            size
        };
        let ghost before = span_views(spans@);
        let ghost was = last as int;
        assert(clipped(rest[0], was, size as int) == (from as int, to as int));
        if from < to {
            if from > last {
                push_span(&mut spans, substring(&chars, last, from), base);
            }
            push_span(&mut spans, substring(&chars, from, to), mark);
            last = to;
            assert(span_views(spans@) =~= before + marked_run(
                line@,
                was,
                from as int,
                to as int,
                base,
                mark,
            ));
        }
        k = k + 1;
        assert(span_views(spans@) + runs(line@, all.skip(k as int), last as int, base, mark)
            =~= before + runs(line@, rest, was, base, mark));
    }
    assert(all.skip(k as int) =~= seq![]);
    if last < size {
        push_span(&mut spans, substring(&chars, last, size), base);
    }
    assert(span_views(spans@) =~= whole);
    spans
}

/// The style of a line's number.
pub open spec fn number_style(selected: bool) -> Style {
    if selected {
        Style { fg: Some(Color::Yellow), bg: None, bold: true }
    } else {
        fg_style(Color::DarkGray)
    }
}

/// The style of a line's text.
pub open spec fn text_style(selected: bool) -> Style {
    if selected {
        Style { fg: Some(Color::White), bg: Some(Color::DarkGray), bold: true }
    } else {
        plain_style()
    }
}

/// The style of a match.
pub open spec fn match_style() -> Style {
    Style { fg: Some(Color::Black), bg: Some(Color::Yellow), bold: false }
}

/// The style beneath a line.
pub open spec fn under_style(selected: bool) -> Style {
    if selected {
        Style { fg: None, bg: Some(Color::DarkGray), bold: false }
    } else {
        plain_style()
    }
}

/// The number of a line: right-aligned in six columns, and a space.
pub open spec fn number_text(lineno: int) -> Seq<char> {
    right_aligned(decimal(lineno as nat), 6).push(' ')
}

/// The spans of a line's text.
pub open spec fn text_spans(
    line: Seq<char>,
    selected: bool,
    line_lower: Seq<char>,
    origin: Seq<int>,
    query_lower: Seq<char>,
    is_match: bool,
) -> Seq<(Seq<char>, Style)> {
    if is_match && query_lower.len() > 0 {
        runs(
            line,
            marks(line_lower, origin, query_lower),
            0,
            text_style(selected),
            match_style(),
        )
    } else {
        seq![(line, text_style(selected))]
    }
}

/// A line as it is shown: its number, then its text.
pub open spec fn shown_line(
    line: Seq<char>,
    lineno: int,
    selected: bool,
    line_lower: Seq<char>,
    origin: Seq<int>,
    query_lower: Seq<char>,
    is_match: bool,
) -> (Seq<(Seq<char>, Style)>, Style) {
    (
        seq![(number_text(lineno), number_style(selected))] + text_spans(
            line,
            selected,
            line_lower,
            origin,
            query_lower,
            is_match,
        ),
        under_style(selected),
    )
}

/// Whether a match is marked among some spans.
pub open spec fn has_mark(spans: Seq<(Seq<char>, Style)>) -> bool {
    exists|j: int| 0 <= j < spans.len() && (#[trigger] spans[j]).1 == match_style()
}

/// Whether a character of the line has a part in a match.
pub open spec fn in_match(
    line_lower: Seq<char>,
    origin: Seq<int>,
    query_lower: Seq<char>,
    i: int,
) -> bool {
    exists|k: int, p: int|
        0 <= k < found(line_lower, query_lower).len() && #[trigger] found(
            line_lower,
            query_lower,
        )[k] <= p < found(line_lower, query_lower)[k] + query_lower.len() && #[trigger] origin[p]
            == i
}

/// Whether the spans of a line, behind its number, mark exactly the characters that have a part in
/// a match.
pub open spec fn marked_where_found(
    spans: Seq<(Seq<char>, Style)>,
    line: Seq<char>,
    lineno: int,
    selected: bool,
    line_lower: Seq<char>,
    origin: Seq<int>,
    query_lower: Seq<char>,
) -> bool {
    forall|i: int|
        0 <= i < line.len() ==> style_at(spans, number_text(lineno).len() + i)
            == if #[trigger] in_match(line_lower, origin, query_lower, i) {
            match_style()
        } else {
            text_style(selected)
        }
}

/// Shows a line, given the lower-case form of the line, where in the line each of its characters
/// comes from, and the lower-case form of the query.
pub fn render_lowered(
    line: &str,
    lineno: usize,
    selected: bool,
    line_lower: &str,
    origin: &Vec<usize>,
    query_lower: &str,
    is_match: bool,
) -> (r: StyledLine)
    requires
        origin@.len() == line_lower@.len(),
    ensures
        r@ == shown_line(
            line@,
            lineno as int,
            selected,
            line_lower@,
            ints(origin@),
            query_lower@,
            is_match,
        ),
{
    let mut spans: Vec<Span> = Vec::new();
    let mut number: String = align_right(&to_decimal(lineno), 6);
    number.push(' ');
    let number_look: Style = if selected {
        Style { fg: Some(Color::Yellow), bg: None, bold: true }
    } else {
        fg(Color::DarkGray)
    };
    let look: Style = if selected {
        Style { fg: Some(Color::White), bg: Some(Color::DarkGray), bold: true }
    } else {
        plain()
    };
    push_span(&mut spans, number, number_look);
    let ghost head = span_views(spans@);
    assert(head =~= seq![(number_text(lineno as int), number_style(selected))]);
    if is_match && !query_lower.is_empty() {
        let mark: Style = Style { fg: Some(Color::Black), bg: Some(Color::Yellow), bold: false };
        let mut body: Vec<Span> = highlight(line, line_lower, origin, query_lower, look, mark);
        let ghost tail = span_views(body@);
        spans.append(&mut body);
        assert(span_views(spans@) =~= head + tail);
    } else {
        push_span(&mut spans, line.to_owned(), look);
        assert(span_views(spans@) =~= head + seq![(line@, look)]);
    }
    let style: Style = if selected {
        Style { fg: None, bg: Some(Color::DarkGray), bold: false }
    } else {
        plain()
    };
    StyledLine { spans, style }
}

/// Shows a line, with the matches of a search marked where it is one of the lines found.
pub fn render_log_line(
    line: &str,
    lineno: usize,
    is_selected: bool,
    search_query: &str,
    is_search_match: bool,
) -> (r: StyledLine)
    ensures
        r@ == shown_line(
            line@,
            lineno as int,
            is_selected,
            lowercase(line@),
            origins(line@),
            lowercase(search_query@),
            is_search_match,
        ),
        traced(line@),
        is_search_match && search_query@.len() > 0 ==> marked_where_found(
            r@.0,
            line@,
            lineno as int,
            is_selected,
            lowercase(line@),
            origins(line@),
            lowercase(search_query@),
        ),
        is_search_match && search_query@.len() > 0 && has(
            lowercase(line@),
            lowercase(search_query@),
        ) ==> has_mark(r@.0),
        is_ascii_chars(line@) && is_ascii_chars(search_query@) ==> r@ == shown_line(
            line@,
            lineno as int,
            is_selected,
            ascii_lowered(line@),
            in_place(line@.len()),
            ascii_lowered(search_query@),
            is_search_match,
        ),
{
    let line_lower: String = to_lowercase(line);
    let query_lower: String = to_lowercase(search_query);
    let origin: Vec<usize> = find_origins(line);
    proof {
        lemma_origins_len(line@);
        assert(ints(origin@).len() == origin@.len());
        if search_query@.len() > 0 {
            law_marked_where_found(
                line@,
                lineno as int,
                is_selected,
                line_lower@,
                ints(origin@),
                query_lower@,
            );
        }
        if is_search_match && search_query@.len() > 0 && has(line_lower@, query_lower@) {
            let body = text_spans(
                line@,
                is_selected,
                line_lower@,
                ints(origin@),
                query_lower@,
                true,
            );
            law_match_is_marked(line@, is_selected, line_lower@, ints(origin@), query_lower@);
            let j = choose|j: int| 0 <= j < body.len() && (#[trigger] body[j]).1 == match_style();
            let shown = shown_line(
                line@,
                lineno as int,
                is_selected,
                line_lower@,
                ints(origin@),
                query_lower@,
                true,
            ).0;
            assert(shown[j + 1] == body[j]);
        }
    }
    render_lowered(line, lineno, is_selected, &line_lower, &origin, &query_lower, is_search_match)
}

/// From a character on, the runs show the characters that are there.
proof fn lemma_runs_text(
    line: Seq<char>,
    stretches: Seq<(int, int)>,
    last: int,
    base: Style,
    mark: Style,
)
    requires
        0 <= last <= line.len(),
    ensures
        shown_text(runs(line, stretches, last, base, mark)) == line.skip(last),
    decreases stretches.len(),
{
    let size = line.len() as int;
    let all = runs(line, stretches, last, base, mark);
    if stretches.len() == 0 {
        if last < size {
            lemma_shown_text_one(line.subrange(last, size), base);
        }
        assert(shown_text(all) =~= line.skip(last));
    } else {
        let (from, to) = clipped(stretches[0], last, size);
        let rest = stretches.drop_first();
        if from < to {
            let run = marked_run(line, last, from, to, base, mark);
            lemma_runs_text(line, rest, to, base, mark);
            lemma_marked_run(line, last, from, to, base, mark, last);
            lemma_shown_text_concat(run, runs(line, rest, to, base, mark));
            assert(shown_text(all) =~= line.skip(last));
        } else {
            lemma_runs_text(line, rest, last, base, mark);
        }
    }
}

proof fn lemma_marked_run(
    line: Seq<char>,
    last: int,
    from: int,
    to: int,
    base: Style,
    mark: Style,
    i: int,
)
    requires
        0 <= last <= from < to <= line.len(),
        last <= i < to,
    ensures
        shown_text(marked_run(line, last, from, to, base, mark)) == line.subrange(last, to),
        style_at(marked_run(line, last, from, to, base, mark), i - last) == if i < from {
            base
        } else {
            mark
        },
{
    reveal_with_fuel(style_at, 2);
    let run = marked_run(line, last, from, to, base, mark);
    let gap = run.drop_last();
    if from > last {
        assert(gap =~= seq![(line.subrange(last, from), base)]);
        lemma_shown_text_one(line.subrange(last, from), base);
        assert(gap.drop_last() =~= seq![]);
        assert(shown_text(gap.drop_last()) =~= seq![]);
    } else {
        assert(gap =~= seq![]);
        assert(shown_text(gap) =~= seq![]);
    }
    assert(shown_text(gap) =~= line.subrange(last, from));
    assert(shown_text(run) =~= line.subrange(last, to));
}

/// Showing a line changes nothing of its text: the spans hold the number, then the line.
pub proof fn law_showing_keeps_text(
    line: Seq<char>,
    lineno: int,
    selected: bool,
    line_lower: Seq<char>,
    origin: Seq<int>,
    query_lower: Seq<char>,
    is_match: bool,
)
    ensures
        shown_text(
            shown_line(line, lineno, selected, line_lower, origin, query_lower, is_match).0,
        ) == number_text(lineno) + line,
{
    let head = seq![(number_text(lineno), number_style(selected))];
    let body = text_spans(line, selected, line_lower, origin, query_lower, is_match);
    lemma_shown_text_one(number_text(lineno), number_style(selected));
    lemma_shown_text_concat(head, body);
    if is_match && query_lower.len() > 0 {
        let stretches = marks(line_lower, origin, query_lower);
        lemma_runs_text(line, stretches, 0, text_style(selected), match_style());
        assert(line.skip(0) =~= line);
    } else {
        lemma_shown_text_one(line, text_style(selected));
    }
}

/// A line that holds the query has a match marked in it.
pub proof fn law_match_is_marked(
    line: Seq<char>,
    selected: bool,
    line_lower: Seq<char>,
    origin: Seq<int>,
    query_lower: Seq<char>,
)
    requires
        origin.len() == line_lower.len(),
        traces(origin, line.len() as int),
        query_lower.len() > 0,
        has(line_lower, query_lower),
    ensures
        has_mark(text_spans(line, selected, line_lower, origin, query_lower, true)),
{
    let at = choose|i: int| occurs_at(line_lower, query_lower, i);
    lemma_next_occurrence(line_lower, query_lower, 0);
    assert(occurs_at(line_lower, query_lower, at));
    let places = found(line_lower, query_lower);
    assert(places.len() > 0);
    lemma_match_starts(line_lower, query_lower, 0);
    let m = places[0];
    let e = m + query_lower.len() - 1;
    let stretches = marks(line_lower, origin, query_lower);
    assert(stretches[0] == (origin[m], origin[e] + 1));
    let spans = text_spans(line, selected, line_lower, origin, query_lower, true);
    if origin[m] > 0 {
        assert(spans[1].1 == match_style());
    } else {
        assert(spans[0].1 == match_style());
    }
}

/// Whether a character lies in one of some stretches.
pub open spec fn in_stretch(stretches: Seq<(int, int)>, i: int) -> bool {
    exists|k: int|
        0 <= k < stretches.len() && (#[trigger] stretches[k]).0 <= i && i < stretches[k].1
}

/// What lies in a stretch is shown in the one style, everything else in the other.
proof fn lemma_runs_styles(
    line: Seq<char>,
    stretches: Seq<(int, int)>,
    last: int,
    base: Style,
    mark: Style,
    i: int,
)
    requires
        0 <= last <= i < line.len(),
        forall|j: int, k: int|
            0 <= j <= k < stretches.len() ==> (#[trigger] stretches[j]).0 <= (
            #[trigger] stretches[k]).0,
    ensures
        style_at(runs(line, stretches, last, base, mark), i - last) == if in_stretch(
            stretches,
            i,
        ) {
            mark
        } else {
            base
        },
    decreases stretches.len(),
{
    let size = line.len() as int;
    if stretches.len() == 0 {
        let one = seq![(line.subrange(last, size), base)];
        assert(one.drop_last() =~= seq![]);
        assert(shown_text(one.drop_last()) =~= seq![]);
    } else {
        let (from, to) = clipped(stretches[0], last, size);
        let rest = stretches.drop_first();
        assert forall|j: int, k: int| 0 <= j <= k < rest.len() implies (#[trigger] rest[j]).0 <= (
        #[trigger] rest[k]).0 by {
            assert(rest[j] == stretches[j + 1] && rest[k] == stretches[k + 1]);
        }
        assert(in_stretch(stretches, i) == ((stretches[0].0 <= i && i < stretches[0].1)
            || in_stretch(rest, i))) by {
            if in_stretch(rest, i) {
                let k = choose|k: int|
                    0 <= k < rest.len() && (#[trigger] rest[k]).0 <= i && i < rest[k].1;
                assert(stretches[k + 1] == rest[k]);
            }
            if in_stretch(stretches, i) {
                let k = choose|k: int|
                    0 <= k < stretches.len() && (#[trigger] stretches[k]).0 <= i && i
                        < stretches[k].1;
                if k > 0 {
                    assert(rest[k - 1] == stretches[k]);
                }
            }
        }
        if from < to {
            let run = marked_run(line, last, from, to, base, mark);
            lemma_runs_text(line, stretches, last, base, mark);
            lemma_style_at_concat(run, runs(line, rest, to, base, mark), i - last);
            if i >= to {
                lemma_marked_run(line, last, from, to, base, mark, last);
                lemma_runs_styles(line, rest, to, base, mark, i);
            } else {
                lemma_marked_run(line, last, from, to, base, mark, i);
                if i < from && in_stretch(rest, i) {
                    let k = choose|k: int|
                        0 <= k < rest.len() && (#[trigger] rest[k]).0 <= i && i < rest[k].1;
                    assert(stretches[0].0 <= stretches[k + 1].0);
                }
            }
        } else {
            lemma_runs_styles(line, rest, last, base, mark, i);
        }
    }
}

/// A stretch takes up the characters that the lower-case characters of its match come from.
proof fn lemma_stretch(origin: Seq<int>, len: int, m: int, n: int, i: int)
    requires
        traces(origin, len),
        0 <= m,
        0 < n,
        m + n <= origin.len(),
        0 <= i < len,
    ensures
        (origin[m] <= i && i < origin[m + n - 1] + 1) <==> exists|p: int|
            m <= p < m + n && #[trigger] origin[p] == i,
{
    if origin[m] <= i && i < origin[m + n - 1] + 1 {
        assert(origin.contains(i));
        let p = choose|p: int| 0 <= p < origin.len() && origin[p] == i;
        if p < m {
            assert(origin[m] == i);
        } else if p >= m + n {
            assert(origin[m + n - 1] == i);
        } else {
            assert(origin[p] == i);
        }
    }
}

proof fn lemma_marked_where_found(
    line: Seq<char>,
    selected: bool,
    line_lower: Seq<char>,
    origin: Seq<int>,
    query_lower: Seq<char>,
    i: int,
)
    requires
        origin.len() == line_lower.len(),
        traces(origin, line.len() as int),
        query_lower.len() > 0,
        0 <= i < line.len(),
    ensures
        style_at(text_spans(line, selected, line_lower, origin, query_lower, true), i)
            == if in_match(line_lower, origin, query_lower, i) {
            match_style()
        } else {
            text_style(selected)
        },
{
    let places = found(line_lower, query_lower);
    let stretches = marks(line_lower, origin, query_lower);
    let n = query_lower.len() as int;
    lemma_match_starts(line_lower, query_lower, 0);
    assert forall|j: int, k: int| 0 <= j <= k < stretches.len() implies (
    #[trigger] stretches[j]).0 <= (#[trigger] stretches[k]).0 by {
        assert(places[j] <= places[k]);
        assert(occurs_at(line_lower, query_lower, places[k]));
    }
    lemma_runs_styles(line, stretches, 0, text_style(selected), match_style(), i);
    if in_stretch(stretches, i) {
        let k = choose|k: int|
            0 <= k < stretches.len() && (#[trigger] stretches[k]).0 <= i && i < stretches[k].1;
        assert(occurs_at(line_lower, query_lower, places[k]));
        lemma_stretch(origin, line.len() as int, places[k], n, i);
        let p = choose|p: int| places[k] <= p < places[k] + n && #[trigger] origin[p] == i;
        assert(places[k] <= p < places[k] + n && origin[p] == i);
        assert(in_match(line_lower, origin, query_lower, i));
    }
    if in_match(line_lower, origin, query_lower, i) {
        let (k, p) = choose|k: int, p: int|
            0 <= k < places.len() && #[trigger] places[k] <= p < places[k] + n
                && #[trigger] origin[p] == i;
        assert(occurs_at(line_lower, query_lower, places[k]));
        assert(origin[p] == i);
        lemma_stretch(origin, line.len() as int, places[k], n, i);
        assert(stretches[k].0 <= i && i < stretches[k].1);
    }
}

/// In a line that was found, exactly those characters are marked that have a part in a match: that
/// a lower-case character comes from which is one of a place where the lower-case query stands.
pub proof fn law_marked_where_found(
    line: Seq<char>,
    lineno: int,
    selected: bool,
    line_lower: Seq<char>,
    origin: Seq<int>,
    query_lower: Seq<char>,
)
    requires
        origin.len() == line_lower.len(),
        traces(origin, line.len() as int),
        query_lower.len() > 0,
    ensures
        marked_where_found(
            shown_line(line, lineno, selected, line_lower, origin, query_lower, true).0,
            line,
            lineno,
            selected,
            line_lower,
            origin,
            query_lower,
        ),
{
    let head = seq![(number_text(lineno), number_style(selected))];
    let body = text_spans(line, selected, line_lower, origin, query_lower, true);
    lemma_shown_text_one(number_text(lineno), number_style(selected));
    law_showing_keeps_text(line, lineno, selected, line_lower, origin, query_lower, true);
    assert forall|i: int| 0 <= i < line.len() implies style_at(
        head + body,
        number_text(lineno).len() + i,
    ) == if #[trigger] in_match(line_lower, origin, query_lower, i) {
        match_style()
    } else {
        text_style(selected)
    } by {
        lemma_style_at_concat(head, body, number_text(lineno).len() + i);
        lemma_marked_where_found(line, selected, line_lower, origin, query_lower, i);
    }
}

/// What a match takes up reads as the query, but for the case of letters: among the lower-case
/// characters that come from it stands the lower-case query, from one that comes from its first
/// character to one that comes from its last. Where each character has a lower-case form of one
/// character, that form of the stretch is the query.
pub proof fn law_marks_read_as_query(
    line_lower: Seq<char>,
    origin: Seq<int>,
    query_lower: Seq<char>,
    len: int,
    k: int,
)
    requires
        origin.len() == line_lower.len(),
        traces(origin, len),
        query_lower.len() > 0,
        0 <= k < found(line_lower, query_lower).len(),
    ensures
        ({
            let m = found(line_lower, query_lower)[k];
            let e = m + query_lower.len();
            let (a, b) = marks(line_lower, origin, query_lower)[k];
            &&& 0 <= a < b <= len
            &&& 0 <= m < e <= line_lower.len()
            &&& line_lower.subrange(m, e) == query_lower
            &&& origin[m] == a && origin[e - 1] == b - 1
            &&& forall|p: int| m <= p < e ==> a <= #[trigger] origin[p] < b
            &&& origin == in_place(len as nat) ==> line_lower.subrange(a, b) == query_lower
        }),
{
    lemma_match_starts(line_lower, query_lower, 0);
    assert(occurs_at(line_lower, query_lower, found(line_lower, query_lower)[k]));
}

/// In a line of ASCII characters what a match takes up is the query, but for the case of letters.
pub proof fn law_ascii_marks_read_as_query(line: Seq<char>, query_lower: Seq<char>, k: int)
    requires
        is_ascii_chars(line),
        query_lower.len() > 0,
        0 <= k < found(ascii_lowered(line), query_lower).len(),
    ensures
        ({
            let (a, b) = marks(ascii_lowered(line), in_place(line.len()), query_lower)[k];
            0 <= a < b <= line.len() && ascii_lowered(line.subrange(a, b)) == query_lower
        }),
{
    let low = ascii_lowered(line);
    let origin = in_place(line.len());
    assert forall|i: int| 0 <= i < line.len() implies #[trigger] origin.contains(i) by {
        assert(origin[i] == i);
    }
    law_marks_read_as_query(low, origin, query_lower, line.len() as int, k);
    let (a, b) = marks(low, origin, query_lower)[k];
    assert(ascii_lowered(line.subrange(a, b)) =~= low.subrange(a, b));
}

} // verus!
