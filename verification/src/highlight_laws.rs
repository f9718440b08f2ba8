//! What is marked in a line that is shown, said of the line and the query themselves.

use vstd::prelude::*;

use crate::bridge::{lowered_char, lowered_width};
use crate::highlight::{
    found, in_match, law_marked_where_found, lemma_match_starts, lemma_origins_len, match_starts,
    number_style, number_text, origins, shown_line, text_spans, text_style, traces,
};
use crate::style::{
    lemma_shown_text_concat, lemma_shown_text_one, lemma_style_at_concat, shown_text, style_at,
    Color, Style,
};
use crate::text::{decimal, lemma_next_occurrence, next_occurrence, occurs_at};

verus! {

/// Whether `needle` stands in `hay` at `m`.
pub open spec fn stands(hay: Seq<char>, needle: Seq<char>, m: int) -> bool {
    &&& 0 <= m
    &&& m + needle.len() <= hay.len()
    &&& forall|j: int| 0 <= j < needle.len() ==> hay[m + j] == #[trigger] needle[j]
}

/// Black on yellow.
pub open spec fn black_on_yellow() -> Style {
    Style { fg: Some(Color::Black), bg: Some(Color::Yellow), bold: false }
}

/// How a line's text looks where nothing is marked: bold white on grey where the line is selected,
/// and else as the terminal has it.
pub open spec fn unmarked(selected: bool) -> Style {
    if selected {
        Style { fg: Some(Color::White), bg: Some(Color::DarkGray), bold: true }
    } else {
        Style { fg: None, bg: None, bold: false }
    }
}

pub proof fn lemma_stands(hay: Seq<char>, needle: Seq<char>, m: int)
    ensures
        stands(hay, needle, m) == occurs_at(hay, needle, m),
{
    if 0 <= m && m + needle.len() <= hay.len() {
        let sub = hay.subrange(m, m + needle.len());
        if occurs_at(hay, needle, m) {
            assert forall|j: int| 0 <= j < needle.len() implies hay[m + j]
                == #[trigger] needle[j] by {
                assert(sub[j] == hay[m + j]);
            }
        }
        if stands(hay, needle, m) {
            assert(sub =~= needle);
        }
    }
}

proof fn lemma_starts_cover(hay: Seq<char>, needle: Seq<char>, from: int, m: int) -> (k: int)
    requires
        0 <= from <= m,
        needle.len() > 0,
        occurs_at(hay, needle, m),
    ensures
        0 <= k < match_starts(hay, needle, from).len(),
        match_starts(hay, needle, from)[k] <= m < match_starts(hay, needle, from)[k]
            + needle.len(),
    decreases hay.len() - from,
{
    lemma_next_occurrence(hay, needle, from);
    let i = next_occurrence(hay, needle, from)->0;
    if m < i + needle.len() {
        0
    } else {
        let k = lemma_starts_cover(hay, needle, i + needle.len(), m);
        k + 1
    }
}

/// The matches of a query in a line are the leftmost ones without overlap, all of them: the query
/// stands at each, each lies behind the one before it, and wherever the query stands, it begins in
/// one of them.
pub proof fn law_matches_are_all(line_lower: Seq<char>, query_lower: Seq<char>)
    requires
        query_lower.len() > 0,
    ensures
        forall|k: int|
            0 <= k < found(line_lower, query_lower).len() ==> stands(
                line_lower,
                query_lower,
                #[trigger] found(line_lower, query_lower)[k],
            ),
        forall|j: int, k: int|
            0 <= j < k < found(line_lower, query_lower).len() ==> #[trigger] found(
                line_lower,
                query_lower,
            )[j] + query_lower.len() <= #[trigger] found(line_lower, query_lower)[k],
        forall|m: int| #[trigger]
            stands(line_lower, query_lower, m) ==> exists|k: int|
                0 <= k < found(line_lower, query_lower).len() && #[trigger] found(
                    line_lower,
                    query_lower,
                )[k] <= m < found(line_lower, query_lower)[k] + query_lower.len(),
{
    lemma_match_starts(line_lower, query_lower, 0);
    let all = found(line_lower, query_lower);
    assert forall|k: int| 0 <= k < all.len() implies stands(
        line_lower,
        query_lower,
        #[trigger] all[k],
    ) by {
        lemma_stands(line_lower, query_lower, all[k]);
    }
    assert forall|m: int| #[trigger] stands(line_lower, query_lower, m) implies exists|k: int|
        0 <= k < all.len() && #[trigger] all[k] <= m < all[k] + query_lower.len() by {
        lemma_stands(line_lower, query_lower, m);
        let k = lemma_starts_cover(line_lower, query_lower, 0, m);
        assert(all[k] <= m < all[k] + query_lower.len());
    }
}

/// In a line that was found, wherever the lower-case query stands in the lower-case line, the
/// character that it begins in is marked, black on yellow: no occurrence is passed over.
#[verifier::rlimit(40)]
pub proof fn law_every_occurrence_is_marked(
    line: Seq<char>,
    lineno: int,
    selected: bool,
    line_lower: Seq<char>,
    origin: Seq<int>,
    query_lower: Seq<char>,
    m: int,
)
    requires
        origin.len() == line_lower.len(),
        traces(origin, line.len() as int),
        query_lower.len() > 0,
        stands(line_lower, query_lower, m),
    ensures
        0 <= origin[m] < line.len(),
        style_at(
            shown_line(line, lineno, selected, line_lower, origin, query_lower, true).0,
            number_text(lineno).len() + origin[m],
        ) == black_on_yellow(),
{
    law_matches_are_all(line_lower, query_lower);
    law_marked_where_found(line, lineno, selected, line_lower, origin, query_lower);
    let all = found(line_lower, query_lower);
    let k = choose|k: int|
        0 <= k < all.len() && #[trigger] all[k] <= m < all[k] + query_lower.len();
    assert(all[k] <= m < all[k] + query_lower.len() && origin[m] == origin[m]);
    assert(in_match(line_lower, origin, query_lower, origin[m]));
}

/// In a line that was found, every character that has a part in one of the matches is marked, black
/// on yellow: each match is marked from its beginning to its end.
pub proof fn law_whole_matches_are_marked(
    line: Seq<char>,
    lineno: int,
    selected: bool,
    line_lower: Seq<char>,
    origin: Seq<int>,
    query_lower: Seq<char>,
    k: int,
    p: int,
)
    requires
        origin.len() == line_lower.len(),
        traces(origin, line.len() as int),
        query_lower.len() > 0,
        0 <= k < found(line_lower, query_lower).len(),
        found(line_lower, query_lower)[k] <= p < found(line_lower, query_lower)[k]
            + query_lower.len(),
    ensures
        0 <= origin[p] < line.len(),
        style_at(
            shown_line(line, lineno, selected, line_lower, origin, query_lower, true).0,
            number_text(lineno).len() + origin[p],
        ) == black_on_yellow(),
{
    law_matches_are_all(line_lower, query_lower);
    law_marked_where_found(line, lineno, selected, line_lower, origin, query_lower);
    let all = found(line_lower, query_lower);
    assert(stands(line_lower, query_lower, all[k]));
    assert(all[k] <= p < all[k] + query_lower.len() && origin[p] == origin[p]);
    assert(in_match(line_lower, origin, query_lower, origin[p]));
}

/// In a line that was found, what is marked has a part in one of the matches, and everything else
/// looks as it does where nothing is marked.
pub proof fn law_marks_are_occurrences(
    line: Seq<char>,
    lineno: int,
    selected: bool,
    line_lower: Seq<char>,
    origin: Seq<int>,
    query_lower: Seq<char>,
    i: int,
)
    requires
        origin.len() == line_lower.len(),
        traces(origin, line.len() as int),
        query_lower.len() > 0,
        0 <= i < line.len(),
    ensures
        ({
            let look = style_at(
                shown_line(line, lineno, selected, line_lower, origin, query_lower, true).0,
                number_text(lineno).len() + i,
            );
            let all = found(line_lower, query_lower);
            ||| look == unmarked(selected)
            ||| look == black_on_yellow() && exists|k: int, p: int|
                0 <= k < all.len() && stands(line_lower, query_lower, #[trigger] all[k]) && all[k]
                    <= p < all[k] + query_lower.len() && #[trigger] origin[p] == i
        }),
{
    law_matches_are_all(line_lower, query_lower);
    law_marked_where_found(line, lineno, selected, line_lower, origin, query_lower);
    if in_match(line_lower, origin, query_lower, i) {
        let all = found(line_lower, query_lower);
        let (k, p) = choose|k: int, p: int|
            0 <= k < all.len() && #[trigger] all[k] <= p < all[k] + query_lower.len()
                && #[trigger] origin[p] == i;
        assert(stands(line_lower, query_lower, all[k]) && origin[p] == i);
    }
}

/// A line that was not found, or that is shown without a query, has nothing marked in it.
pub proof fn law_other_lines_are_unmarked(
    line: Seq<char>,
    lineno: int,
    selected: bool,
    line_lower: Seq<char>,
    origin: Seq<int>,
    query_lower: Seq<char>,
    is_match: bool,
    i: int,
)
    requires
        !is_match || query_lower.len() == 0,
        0 <= i < line.len(),
    ensures
        style_at(
            shown_line(line, lineno, selected, line_lower, origin, query_lower, is_match).0,
            number_text(lineno).len() + i,
        ) == unmarked(selected),
{
    let head = seq![(number_text(lineno), number_style(selected))];
    let body = text_spans(line, selected, line_lower, origin, query_lower, is_match);
    let n = number_text(lineno).len() as int;
    lemma_shown_text_one(number_text(lineno), number_style(selected));
    lemma_shown_text_one(line, text_style(selected));
    lemma_shown_text_concat(head, body);
    lemma_style_at_concat(head, body, n + i);
    assert(body =~= seq![(line, text_style(selected))]);
    assert(body.drop_last() =~= seq![]);
    assert(shown_text(body.drop_last()) =~= seq![]);
}

/// The number of a line is bold yellow where the line is selected, and else grey; and beneath a
/// selected line, and no other, the screen is grey.
pub proof fn law_number_stands_out(
    line: Seq<char>,
    lineno: int,
    selected: bool,
    line_lower: Seq<char>,
    origin: Seq<int>,
    query_lower: Seq<char>,
    is_match: bool,
    i: int,
)
    requires
        0 <= i < number_text(lineno).len(),
    ensures
        ({
            let shown = shown_line(
                line,
                lineno,
                selected,
                line_lower,
                origin,
                query_lower,
                is_match,
            );
            &&& style_at(shown.0, i) == if selected {
                Style { fg: Some(Color::Yellow), bg: None, bold: true }
            } else {
                Style { fg: Some(Color::DarkGray), bg: None, bold: false }
            }
            &&& shown.1 == if selected {
                Style { fg: None, bg: Some(Color::DarkGray), bold: false }
            } else {
                Style { fg: None, bg: None, bold: false }
            }
        }),
{
    let head = seq![(number_text(lineno), number_style(selected))];
    let body = text_spans(line, selected, line_lower, origin, query_lower, is_match);
    lemma_shown_text_one(number_text(lineno), number_style(selected));
    lemma_shown_text_concat(head, body);
    lemma_style_at_concat(head, body, i);
    assert(head.drop_last() =~= seq![]);
    assert(shown_text(head.drop_last()) =~= seq![]);
}

/// The places of the lower-case form of a line go to its characters in order, to each as many as
/// its own lower-case form has characters.
pub proof fn law_origins_follow_the_characters(line: Seq<char>, i: int, p: int)
    requires
        0 <= i < line.len(),
        0 <= p < origins(line).len(),
    ensures
        lowered_width(line.take(i + 1)) == lowered_width(line.take(i)) + lowered_char(
            line[i],
        ).len(),
        origins(line)[p] == i <==> lowered_width(line.take(i)) <= p < lowered_width(
            line.take(i + 1),
        ),
    decreases line.len(),
{
    let head = line.drop_last();
    lemma_origins_len(line);
    lemma_origins_len(head);
    assert(line.take(i + 1).drop_last() =~= line.take(i));
    assert(line.take(i + 1).last() == line[i]);
    lemma_width_grows(line, i, line.len() - 1);
    lemma_width_grows(line, i + 1, line.len() as int);
    assert(line.take(line.len() as int) =~= line);
    assert(line.take(line.len() - 1) =~= head);
    if i < line.len() - 1 {
        lemma_width_grows(line, i + 1, line.len() - 1);
        assert(head.take(i) =~= line.take(i));
        assert(head.take(i + 1) =~= line.take(i + 1));
        if p < origins(head).len() {
            law_origins_follow_the_characters(head, i, p);
            assert(origins(line)[p] == origins(head)[p]);
        }
    } else {
        if p < origins(head).len() {
            assert(origins(line)[p] == origins(head)[p]);
            lemma_origin_below(head, p);
        }
    }
}

proof fn lemma_origin_below(line: Seq<char>, p: int)
    requires
        0 <= p < origins(line).len(),
    ensures
        0 <= origins(line)[p] < line.len(),
    decreases line.len(),
{
    if line.len() > 0 {
        let head = line.drop_last();
        if p < origins(head).len() {
            lemma_origin_below(head, p);
            assert(origins(line)[p] == origins(head)[p]);
        }
    }
}

proof fn lemma_width_grows(line: Seq<char>, i: int, j: int)
    requires
        0 <= i <= j <= line.len(),
    ensures
        lowered_width(line.take(i)) <= lowered_width(line.take(j)),
    decreases j - i,
{
    if i < j {
        lemma_width_grows(line, i, j - 1);
        assert(line.take(j).drop_last() =~= line.take(j - 1));
    }
}

/// The number that some digits read as.
pub open spec fn reading(digits: Seq<char>) -> int
    decreases digits.len(),
{
    if digits.len() == 0 {
        0
    } else {
        10 * reading(digits.drop_last()) + (digits.last() as int - '0' as int)
    }
}

/// A number in decimal notation is made of digits, reads as the number, and has no zero in front.
pub proof fn law_decimal_reads_as_the_number(n: nat)
    ensures
        decimal(n).len() > 0,
        forall|k: int| 0 <= k < decimal(n).len() ==> '0' <= #[trigger] decimal(n)[k] <= '9',
        reading(decimal(n)) == n,
        n > 0 ==> decimal(n)[0] != '0',
        decimal(n)[0] == '0' ==> decimal(n).len() == 1,
    decreases n,
{
    if n < 10 {
        assert(decimal(n).drop_last() =~= seq![]);
        assert(reading(decimal(n).drop_last()) == 0);
    } else {
        law_decimal_reads_as_the_number(n / 10);
        let head = decimal(n / 10);
        assert(decimal(n).drop_last() =~= head);
        assert(decimal(n)[0] == head[0]);
        assert(n == 10 * (n / 10) + n % 10);
    }
}

/// The number of a line stands at the right of six columns, or takes more where it has more digits,
/// and a space stands behind it.
pub proof fn law_number_is_right_aligned(lineno: nat)
    ensures
        ({
            let t = number_text(lineno as int);
            let d = decimal(lineno);
            let start = t.len() - 1 - d.len();
            &&& d.len() <= 6 ==> t.len() == 7
            &&& d.len() > 6 ==> t.len() == d.len() + 1
            &&& t[t.len() - 1] == ' '
            &&& t.subrange(start, t.len() - 1) == d
            &&& forall|k: int| 0 <= k < start ==> #[trigger] t[k] == ' '
        }),
{
    let t = number_text(lineno as int);
    let d = decimal(lineno);
    assert(t.subrange(t.len() - 1 - d.len(), t.len() - 1) =~= d);
}

} // verus!
