//! What holds of the operations on text, said of the characters themselves.

use vstd::prelude::*;

use crate::highlight_laws::{lemma_stands, stands};
use crate::json::looks_like;
use crate::text::{
    has, lemma_line_end_bounds, lemma_next_occurrence, line_at, line_end, lines_from, lines_of,
    next_occurrence, occurs_at, right_aligned, spaces, trim_end, trim_start, trimmed,
};

verus! {

/// The characters that Unicode calls white space.
pub open spec fn white(c: char) -> bool {
    ||| c == '\t' || c == '\n' || c == '\x0B' || c == '\x0C' || c == '\r' || c == ' '
    ||| c == '\u{85}' || c == '\u{A0}' || c == '\u{1680}'
    ||| '\u{2000}' <= c <= '\u{200A}'
    ||| c == '\u{2028}' || c == '\u{2029}' || c == '\u{202F}' || c == '\u{205F}'
    ||| c == '\u{3000}'
}

/// How many line feeds a text has.
pub open spec fn line_feeds(s: Seq<char>) -> nat
    decreases s.len(),
{
    if s.len() == 0 {
        0
    } else if s.last() == '\n' {
        line_feeds(s.drop_last()) + 1
    } else {
        line_feeds(s.drop_last())
    }
}

/// Whether a line of the text lies from `q` up to `p`: it begins at the beginning or behind a line
/// feed, holds none, and ends before one or at the end of the text; and it is not what is left
/// behind the last line feed of a text that ends with one.
pub open spec fn line_lies(s: Seq<char>, q: int, p: int) -> bool {
    &&& 0 <= q <= p <= s.len()
    &&& q == 0 || s[q - 1] == '\n'
    &&& forall|k: int| q <= k < p ==> #[trigger] s[k] != '\n'
    &&& p == s.len() || s[p] == '\n'
    &&& p < s.len() || q < p
}

proof fn lemma_line_feeds_step(s: Seq<char>, i: int)
    requires
        0 <= i < s.len(),
    ensures
        line_feeds(s.take(i + 1)) == line_feeds(s.take(i)) + if s[i] == '\n' {
            1nat
        } else {
            0nat
        },
{
    assert(s.take(i + 1).drop_last() =~= s.take(i));
}

proof fn lemma_line_feeds_same(s: Seq<char>, q: int, p: int)
    requires
        0 <= q <= p <= s.len(),
        forall|k: int| q <= k < p ==> #[trigger] s[k] != '\n',
    ensures
        line_feeds(s.take(p)) == line_feeds(s.take(q)),
    decreases p - q,
{
    if q < p {
        lemma_line_feeds_same(s, q, p - 1);
        lemma_line_feeds_step(s, p - 1);
        assert(s[p - 1] != '\n');
    }
}

proof fn lemma_line_feeds_grow(s: Seq<char>, q: int, p: int)
    requires
        0 <= q <= p <= s.len(),
    ensures
        line_feeds(s.take(q)) <= line_feeds(s.take(p)),
    decreases p - q,
{
    if q < p {
        lemma_line_feeds_grow(s, q, p - 1);
        lemma_line_feeds_step(s, p - 1);
    }
}

/// The lines from one place on, counted by the line feeds before them.
proof fn lemma_line_from(s: Seq<char>, from: int, q: int, p: int)
    requires
        0 <= from <= q,
        line_lies(s, q, p),
    ensures
        line_feeds(s.take(from)) <= line_feeds(s.take(q)),
        line_feeds(s.take(q)) - line_feeds(s.take(from)) < lines_from(s, from).len(),
        lines_from(s, from)[line_feeds(s.take(q)) - line_feeds(s.take(from))] == line_at(s, q),
    decreases s.len() - from,
{
    lemma_line_feeds_grow(s, from, q);
    lemma_line_end_bounds(s, from);
    let end = line_end(s, from);
    if from < q {
        if end >= q {
            assert(s[q - 1] != '\n');
        }
        lemma_line_feeds_same(s, from, end);
        lemma_line_feeds_step(s, end);
        lemma_line_from(s, end + 1, q, p);
        let d = line_feeds(s.take(q)) - line_feeds(s.take(from));
        assert(lines_from(s, from)[d] == lines_from(s, end + 1)[d - 1]);
    }
}

proof fn lemma_line_count(s: Seq<char>, from: int)
    requires
        0 <= from <= s.len(),
    ensures
        lines_from(s, from).len() == line_feeds(s) - line_feeds(s.take(from)) + if from < s.len()
            && s.last() != '\n' {
            1int
        } else {
            0int
        },
    decreases s.len() - from,
{
    assert(s.take(s.len() as int) =~= s);
    if from < s.len() {
        lemma_line_end_bounds(s, from);
        let end = line_end(s, from);
        lemma_line_feeds_same(s, from, end);
        if end < s.len() {
            lemma_line_feeds_step(s, end);
            lemma_line_count(s, end + 1);
        } else {
            assert(lines_from(s, end + 1).len() == 0);
            assert(s[s.len() - 1] != '\n');
        }
    }
}

/// A text has a line for each line feed, and one more where something follows the last.
pub proof fn law_lines_are_counted_by_line_feeds(s: Seq<char>)
    ensures
        lines_of(s).len() == line_feeds(s) + if s.len() > 0 && s.last() != '\n' {
            1int
        } else {
            0int
        },
{
    lemma_line_count(s, 0);
    assert(s.take(0) =~= seq![]);
}

/// Each line of a text is what lies between two line feeds, less one carriage return before the
/// second; it is found by the number of line feeds before it.
pub proof fn law_lines_lie_between_line_feeds(s: Seq<char>, q: int, p: int)
    requires
        line_lies(s, q, p),
    ensures
        line_feeds(s.take(q)) < lines_of(s).len(),
        lines_of(s)[line_feeds(s.take(q)) as int] == if q < p < s.len() && s[p - 1] == '\r' {
            s.subrange(q, p - 1)
        } else {
            s.subrange(q, p)
        },
{
    lemma_line_from(s, 0, q, p);
    assert(s.take(0) =~= seq![]);
    lemma_line_end_bounds(s, q);
    let end = line_end(s, q);
    if end < p {
        assert(s[end] != '\n');
    }
    assert(end == p);
}

/// Whether the text inside white space lies from `a` up to `b`.
pub open spec fn inner_lies(s: Seq<char>, a: int, b: int) -> bool {
    &&& 0 <= a <= b <= s.len()
    &&& forall|i: int| 0 <= i < a ==> white(#[trigger] s[i])
    &&& forall|i: int| b <= i < s.len() ==> white(#[trigger] s[i])
    &&& a < b ==> !white(s[a]) && !white(s[b - 1])
    &&& a == b ==> b == s.len()
}

pub proof fn lemma_trim_start_to(s: Seq<char>, a: int)
    requires
        0 <= a <= s.len(),
        forall|i: int| 0 <= i < a ==> white(#[trigger] s[i]),
        a < s.len() ==> !white(s[a]),
    ensures
        trim_start(s) == s.skip(a),
    decreases a,
{
    if a == 0 {
        assert(s.skip(0) =~= s);
    } else {
        let r = s.drop_first();
        assert(white(s[0]));
        assert forall|i: int| 0 <= i < a - 1 implies white(#[trigger] r[i]) by {
            assert(white(s[i + 1]));
        }
        lemma_trim_start_to(r, a - 1);
        assert(r.skip(a - 1) =~= s.skip(a));
    }
}

proof fn lemma_trim_end_to(s: Seq<char>, b: int)
    requires
        0 <= b <= s.len(),
        forall|i: int| b <= i < s.len() ==> white(#[trigger] s[i]),
        b > 0 ==> !white(s[b - 1]),
    ensures
        trim_end(s) == s.take(b),
    decreases s.len(),
{
    if b == s.len() {
        assert(s.take(b) =~= s);
    } else {
        assert(white(s[s.len() - 1]));
        lemma_trim_end_to(s.drop_last(), b);
        assert(s.drop_last().take(b) =~= s.take(b));
    }
}

pub proof fn lemma_white_end(line: Seq<char>, from: int) -> (w: int)
    requires
        0 <= from <= line.len(),
        forall|i: int| 0 <= i < from ==> white(#[trigger] line[i]),
    ensures
        from <= w <= line.len(),
        forall|i: int| 0 <= i < w ==> white(#[trigger] line[i]),
        w < line.len() ==> !white(line[w]),
    decreases line.len() - from,
{
    if from < line.len() && white(line[from]) {
        lemma_white_end(line, from + 1)
    } else {
        from
    }
}

proof fn lemma_white_begin(s: Seq<char>, a: int, from: int) -> (b: int)
    requires
        0 <= a < from <= s.len(),
        !white(s[a]),
        forall|i: int| from <= i < s.len() ==> white(#[trigger] s[i]),
    ensures
        a < b <= from,
        forall|i: int| b <= i < s.len() ==> white(#[trigger] s[i]),
        !white(s[b - 1]),
    decreases from,
{
    if white(s[from - 1]) {
        lemma_white_begin(s, a, from - 1)
    } else {
        from
    }
}

/// Every text has an inside, though it may be empty.
pub proof fn law_every_text_has_an_inside(s: Seq<char>)
    ensures
        exists|a: int, b: int| inner_lies(s, a, b),
{
    let a = lemma_white_end(s, 0);
    if a < s.len() {
        let b = lemma_white_begin(s, a, s.len() as int);
        assert(inner_lies(s, a, b));
    } else {
        assert(inner_lies(s, a, a));
    }
}

/// Trimming takes the white space at both ends away, all of it, and nothing else.
pub proof fn law_trimming_takes_the_white_space_away(s: Seq<char>, a: int, b: int)
    requires
        inner_lies(s, a, b),
    ensures
        trimmed(s) == s.subrange(a, b),
{
    lemma_trim_start_to(s, a);
    let t = s.skip(a);
    assert forall|i: int| b - a <= i < t.len() implies white(#[trigger] t[i]) by {
        assert(white(s[a + i]));
    }
    lemma_trim_end_to(t, b - a);
    assert(t.take(b - a) =~= s.subrange(a, b));
}

/// A text looks like JSON exactly where, white space around it aside, it begins with a brace or
/// square bracket and ends with the one that closes it.
pub proof fn law_json_is_known_by_its_brackets(s: Seq<char>, a: int, b: int)
    requires
        inner_lies(s, a, b),
    ensures
        looks_like(s) <==> a < b && ((s[a] == '{' && s[b - 1] == '}') || (s[a] == '[' && s[b - 1]
            == ']')),
{
    law_trimming_takes_the_white_space_away(s, a, b);
}

/// One text holds another exactly where it stands somewhere in it; and the first place from a place
/// on is one, with none between.
pub proof fn law_texts_are_found_where_they_stand(hay: Seq<char>, needle: Seq<char>, from: int)
    requires
        0 <= from,
    ensures
        has(hay, needle) <==> exists|m: int| stands(hay, needle, m),
        match next_occurrence(hay, needle, from) {
            Some(m) => from <= m && stands(hay, needle, m) && forall|j: int|
                from <= j < m ==> !stands(hay, needle, j),
            None => forall|j: int| from <= j ==> !stands(hay, needle, j),
        },
{
    lemma_next_occurrence(hay, needle, from);
    assert forall|j: int| #[trigger] stands(hay, needle, j) == occurs_at(hay, needle, j) by {
        lemma_stands(hay, needle, j);
    }
    if has(hay, needle) {
        let m = choose|m: int| occurs_at(hay, needle, m);
        assert(stands(hay, needle, m));
    }
    if exists|m: int| stands(hay, needle, m) {
        let m = choose|m: int| stands(hay, needle, m);
        assert(occurs_at(hay, needle, m));
    }
    if let Some(m) = next_occurrence(hay, needle, from) {
        assert(stands(hay, needle, m));
        assert forall|j: int| from <= j < m implies !stands(hay, needle, j) by {
            assert(!occurs_at(hay, needle, j));
        }
    }
}

/// A text that is shorter than its field is moved to the right end of it, behind spaces; another
/// stays as it is.
pub proof fn law_field_is_filled_from_the_right(s: Seq<char>, width: nat)
    ensures
        ({
            let t = right_aligned(s, width);
            &&& s.len() >= width ==> t == s
            &&& s.len() < width ==> {
                &&& t.len() == width
                &&& t.skip(width - s.len()) == s
                &&& forall|k: int| 0 <= k < width - s.len() ==> #[trigger] t[k] == ' '
            }
        }),
        spaces(width).len() == width,
        forall|k: int| 0 <= k < width ==> #[trigger] spaces(width)[k] == ' ',
{
    if s.len() < width {
        assert(right_aligned(s, width).skip(width - s.len()) =~= s);
    }
}

} // verus!
