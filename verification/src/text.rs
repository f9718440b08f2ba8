//! Characters and strings: conversion, trimming, splitting into lines, searching, numbers.

use vstd::prelude::*;

verus! {

/// Whether a character is ASCII whitespace: space, tab, line feed, form feed, carriage return.
pub open spec fn is_ascii_space(c: char) -> bool {
    c == ' ' || c == '\t' || c == '\n' || c == '\x0C' || c == '\r'
}

/// Tests for ASCII whitespace.
pub fn ascii_space(c: char) -> (r: bool)
    ensures
        r == is_ascii_space(c),
{
    c == ' ' || c == '\t' || c == '\n' || c == '\x0C' || c == '\r'
}

/// `n` spaces.
pub open spec fn spaces(n: nat) -> Seq<char> {
    Seq::new(n, |i: int| ' ')
}

/// The characters of a string, in order.
pub fn to_chars(s: &str) -> (r: Vec<char>)
    ensures
        r@ == s@,
{
    let mut out: Vec<char> = Vec::new();
    for c in it: s.chars()
        invariant
            it.seq() == s@,
            out@ == s@.take(it.index()),
    {
        out.push(c);
        assert(s@.take(it.index() + 1) =~= s@.take(it.index() as int).push(c));
    }
    assert(s@.take(s@.len() as int) =~= s@);
    out
}

/// The string made of the characters from `from` up to, not including, `to`.
pub fn substring(chars: &Vec<char>, from: usize, to: usize) -> (r: String)
    requires
        from <= to <= chars@.len(),
    ensures
        r@ == chars@.subrange(from as int, to as int),
{
    let mut out: String = String::new();
    let mut k: usize = from;
    assert(out@ =~= chars@.subrange(from as int, from as int));
    while k < to
        invariant
            from <= k <= to <= chars@.len(),
            out@ == chars@.subrange(from as int, k as int),
        decreases to - k,
    {
        out.push(chars[k]);
        assert(out@ =~= chars@.subrange(from as int, k + 1));
        k = k + 1;
    }
    out
}

/// Whether a character has the Unicode property White_Space.
pub open spec fn is_whitespace(c: char) -> bool {
    ||| '\t' <= c <= '\r'
    ||| c == ' '
    ||| c == '\u{85}'
    ||| c == '\u{A0}'
    ||| c == '\u{1680}'
    ||| '\u{2000}' <= c <= '\u{200A}'
    ||| c == '\u{2028}'
    ||| c == '\u{2029}'
    ||| c == '\u{202F}'
    ||| c == '\u{205F}'
    ||| c == '\u{3000}'
}

/// Tests for the Unicode property White_Space.
pub fn whitespace(c: char) -> (r: bool)
    ensures
        r == is_whitespace(c),
{
    ('\t' <= c && c <= '\r') || c == ' ' || c == '\u{85}' || c == '\u{A0}' || c == '\u{1680}'
        || ('\u{2000}' <= c && c <= '\u{200A}') || c == '\u{2028}' || c == '\u{2029}'
        || c == '\u{202F}' || c == '\u{205F}' || c == '\u{3000}'
}

/// The text without the whitespace that it begins with.
pub open spec fn trim_start(s: Seq<char>) -> Seq<char>
    decreases s.len(),
{
    if s.len() > 0 && is_whitespace(s[0]) {
        trim_start(s.drop_first())
    } else {
        s
    }
}

/// The text without the whitespace that it ends with.
pub open spec fn trim_end(s: Seq<char>) -> Seq<char>
    decreases s.len(),
{
    if s.len() > 0 && is_whitespace(s.last()) {
        trim_end(s.drop_last())
    } else {
        s
    }
}

/// The text without the whitespace around it.
pub open spec fn trimmed(s: Seq<char>) -> Seq<char> {
    trim_end(trim_start(s))
}

/// How many characters of whitespace the text begins with.
pub fn leading_whitespace(chars: &Vec<char>) -> (r: usize)
    ensures
        r <= chars@.len(),
        trim_start(chars@) == chars@.skip(r as int),
{
    let mut k: usize = 0;
    assert(chars@.skip(0) =~= chars@);
    while k < chars.len() && whitespace(chars[k])
        invariant
            k <= chars@.len(),
            trim_start(chars@) == trim_start(chars@.skip(k as int)),
        decreases chars@.len() - k,
    {
        assert(chars@.skip(k as int).drop_first() =~= chars@.skip(k + 1));
        k = k + 1;
    }
    k
}

/// The string without the whitespace around it.
pub fn trim(s: &str) -> (r: String)
    ensures
        r@ == trimmed(s@),
{
    let chars: Vec<char> = to_chars(s);
    let lo: usize = leading_whitespace(&chars);
    let mut hi: usize = chars.len();
    assert(chars@.subrange(lo as int, hi as int) =~= chars@.skip(lo as int));
    while lo < hi && whitespace(chars[hi - 1])
        invariant
            lo <= hi <= chars@.len(),
            trimmed(chars@) == trim_end(chars@.subrange(lo as int, hi as int)),
        decreases hi,
    {
        assert(chars@.subrange(lo as int, hi as int).drop_last() =~= chars@.subrange(
            lo as int,
            hi - 1,
        ));
        hi = hi - 1;
    }
    substring(&chars, lo, hi)
}

/// Where the line that begins at `from` ends: at its line feed, or at the end of the text.
pub open spec fn line_end(s: Seq<char>, from: int) -> int
    decreases s.len() - from,
{
    if from < 0 || from >= s.len() {
        s.len() as int
    } else if s[from] == '\n' {
        from
    } else {
        line_end(s, from + 1)
    }
}

/// The line that begins at `from`, without its line ending: a line feed, or a carriage return and
/// a line feed. The last line may do without.
pub open spec fn line_at(s: Seq<char>, from: int) -> Seq<char> {
    let end = line_end(s, from);
    if end < s.len() && from < end && s[end - 1] == '\r' {
        s.subrange(from, end - 1)
    } else {
        s.subrange(from, end)
    }
}

/// The lines of the text from `from` on.
pub open spec fn lines_from(s: Seq<char>, from: int) -> Seq<Seq<char>>
    decreases s.len() + 1 - from,
    when 0 <= from
{
    if from >= s.len() {
        seq![]
    } else {
        proof {
            lemma_line_end_bounds(s, from);
        }
        seq![line_at(s, from)] + lines_from(s, line_end(s, from) + 1)
    }
}

/// The lines of the text.
pub open spec fn lines_of(s: Seq<char>) -> Seq<Seq<char>> {
    lines_from(s, 0)
}

pub proof fn lemma_line_end_bounds(s: Seq<char>, from: int)
    requires
        0 <= from <= s.len(),
    ensures
        from <= line_end(s, from) <= s.len(),
        line_end(s, from) < s.len() ==> s[line_end(s, from)] == '\n',
        forall|k: int| from <= k < line_end(s, from) ==> s[k] != '\n',
    decreases s.len() - from,
{
    if from < s.len() && s[from] != '\n' {
        lemma_line_end_bounds(s, from + 1);
    }
}

/// No line holds a line feed.
pub proof fn law_lines_hold_no_line_feed(s: Seq<char>, i: int)
    requires
        0 <= i < lines_of(s).len(),
    ensures
        !lines_of(s)[i].contains('\n'),
{
    lemma_lines_from_no_line_feed(s, 0, i);
}

proof fn lemma_lines_from_no_line_feed(s: Seq<char>, from: int, i: int)
    requires
        0 <= from,
        0 <= i < lines_from(s, from).len(),
    ensures
        !lines_from(s, from)[i].contains('\n'),
    decreases i,
{
    if from < s.len() {
        lemma_line_end_bounds(s, from);
        if i == 0 {
            assert(lines_from(s, from)[0] == line_at(s, from));
        } else {
            assert(lines_from(s, from)[i] == lines_from(s, line_end(s, from) + 1)[i - 1]);
            lemma_lines_from_no_line_feed(s, line_end(s, from) + 1, i - 1);
        }
    }
}

/// The lines, each with a line feed behind it, one after another.
pub open spec fn joined(lines: Seq<Seq<char>>) -> Seq<char>
    decreases lines.len(),
{
    if lines.len() == 0 {
        seq![]
    } else {
        lines[0].push('\n') + joined(lines.drop_first())
    }
}

/// Whether a line of the text ends with a carriage return and a line feed.
pub open spec fn has_crlf(s: Seq<char>) -> bool {
    exists|i: int| 0 < i < s.len() && s[i] == '\n' && #[trigger] s[i - 1] == '\r'
}

proof fn lemma_lines_from_join(s: Seq<char>, from: int)
    requires
        0 <= from <= s.len(),
        !has_crlf(s),
    ensures
        from < s.len() && s.last() != '\n' ==> joined(lines_from(s, from)) == s.skip(from).push(
            '\n',
        ),
        from == s.len() || s.last() == '\n' ==> joined(lines_from(s, from)) == s.skip(from),
    decreases s.len() - from,
{
    if from < s.len() {
        let end = line_end(s, from);
        lemma_line_end_bounds(s, from);
        let all = lines_from(s, from);
        if end < s.len() && from < end {
            assert(s[end - 1] != '\r');
        }
        assert(line_at(s, from) == s.subrange(from, end));
        assert(all[0] == s.subrange(from, end));
        if end < s.len() {
            assert(all.drop_first() =~= lines_from(s, end + 1));
            lemma_lines_from_join(s, end + 1);
            assert(s.skip(from) =~= s.subrange(from, end).push('\n') + s.skip(end + 1));
            if s.last() != '\n' {
                assert(s.skip(from).push('\n') =~= s.subrange(from, end).push('\n') + s.skip(
                    end + 1,
                ).push('\n'));
            }
        } else {
            assert(lines_from(s, end + 1) =~= seq![]);
            assert(all.drop_first() =~= seq![]);
            assert(joined(all.drop_first()) =~= seq![]);
            assert(joined(all) =~= s.subrange(from, end).push('\n'));
            assert(s.subrange(from, end) =~= s.skip(from));
        }
    } else {
        assert(joined(lines_from(s, from)) =~= s.skip(from));
    }
}

/// Splitting a text whose lines end with mere line feeds loses nothing: the lines, each with a line
/// feed behind it, are the text, up to a line feed that its last line may lack.
pub proof fn law_lines_join_to_the_text(s: Seq<char>)
    requires
        !has_crlf(s),
    ensures
        s.len() == 0 || s.last() == '\n' ==> joined(lines_of(s)) == s,
        s.len() > 0 && s.last() != '\n' ==> joined(lines_of(s)) == s.push('\n'),
{
    lemma_lines_from_join(s, 0);
    assert(s.skip(0) =~= s);
}

/// The texts of some strings.
pub open spec fn texts(v: Seq<String>) -> Seq<Seq<char>> {
    v.map_values(|s: String| s@)
}

/// Splits a text into its lines.
pub fn split_lines(s: &str) -> (r: Vec<String>)
    ensures
        texts(r@) == lines_of(s@),
{
    let chars: Vec<char> = to_chars(s);
    let mut out: Vec<String> = Vec::new();
    let mut start: usize = 0;
    assert(texts(out@) + lines_from(s@, 0) =~= lines_of(s@));
    while start < chars.len()
        invariant
            chars@ == s@,
            start <= chars@.len(),
            texts(out@) + lines_from(s@, start as int) == lines_of(s@),
        decreases chars@.len() - start,
    {
        let mut end: usize = start;
        while end < chars.len() && chars[end] != '\n'
            invariant
                start <= end <= chars@.len(),
                line_end(chars@, start as int) == line_end(chars@, end as int),
            decreases chars@.len() - end,
        {
            end = end + 1;
        }
        let stop: usize = if end < chars.len() && start < end && chars[end - 1] == '\r' {
            end - 1
        } else {
            end
        };
        let ghost before = texts(out@);
        out.push(substring(&chars, start, stop));
        proof {
            assert(out@.last()@ == line_at(s@, start as int));
            assert(texts(out@) =~= before.push(line_at(s@, start as int)));
            assert(texts(out@) + lines_from(s@, end + 1) =~= before + lines_from(s@, start as int));
        }
        if end == chars.len() {
            assert(texts(out@) =~= texts(out@) + lines_from(s@, end + 1));
            return out;
        }
        start = end + 1;
    }
    assert(texts(out@) =~= texts(out@) + lines_from(s@, start as int));
    out
}

/// Whether `needle` stands in `hay` at `i`.
pub open spec fn occurs_at<T>(hay: Seq<T>, needle: Seq<T>, i: int) -> bool {
    &&& 0 <= i
    &&& i + needle.len() <= hay.len()
    &&& hay.subrange(i, i + needle.len()) == needle
}

/// Whether `needle` stands somewhere in `hay`.
pub open spec fn has<T>(hay: Seq<T>, needle: Seq<T>) -> bool {
    exists|i: int| occurs_at(hay, needle, i)
}

/// The first place from `from` on at which `needle` stands in `hay`.
pub open spec fn next_occurrence<T>(hay: Seq<T>, needle: Seq<T>, from: int) -> Option<int>
    decreases hay.len() + 1 - from,
{
    if from + needle.len() > hay.len() {
        None
    } else if occurs_at(hay, needle, from) {
        Some(from)
    } else {
        next_occurrence(hay, needle, from + 1)
    }
}

pub proof fn lemma_next_occurrence<T>(hay: Seq<T>, needle: Seq<T>, from: int)
    requires
        0 <= from,
    ensures
        match next_occurrence(hay, needle, from) {
            Some(i) => from <= i && occurs_at(hay, needle, i) && (forall|j: int|
                from <= j < i ==> !occurs_at(hay, needle, j)),
            None => forall|j: int| from <= j ==> !occurs_at(hay, needle, j),
        },
    decreases hay.len() + 1 - from,
{
    if from + needle.len() <= hay.len() && !occurs_at(hay, needle, from) {
        lemma_next_occurrence(hay, needle, from + 1);
    }
}

/// Tests whether `needle` stands in `hay` at `at`.
fn stands_at(hay: &Vec<char>, needle: &Vec<char>, at: usize) -> (r: bool)
    requires
        at + needle@.len() <= hay@.len(),
    ensures
        r == occurs_at(hay@, needle@, at as int),
{
    let size: usize = hay.len();
    let mut k: usize = 0;
    while k < needle.len()
        invariant
            k <= needle@.len(),
            at + needle@.len() <= size == hay@.len(),
            forall|j: int| 0 <= j < k ==> hay@[at + j] == needle@[j],
        decreases needle@.len() - k,
    {
        if hay[at + k] != needle[k] {
            assert(hay@.subrange(at as int, at + needle@.len())[k as int] != needle@[k as int]);
            return false;
        }
        k = k + 1;
    }
    assert(hay@.subrange(at as int, at + needle@.len()) =~= needle@);
    true
}

/// The first place from `from` on at which `needle` stands in `hay`.
pub fn find(hay: &Vec<char>, needle: &Vec<char>, from: usize) -> (r: Option<usize>)
    requires
        from <= hay@.len(),
    ensures
        match r {
            Some(i) => next_occurrence(hay@, needle@, from as int) == Some(i as int),
            None => next_occurrence(hay@, needle@, from as int) is None,
        },
{
    if needle.len() > hay.len() - from {
        return None;
    }
    let end: usize = hay.len() - needle.len();
    let mut i: usize = from;
    loop
        invariant
            from <= i <= end == hay@.len() - needle@.len(),
            next_occurrence(hay@, needle@, from as int) == next_occurrence(
                hay@,
                needle@,
                i as int,
            ),
        decreases end - i,
    {
        if stands_at(hay, needle, i) {
            return Some(i);
        }
        if i == end {
            assert(next_occurrence(hay@, needle@, i + 1) is None);
            return None;
        }
        i = i + 1;
    }
}

/// Whether one string holds another.
pub fn contains(hay: &str, needle: &str) -> (r: bool)
    ensures
        r == has(hay@, needle@),
{
    let h: Vec<char> = to_chars(hay);
    let n: Vec<char> = to_chars(needle);
    let found: Option<usize> = find(&h, &n, 0);
    proof {
        lemma_next_occurrence(hay@, needle@, 0);
        if let Some(i) = next_occurrence(hay@, needle@, 0) {
            assert(occurs_at(hay@, needle@, i));
        }
    }
    found.is_some()
}

/// Whether two strings are the same.
pub fn same(a: &str, b: &str) -> (r: bool)
    ensures
        r == (a@ == b@),
{
    let x: Vec<char> = to_chars(a);
    let y: Vec<char> = to_chars(b);
    if x.len() != y.len() {
        return false;
    }
    let same: bool = stands_at(&x, &y, 0);
    assert(a@.subrange(0, a@.len() as int) =~= a@);
    same
}

/// The digit for a value below ten.
pub open spec fn digit(d: int) -> char {
    ('0' as int + d) as char
}

/// A number in decimal notation.
pub open spec fn decimal(n: nat) -> Seq<char>
    decreases n,
{
    if n < 10 {
        seq![digit(n as int)]
    } else {
        decimal(n / 10).push(digit((n % 10) as int))
    }
}

/// Writes a number in decimal notation.
pub fn to_decimal(n: usize) -> (r: String)
    ensures
        r@ == decimal(n as nat),
    decreases n,
{
    let mut out: String = if n < 10 {
        String::new()
    } else {
        to_decimal(n / 10)
    };
    let d: u8 = (n % 10) as u8;
    let c: char = ('0' as u8 + d) as char;
    out.push(c);
    assert(out@ =~= decimal(n as nat));
    out
}

/// The text moved to the right end of a field of `width` characters; a longer text stays whole.
pub open spec fn right_aligned(s: Seq<char>, width: nat) -> Seq<char> {
    if s.len() >= width {
        s
    } else {
        spaces((width - s.len()) as nat) + s
    }
}

/// Moves a string to the right end of a field.
pub fn align_right(s: &str, width: usize) -> (r: String)
    ensures
        r@ == right_aligned(s@, width as nat),
{
    let len: usize = to_chars(s).len();
    let mut out: String = String::new();
    let mut k: usize = len;
    assert(out@ =~= spaces(0));
    while k < width
        invariant
            len <= k,
            len < width ==> k <= width,
            len >= width ==> k == len,
            out@ == spaces((k - len) as nat),
        decreases width - k,
    {
        out.push(' ');
        assert(out@ =~= spaces((k + 1 - len) as nat));
        k = k + 1;
    }
    out.append(s);
    assert(out@ =~= right_aligned(s@, width as nat));
    out
}

} // verus!
