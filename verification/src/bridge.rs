//! What the library takes from outside on trust: each item here names the outside function and
//! states what is believed of it.

use vstd::prelude::*;
use vstd::utf8::is_ascii_chars;

use ratatui::layout::{Constraint, Direction, Layout, Rect};

use crate::area::{lower_part, rows_of, upper_part, Area, Extent};

verus! {

/// `String::push` of std: appends one character to the end of the string.
pub assume_specification[ String::push ](s: &mut String, c: char)
    ensures
        final(s)@ == old(s)@.push(c),
;

/// `String::pop` of std: takes the last character off the string and gives it back; an empty
/// string stays empty, and `None` comes back.
pub assume_specification[ String::pop ](s: &mut String) -> (r: Option<char>)
    ensures
        old(s)@.len() == 0 ==> r is None && final(s)@ == old(s)@,
        old(s)@.len() > 0 ==> r == Some(old(s)@.last()) && final(s)@ == old(s)@.drop_last(),
;

/// The lower-case form of a text: what `str::to_lowercase` of std makes of it.
pub uninterp spec fn lowercase(s: Seq<char>) -> Seq<char>;

/// The lower-case form of an ASCII letter; any other character as it is.
pub open spec fn ascii_lower(c: char) -> char {
    if 'A' <= c <= 'Z' {
        (c as u8 + 32) as char
    } else {
        c
    }
}

/// The text with its ASCII letters in lower case.
pub open spec fn ascii_lowered(s: Seq<char>) -> Seq<char> {
    s.map_values(|c: char| ascii_lower(c))
}

/// The lower-case form of a character: what `char::to_lowercase` of std makes of it.
pub uninterp spec fn lowered_char(c: char) -> Seq<char>;

/// How many characters the lower-case forms of a text's characters have together.
pub open spec fn lowered_width(s: Seq<char>) -> nat
    decreases s.len(),
{
    if s.len() == 0 {
        0
    } else {
        lowered_width(s.drop_last()) + lowered_char(s.last()).len()
    }
}

/// `str::to_lowercase` of std: the lower-case form of a string, by the rules of Unicode. It depends
/// on the string alone. It is empty for an empty string only, and it has as many characters as the
/// lower-case forms of the string's characters have together: what depends on the context is which
/// one character a capital sigma becomes. Of a string of ASCII characters the letters `A` to `Z`
/// become `a` to `z`, and everything else stays.
#[verifier::external_body]
pub(crate) fn to_lowercase(s: &str) -> (r: String)
    ensures
        r@ == lowercase(s@),
        s@.len() > 0 ==> r@.len() > 0,
        r@.len() == lowered_width(s@),
        is_ascii_chars(s@) ==> r@ == ascii_lowered(s@),
{
    s.to_lowercase()
}

/// `char::to_lowercase` of std: the lower-case form of a character, one character or more. It
/// depends on the character alone. Of the ASCII characters `A` to `Z` become `a` to `z`, and every
/// other one stays.
#[verifier::external_body]
pub(crate) fn lower_char(c: char) -> (r: Vec<char>)
    ensures
        r@ == lowered_char(c),
        r@.len() > 0,
        c <= '\u{7f}' ==> r@ == seq![ascii_lower(c)],
{
    c.to_lowercase().collect()
}

/// Requests for two heights that have one best answer: a minimum above a fixed height, or a half
/// each.
pub open spec fn settled(first: Extent, second: Extent) -> bool {
    match (first, second) {
        (Extent::Min(n), Extent::Length(_)) => n <= i16::MAX,
        (Extent::Percentage(p), Extent::Percentage(q)) => p == 50 && q == 50,
        _ => false,
    }
}

/// How many of `h` rows the upper part gets. With a minimum above a fixed height: what the fixed
/// height leaves, and where that is below the minimum, the minimum, as far as there are rows. With
/// a half each: half of the rows, rounded up.
pub open spec fn upper_share(h: int, first: Extent, second: Extent) -> int {
    match (first, second) {
        (Extent::Min(n), Extent::Length(m)) => if h >= n + m {
            h - m
        } else if h >= n {
            n as int
        } else {
            h
        },
        _ => (h + 1) / 2,
    }
}

/// `Layout::split` of ratatui, for two parts one above the other, without margin or spacing, and
/// for requests that have one best answer. Both parts begin at the left edge of the area and are as
/// wide as it. The upper one begins at the top, and the lower one takes up the rows below it, down
/// to the end of the area or to the last row that there can be.
///
/// That is the one best answer to the constraints that ratatui hands to its solver. The edges must
/// lie in the area. A gap or an overlap between the parts, or a gap above them, weighs more than a
/// missed minimum, which weighs more than a missed fixed height, and that more than a missed half.
/// Next comes the wish that a part with a minimum grows, then that rows stay free below the parts,
/// and last that the parts are alike. The edges are rounded to whole rows, a half upwards.
#[verifier::external_body]
pub(crate) fn split_rows(area: Area, first: Extent, second: Extent) -> (r: (Area, Area))
    requires
        settled(first, second),
    ensures
        r.0 == upper_part(area, upper_share(rows_of(area), first, second)),
        r.1 == lower_part(area, upper_share(rows_of(area), first, second)),
{
    let ask = |e: Extent| match e {
        Extent::Min(n) => Constraint::Min(n),
        Extent::Length(n) => Constraint::Length(n),
        Extent::Percentage(n) => Constraint::Percentage(n),
    };
    let give = |r: Rect| Area { x: r.x, y: r.y, width: r.width, height: r.height };
    let whole = Rect { x: area.x, y: area.y, width: area.width, height: area.height };
    let layout = Layout::default().direction(Direction::Vertical);
    let parts = layout.constraints([ask(first), ask(second)]).split(whole);
    (give(parts[0]), give(parts[1]))
}

} // verus!
