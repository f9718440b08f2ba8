//! How pretty-printed text lies on its lines, said of the text itself: where its lines break, how
//! far each is indented, and what is kept of the text that it was made of.

use vstd::prelude::*;

use crate::json::{
    break_to, closer, closes_empty, depth, first_solid, is_close, is_open, last_solid,
    lemma_escaped_in_string, lemma_first_solid_succ, lemma_last_solid_succ, lemma_lex_succ,
    lex_at, lex_from, lex_start, opens_empty, piece, pieces, pretty, shallower,
    structural, within_empty,
};
use crate::json_laws::{
    begin, compact_from, law_pretty_keeps_content, lemma_break_blank,
    lemma_pretty_at, lemma_scan_pieces, lemma_skip_run, lemma_solid_after, lemma_solid_before,
};
use crate::text::is_ascii_space;

verus! {

/// How many backslashes the text ends with.
pub open spec fn backslashes(s: Seq<char>) -> nat
    decreases s.len(),
{
    if s.len() > 0 && s.last() == '\\' {
        backslashes(s.drop_last()) + 1
    } else {
        0
    }
}

/// Whether a string literal is open at the end of the text. A quote opens one, and the next quote
/// closes it that does not stand behind an odd number of backslashes.
pub open spec fn unclosed(s: Seq<char>) -> bool
    decreases s.len(),
{
    if s.len() == 0 {
        false
    } else if s.last() != '"' {
        unclosed(s.drop_last())
    } else {
        !unclosed(s.drop_last()) || backslashes(s.drop_last()) % 2 == 1
    }
}

/// Whether the character at `p` stands outside every string literal.
pub open spec fn outside(t: Seq<char>, p: int) -> bool {
    0 <= p < t.len() && t[p] != '"' && !unclosed(t.take(p))
}

/// How many objects and arrays are open at the end of the text.
pub open spec fn nesting(s: Seq<char>) -> nat
    decreases s.len(),
{
    if s.len() == 0 {
        0
    } else {
        let n = nesting(s.drop_last());
        let c = s.last();
        if unclosed(s.drop_last()) {
            n
        } else if c == '{' || c == '[' {
            n + 1
        } else if (c == '}' || c == ']') && n > 0 {
            (n - 1) as nat
        } else {
            n
        }
    }
}

/// The white space that may stand between the parts of a JSON text, and the form feed.
pub open spec fn is_gap(c: char) -> bool {
    c == ' ' || c == '\t' || c == '\n' || c == '\r' || c == '\x0C'
}

/// Two brackets that belong together.
pub open spec fn are_pair(a: char, b: char) -> bool {
    (a == '{' && b == '}') || (a == '[' && b == ']')
}

/// Whether there is nothing but white space between the brackets at `p` and `q`.
pub open spec fn empty_pair(t: Seq<char>, p: int, q: int) -> bool {
    &&& 0 <= p < q < t.len()
    &&& are_pair(t[p], t[q])
    &&& forall|k: int| p < k < q ==> is_gap(#[trigger] t[k])
}

/// Whether a line begins behind `p`, with exactly `n` spaces in front.
pub open spec fn line_begins(t: Seq<char>, p: int, n: nat) -> bool {
    &&& 0 <= p
    &&& p + 1 + n < t.len()
    &&& t[p + 1] == '\n'
    &&& forall|k: int| p + 2 <= k < p + 2 + n ==> #[trigger] t[k] == ' '
    &&& p + 2 + n < t.len() ==> t[p + 2 + n] != ' '
}

/// Whether the character at `p` is the first of a line, with exactly `n` spaces in front.
pub open spec fn begins_line(t: Seq<char>, p: int, n: nat) -> bool {
    &&& n + 1 <= p < t.len()
    &&& t[p - n - 1] == '\n'
    &&& forall|k: int| p - n <= k < p ==> #[trigger] t[k] == ' '
}

/// The text without the white space that stands outside string literals.
pub open spec fn solid_text(s: Seq<char>) -> Seq<char>
    decreases s.len(),
{
    if s.len() == 0 {
        seq![]
    } else if !unclosed(s.drop_last()) && is_gap(s.last()) {
        solid_text(s.drop_last())
    } else {
        solid_text(s.drop_last()).push(s.last())
    }
}

/// The scan of a text knows whether a string literal is open.
proof fn lemma_scan_unclosed(s: Seq<char>)
    ensures
        lex_from(lex_start(), s).in_string == unclosed(s),
        unclosed(s) ==> lex_from(lex_start(), s).escaped == (backslashes(s) % 2 == 1),
        !unclosed(s) ==> !lex_from(lex_start(), s).escaped,
    decreases s.len(),
{
    if s.len() > 0 {
        lemma_scan_unclosed(s.drop_last());
    }
}

proof fn lemma_compact_is_solid(s: Seq<char>)
    ensures
        compact_from(lex_start(), s) == solid_text(s),
    decreases s.len(),
{
    if s.len() > 0 {
        lemma_compact_is_solid(s.drop_last());
        lemma_scan_unclosed(s.drop_last());
    }
}

/// Pretty-printing keeps the text: it puts white space between its parts, or takes some away, and
/// that is all. String literals stay as they are.
pub proof fn law_pretty_keeps_solid_text(s: Seq<char>)
    ensures
        solid_text(pretty(s)) == solid_text(s),
{
    law_pretty_keeps_content(s);
    lemma_compact_is_solid(s);
    lemma_compact_is_solid(pretty(s));
}

proof fn lemma_lex_unclosed(s: Seq<char>, i: int)
    requires
        0 <= i <= s.len(),
    ensures
        lex_at(s, i).in_string == unclosed(s.take(i)),
{
    lemma_scan_unclosed(s.take(i));
}

/// The depth of a place is the number of containers open there, up to the one that encloses it
/// where that is empty.
proof fn lemma_nesting_depth(s: Seq<char>, i: int)
    requires
        0 <= i <= s.len(),
    ensures
        nesting(s.take(i)) == depth(s, i) + if !unclosed(s.take(i)) && within_empty(s, i) {
            1nat
        } else {
            0nat
        },
    decreases i,
{
    if i == 0 {
        assert(s.take(0) =~= seq![]);
    } else {
        let j = i - 1;
        lemma_nesting_depth(s, j);
        lemma_lex_unclosed(s, j);
        lemma_lex_unclosed(s, i);
        lemma_lex_succ(s, j);
        lemma_escaped_in_string(s, j);
        lemma_last_solid_succ(s, j);
        lemma_first_solid_succ(s, j);
        assert(s.take(i).drop_last() =~= s.take(j));
        assert(s.take(i).last() == s[j]);
    }
}

proof fn lemma_nesting_push(a: Seq<char>, c: char)
    ensures
        nesting(a.push(c)) == if unclosed(a) {
            nesting(a)
        } else if is_open(c) {
            nesting(a) + 1
        } else if is_close(c) {
            shallower(nesting(a))
        } else {
            nesting(a)
        },
        unclosed(a.push(c)) == if c != '"' {
            unclosed(a)
        } else {
            !unclosed(a) || backslashes(a) % 2 == 1
        },
{
    assert(a.push(c).drop_last() =~= a);
}

proof fn lemma_nesting_blank(a: Seq<char>, b: Seq<char>)
    requires
        !unclosed(a),
        forall|k: int| 0 <= k < b.len() ==> b[k] == ' ' || b[k] == '\n',
    ensures
        nesting(a + b) == nesting(a),
        !unclosed(a + b),
    decreases b.len(),
{
    if b.len() == 0 {
        assert(a + b =~= a);
    } else {
        let h = b.drop_last();
        lemma_nesting_blank(a, h);
        lemma_nesting_push(a + h, b.last());
        assert(a + b =~= (a + h).push(b.last()));
    }
}

/// What is open is the same in the text and in its pretty-printed form.
proof fn lemma_nesting_pieces(s: Seq<char>, i: int)
    requires
        0 <= i <= s.len(),
    ensures
        nesting(pieces(s, i)) == nesting(s.take(i)),
        unclosed(pieces(s, i)) == unclosed(s.take(i)),
    decreases i,
{
    lemma_scan_pieces(s, i);
    lemma_scan_unclosed(pieces(s, i));
    lemma_lex_unclosed(s, i);
    if i == 0 {
        assert(s.take(0) =~= seq![]);
    } else {
        let j = i - 1;
        let c = s[j];
        let d = depth(s, j);
        let a = pieces(s, j);
        lemma_nesting_pieces(s, j);
        lemma_lex_unclosed(s, j);
        lemma_escaped_in_string(s, j);
        assert(s.take(i) =~= s.take(j).push(c));
        lemma_nesting_push(s.take(j), c);
        lemma_nesting_push(a, c);
        lemma_break_blank(d);
        lemma_break_blank(d + 1);
        lemma_break_blank(shallower(d));
        if !structural(s, j) {
            assert(pieces(s, i) =~= a.push(c));
        } else if is_open(c) && !opens_empty(s, j) {
            lemma_nesting_blank(a.push(c), break_to(d + 1));
            assert(pieces(s, i) =~= a.push(c) + break_to(d + 1));
        } else if is_close(c) && !closes_empty(s, j) {
            let b = break_to(shallower(d));
            lemma_nesting_blank(a, b);
            lemma_nesting_push(a + b, c);
            assert(pieces(s, i) =~= (a + b).push(c));
        } else if c == ',' {
            lemma_nesting_blank(a.push(c), break_to(d));
            assert(pieces(s, i) =~= a.push(c) + break_to(d));
        } else if c == ':' {
            lemma_nesting_blank(a.push(c), seq![' ']);
            assert(pieces(s, i) =~= a.push(c) + seq![' ']);
        } else if piece(s, j).len() == 0 {
            assert(pieces(s, i) =~= a);
        } else {
            assert(pieces(s, i) =~= a.push(c));
        }
    }
}

/// Every place of the pretty-printed text lies in the piece of a character.
proof fn lemma_owner(s: Seq<char>, p: int, n: int) -> (i: int)
    requires
        0 <= n <= s.len(),
        0 <= p < begin(s, n),
    ensures
        0 <= i < n,
        begin(s, i) <= p < begin(s, i + 1),
    decreases n,
{
    if p >= begin(s, n - 1) {
        n - 1
    } else {
        lemma_owner(s, p, n - 1)
    }
}

/// Outside string literals no part of the text begins with a space.
proof fn lemma_no_space_next(s: Seq<char>, i: int)
    requires
        0 <= i <= s.len(),
        !lex_at(s, i).in_string,
    ensures
        begin(s, i) < pretty(s).len() ==> pretty(s)[begin(s, i)] != ' ',
    decreases s.len() - i,
{
    if i < s.len() {
        lemma_pretty_at(s, i);
        lemma_lex_succ(s, i);
        lemma_escaped_in_string(s, i);
        if piece(s, i).len() == 0 {
            lemma_no_space_next(s, i + 1);
        } else {
            assert(pretty(s)[begin(s, i) + 0] == piece(s, i)[0]);
        }
    }
}

/// In an empty container the closing bracket comes next.
proof fn lemma_closer_next(s: Seq<char>, i: int, c: char)
    requires
        0 <= i <= s.len(),
        !lex_at(s, i).in_string,
        last_solid(s.take(i)) == Some(c),
        is_open(c),
        first_solid(s.skip(i)) == Some(closer(c)),
    ensures
        begin(s, i) < pretty(s).len(),
        pretty(s)[begin(s, i)] == closer(c),
    decreases s.len() - i,
{
    if i < s.len() {
        lemma_pretty_at(s, i);
        lemma_lex_succ(s, i);
        lemma_escaped_in_string(s, i);
        lemma_first_solid_succ(s, i);
        lemma_last_solid_succ(s, i);
        if is_ascii_space(s[i]) {
            lemma_closer_next(s, i + 1, c);
        } else {
            assert(closes_empty(s, i));
            assert(pretty(s)[begin(s, i) + 0] == piece(s, i)[0]);
        }
    } else {
        assert(s.skip(i) =~= seq![]);
    }
}

proof fn lemma_first_solid_place(u: Seq<char>, j: int)
    requires
        0 <= j < u.len(),
        !is_gap(u[j]),
        forall|k: int| 0 <= k < j ==> is_gap(#[trigger] u[k]),
    ensures
        first_solid(u) == Some(u[j]),
    decreases j,
{
    if j > 0 {
        assert(is_gap(u[0]));
        assert forall|k: int| 0 <= k < j - 1 implies is_gap(#[trigger] u.drop_first()[k]) by {
            assert(is_gap(u[k + 1]));
        }
        lemma_first_solid_place(u.drop_first(), j - 1);
    }
}

proof fn lemma_first_solid_found(u: Seq<char>) -> (j: int)
    requires
        first_solid(u) is Some,
    ensures
        0 <= j < u.len(),
        first_solid(u) == Some(u[j]),
        forall|k: int| 0 <= k < j ==> is_gap(#[trigger] u[k]),
    decreases u.len(),
{
    if !is_ascii_space(u[0]) {
        0
    } else {
        let r = lemma_first_solid_found(u.drop_first());
        assert forall|k: int| 0 <= k < r + 1 implies is_gap(#[trigger] u[k]) by {
            if k > 0 {
                assert(is_gap(u.drop_first()[k - 1]));
            }
        }
        r + 1
    }
}

proof fn lemma_last_solid_place(u: Seq<char>, j: int)
    requires
        0 <= j < u.len(),
        !is_gap(u[j]),
        forall|k: int| j < k < u.len() ==> is_gap(#[trigger] u[k]),
    ensures
        last_solid(u) == Some(u[j]),
    decreases u.len(),
{
    if j < u.len() - 1 {
        assert(is_gap(u[u.len() - 1]));
        assert forall|k: int| j < k < u.len() - 1 implies is_gap(#[trigger] u.drop_last()[k]) by {
            assert(is_gap(u[k]));
        }
        lemma_last_solid_place(u.drop_last(), j);
    }
}

proof fn lemma_last_solid_found(u: Seq<char>) -> (j: int)
    requires
        last_solid(u) is Some,
    ensures
        0 <= j < u.len(),
        last_solid(u) == Some(u[j]),
        forall|k: int| j < k < u.len() ==> is_gap(#[trigger] u[k]),
    decreases u.len(),
{
    if !is_ascii_space(u.last()) {
        u.len() - 1
    } else {
        let r = lemma_last_solid_found(u.drop_last());
        assert forall|k: int| r < k < u.len() implies is_gap(#[trigger] u[k]) by {
            if k < u.len() - 1 {
                assert(is_gap(u.drop_last()[k]));
            }
        }
        r
    }
}

/// A bracket opens an empty container where its partner is the next thing.
proof fn lemma_opens_empty(t: Seq<char>, p: int)
    requires
        0 <= p < t.len(),
        is_open(t[p]),
    ensures
        opens_empty(t, p) <==> exists|q: int| empty_pair(t, p, q),
{
    let u = t.skip(p + 1);
    if opens_empty(t, p) {
        let j = lemma_first_solid_found(u);
        assert(u[j] == t[p + 1 + j]);
        assert forall|k: int| p < k < p + 1 + j implies is_gap(#[trigger] t[k]) by {
            assert(is_gap(u[k - p - 1]));
        }
        assert(empty_pair(t, p, p + 1 + j));
    }
    if exists|q: int| empty_pair(t, p, q) {
        let q = choose|q: int| empty_pair(t, p, q);
        assert forall|k: int| 0 <= k < q - p - 1 implies is_gap(#[trigger] u[k]) by {
            assert(is_gap(t[p + 1 + k]));
        }
        lemma_first_solid_place(u, q - p - 1);
    }
}

proof fn lemma_closes_empty(t: Seq<char>, p: int)
    requires
        0 <= p < t.len(),
        is_close(t[p]),
    ensures
        closes_empty(t, p) <==> exists|q: int| empty_pair(t, q, p),
{
    let u = t.take(p);
    if closes_empty(t, p) {
        let j = lemma_last_solid_found(u);
        assert(u[j] == t[j]);
        assert forall|k: int| j < k < p implies is_gap(#[trigger] t[k]) by {
            assert(is_gap(u[k]));
        }
        assert(empty_pair(t, j, p));
    }
    if exists|q: int| empty_pair(t, q, p) {
        let q = choose|q: int| empty_pair(t, q, p);
        assert forall|k: int| q < k < u.len() implies is_gap(#[trigger] u[k]) by {
            assert(is_gap(t[k]));
        }
        lemma_last_solid_place(u, q);
    }
}

/// A place outside string literals belongs to a character outside string literals.
proof fn lemma_outside_owner(s: Seq<char>, p: int) -> (i: int)
    requires
        outside(pretty(s), p),
    ensures
        0 <= i < s.len(),
        begin(s, i) <= p < begin(s, i + 1),
        begin(s, i + 1) == begin(s, i) + piece(s, i).len(),
        begin(s, i + 1) <= pretty(s).len(),
        pretty(s)[p] == piece(s, i)[p - begin(s, i)],
        structural(s, i),
        !lex_at(s, i + 1).in_string,
        pretty(s).take(begin(s, i)) == pieces(s, i),
{
    let t = pretty(s);
    let i = lemma_owner(s, p, s.len() as int);
    let a = begin(s, i);
    lemma_pretty_at(s, i);
    lemma_nesting_pieces(s, i);
    lemma_lex_unclosed(s, i);
    lemma_lex_succ(s, i);
    lemma_escaped_in_string(s, i);
    assert(t[a + (p - a)] == piece(s, i)[p - a]);
    if !structural(s, i) {
        assert(piece(s, i) =~= seq![s[i]]);
        assert(p == a);
    }
    i
}

/// Behind a character whose piece ends in a line break, a line begins.
proof fn lemma_line_behind(s: Seq<char>, i: int, d: nat)
    requires
        0 <= i < s.len(),
        structural(s, i),
        piece(s, i) == seq![s[i]] + break_to(d),
    ensures
        line_begins(pretty(s), begin(s, i), 2 * d),
{
    let t = pretty(s);
    let a = begin(s, i);
    lemma_pretty_at(s, i);
    lemma_lex_succ(s, i);
    lemma_escaped_in_string(s, i);
    lemma_no_space_next(s, i + 1);
    assert(t[a + 1] == piece(s, i)[1]);
    assert forall|k: int| a + 2 <= k < a + 2 + 2 * d implies #[trigger] t[k] == ' ' by {
        assert(t[a + (k - a)] == piece(s, i)[k - a]);
    }
}

/// In pretty-printed text a comma outside string literals ends its line, and the next line begins
/// with two spaces for each container that is open, however many those are.
pub proof fn law_comma_ends_the_line(s: Seq<char>, p: int)
    requires
        outside(pretty(s), p),
        pretty(s)[p] == ',',
    ensures
        line_begins(pretty(s), p, 2 * nesting(pretty(s).take(p))),
{
    let i = lemma_outside_owner(s, p);
    lemma_break_blank(depth(s, i));
    lemma_break_blank(depth(s, i) + 1);
    lemma_break_blank(shallower(depth(s, i)));
    assert(s[i] == ',' && p == begin(s, i));
    lemma_first_solid_succ(s, i);
    lemma_nesting_depth(s, i);
    lemma_nesting_pieces(s, i);
    lemma_line_behind(s, i, depth(s, i));
}

/// The brackets that a piece is made of are those of its character.
#[verifier::rlimit(40)]
proof fn lemma_bracket_owner(s: Seq<char>, p: int) -> (i: int)
    requires
        outside(pretty(s), p),
        is_open(pretty(s)[p]) || is_close(pretty(s)[p]),
    ensures
        0 <= i < s.len(),
        s[i] == pretty(s)[p],
        structural(s, i),
        !lex_at(s, i).in_string,
        !lex_at(s, i + 1).in_string,
        begin(s, i + 1) == begin(s, i) + piece(s, i).len(),
        begin(s, i + 1) <= pretty(s).len(),
        is_open(s[i]) ==> p == begin(s, i),
        is_close(s[i]) ==> p == begin(s, i + 1) - 1,
        nesting(pretty(s).take(p)) == nesting(s.take(i)),
        nesting(pretty(s).take(p + 1)) == nesting(s.take(i + 1)),
        opens_empty(pretty(s), p) == opens_empty(s, i),
        closes_empty(pretty(s), p) == closes_empty(s, i),
{
    let t = pretty(s);
    let i = lemma_outside_owner(s, p);
    let a = begin(s, i);
    let b = begin(s, i + 1);
    let c = s[i];
    let d = depth(s, i);
    lemma_pretty_at(s, i);
    lemma_break_blank(d);
    lemma_break_blank(d + 1);
    lemma_break_blank(shallower(d));
    lemma_nesting_pieces(s, i);
    lemma_lex_unclosed(s, i);
    lemma_scan_pieces(s, i);
    assert(lex_at(t, a) == lex_at(s, i));
    lemma_nesting_push(s.take(i), c);
    assert(s.take(i + 1) =~= s.take(i).push(c));
    assert(t.take(p + 1) =~= t.take(p).push(c));
    lemma_nesting_push(t.take(p), c);
    lemma_solid_before(s, i);
    lemma_solid_after(s, i + 1);
    if is_open(c) {
        assert(p == a);
        lemma_lex_succ(t, a);
        assert forall|k: int| a + 1 <= k < b implies t[k] == ' ' || t[k] == '\n' by {
            assert(t[a + (k - a)] == piece(s, i)[k - a]);
        }
        lemma_skip_run(t, a + 1, b);
    } else {
        assert(p == b - 1);
        assert forall|k: int| a <= k < b - 1 implies t[k] == ' ' || t[k] == '\n' by {
            assert(t[a + (k - a)] == piece(s, i)[k - a]);
        }
        lemma_skip_run(t, a, b - 1);
        let gap = t.subrange(a, p);
        assert(t.take(p) =~= pieces(s, i) + gap);
        lemma_nesting_blank(pieces(s, i), gap);
    }
    i
}

/// In pretty-printed text an opening bracket ends its line, and the next line begins with two
/// spaces for each container that is open, its own among them, however many those are. Where the
/// container is empty, the closing bracket follows at once.
pub proof fn law_open_bracket_ends_the_line(s: Seq<char>, p: int)
    requires
        outside(pretty(s), p),
        pretty(s)[p] == '{' || pretty(s)[p] == '[',
    ensures
        forall|q: int| empty_pair(pretty(s), p, q) ==> q == p + 1,
        (forall|q: int| !empty_pair(pretty(s), p, q)) ==> line_begins(
            pretty(s),
            p,
            2 * nesting(pretty(s).take(p + 1)),
        ),
{
    let t = pretty(s);
    let i = lemma_bracket_owner(s, p);
    lemma_opens_empty(t, p);
    lemma_last_solid_succ(s, i);
    lemma_first_solid_succ(s, i);
    lemma_lex_unclosed(s, i + 1);
    if opens_empty(s, i) {
        lemma_closer_next(s, i + 1, s[i]);
        assert(t[p + 1] == closer(s[i]));
        assert forall|q: int| empty_pair(t, p, q) implies q == p + 1 by {
            if q != p + 1 {
                assert(is_gap(t[p + 1]));
            }
        }
    } else {
        lemma_nesting_depth(s, i + 1);
        lemma_line_behind(s, i, depth(s, i) + 1);
    }
}

/// In pretty-printed text a closing bracket is the first thing on its line, behind two spaces for
/// each container that is still open, however many those are. Where the container is empty, it
/// stands right behind the opening bracket.
pub proof fn law_close_bracket_begins_its_line(s: Seq<char>, p: int)
    requires
        outside(pretty(s), p),
        pretty(s)[p] == '}' || pretty(s)[p] == ']',
    ensures
        forall|q: int| empty_pair(pretty(s), q, p) ==> q == p - 1,
        (forall|q: int| !empty_pair(pretty(s), q, p)) ==> begins_line(
            pretty(s),
            p,
            2 * nesting(pretty(s).take(p + 1)),
        ),
{
    let t = pretty(s);
    let i = lemma_bracket_owner(s, p);
    let a = begin(s, i);
    lemma_closes_empty(t, p);
    lemma_last_solid_succ(s, i);
    lemma_lex_unclosed(s, i);
    lemma_lex_unclosed(s, i + 1);
    if closes_empty(s, i) {
        assert forall|q: int| empty_pair(t, q, p) implies q == p - 1 by {
            lemma_empty_pair_is_close(s, q, p);
        }
    } else {
        let d = shallower(depth(s, i));
        lemma_nesting_depth(s, i + 1);
        lemma_pretty_at(s, i);
        assert(t[a + 0] == piece(s, i)[0]);
        assert forall|k: int| p - 2 * d <= k < p implies #[trigger] t[k] == ' ' by {
            assert(t[a + (k - a)] == piece(s, i)[k - a]);
        }
    }
}

/// The brackets of an empty container stand side by side.
proof fn lemma_empty_pair_is_close(s: Seq<char>, q: int, p: int)
    requires
        outside(pretty(s), p),
        empty_pair(pretty(s), q, p),
    ensures
        q == p - 1,
{
    let t = pretty(s);
    lemma_gap_unclosed(t, q, p);
    law_open_bracket_ends_the_line(s, q);
}

/// A string literal that is not open behind white space was not open before it.
proof fn lemma_gap_unclosed(t: Seq<char>, q: int, p: int)
    requires
        0 <= q < p <= t.len(),
        t[q] != '"',
        forall|k: int| q < k < p ==> is_gap(#[trigger] t[k]),
        !unclosed(t.take(p)),
    ensures
        !unclosed(t.take(q)),
    decreases p - q,
{
    assert(t.take(p).drop_last() =~= t.take(p - 1));
    if q < p - 1 {
        assert(is_gap(t[p - 1]));
        lemma_gap_unclosed(t, q, p - 1);
    }
}

/// In pretty-printed text a colon outside string literals is followed by one space.
pub proof fn law_one_space_behind_colon(s: Seq<char>, p: int)
    requires
        outside(pretty(s), p),
        pretty(s)[p] == ':',
    ensures
        p + 1 < pretty(s).len(),
        pretty(s)[p + 1] == ' ',
        p + 2 < pretty(s).len() ==> pretty(s)[p + 2] != ' ',
{
    let i = lemma_outside_owner(s, p);
    lemma_break_blank(depth(s, i));
    lemma_break_blank(depth(s, i) + 1);
    lemma_break_blank(shallower(depth(s, i)));
    assert(s[i] == ':' && p == begin(s, i));
    lemma_pretty_at(s, i);
    lemma_no_space_next(s, i + 1);
    assert(pretty(s)[begin(s, i) + 1] == piece(s, i)[1]);
}

/// Whether a line break at `p` is owed: behind a comma or an opening bracket, or before a closing
/// bracket.
pub open spec fn break_is_owed(t: Seq<char>, p: int) -> bool {
    ||| p > 0 && (t[p - 1] == ',' || t[p - 1] == '{' || t[p - 1] == '[')
    ||| exists|q: int|
        p < q < t.len() && (#[trigger] t[q] == '}' || t[q] == ']') && (forall|k: int|
            p < k < q ==> #[trigger] t[k] == ' ')
}

/// Whether a space at `p` is owed: behind a colon, or at the beginning of a line.
pub open spec fn space_is_owed(t: Seq<char>, p: int) -> bool {
    ||| p > 0 && t[p - 1] == ':'
    ||| exists|q: int|
        0 <= q < p && #[trigger] t[q] == '\n' && (forall|k: int|
            q < k < p ==> #[trigger] t[k] == ' ')
}

/// Pretty-printed text has no white space outside string literals but the line breaks behind
/// commas and opening and before closing brackets, the indentation of lines, and the spaces behind
/// colons (and form feeds of the text).
pub proof fn law_no_other_space(s: Seq<char>, p: int)
    requires
        outside(pretty(s), p),
    ensures
        pretty(s)[p] != '\t' && pretty(s)[p] != '\r',
        pretty(s)[p] == '\n' ==> break_is_owed(pretty(s), p),
        pretty(s)[p] == ' ' ==> space_is_owed(pretty(s), p),
{
    let t = pretty(s);
    let i = lemma_outside_owner(s, p);
    let a = begin(s, i);
    let b = begin(s, i + 1);
    let c = s[i];
    let d = depth(s, i);
    lemma_break_blank(d);
    lemma_break_blank(d + 1);
    lemma_break_blank(shallower(d));
    lemma_pretty_at(s, i);
    if t[p] == '\n' || t[p] == ' ' {
        if is_open(c) || c == ',' {
            assert(t[a + 0] == piece(s, i)[0]);
            assert(p > a);
            assert(t[a + 1] == piece(s, i)[1]);
            if t[p] == ' ' {
                assert(t[a + 1] == '\n');
                assert forall|k: int| a + 1 < k < p implies #[trigger] t[k] == ' ' by {
                    assert(t[a + (k - a)] == piece(s, i)[k - a]);
                }
            } else {
                assert(p == a + 1);
            }
        } else if is_close(c) {
            assert(t[a + (b - 1 - a)] == piece(s, i)[b - 1 - a]);
            assert(t[a + 0] == piece(s, i)[0]);
            assert forall|k: int| a < k < b - 1 implies #[trigger] t[k] == ' ' by {
                assert(t[a + (k - a)] == piece(s, i)[k - a]);
            }
            assert(t[b - 1] == c);
            if t[p] == '\n' {
                assert(p == a);
            }
        } else {
            assert(c == ':');
            assert(t[a + 0] == piece(s, i)[0]);
            assert(p == a + 1);
        }
    }
}

/// Whether `i` lies in an empty container.
pub open spec fn in_empty_pair(x: Seq<char>, i: int) -> bool {
    exists|p: int, q: int| #[trigger] empty_pair(x, p, q) && outside(x, p) && p < i < q
}

/// The first `i` characters without the spaces, tabs, carriage returns and line feeds that stand
/// outside string literals, and without the form feeds in empty containers.
pub open spec fn kept_text(x: Seq<char>, i: int) -> Seq<char>
    decreases i,
{
    if i <= 0 {
        seq![]
    } else {
        let c = x[i - 1];
        let head = kept_text(x, i - 1);
        if unclosed(x.take(i - 1)) {
            head.push(c)
        } else if c == ' ' || c == '\t' || c == '\r' || c == '\n' {
            head
        } else if c == '\x0C' && in_empty_pair(x, i - 1) {
            head
        } else {
            head.push(c)
        }
    }
}

proof fn lemma_in_empty_pair(x: Seq<char>, i: int)
    requires
        0 <= i < x.len(),
        is_gap(x[i]),
        !unclosed(x.take(i)),
    ensures
        in_empty_pair(x, i) == within_empty(x, i),
{
    let a = x.take(i);
    let b = x.skip(i);
    if within_empty(x, i) {
        let p = lemma_last_solid_found(a);
        let j = lemma_first_solid_found(b);
        let q = i + j;
        assert(b[j] == x[q]);
        assert(a[p] == x[p]);
        assert(b[0] == x[i]);
        assert forall|k: int| p < k < q implies is_gap(#[trigger] x[k]) by {
            if k < i {
                assert(is_gap(a[k]));
            } else {
                assert(is_gap(b[k - i]));
            }
        }
        assert(empty_pair(x, p, q));
        lemma_gap_unclosed(x, p, i);
        assert(outside(x, p));
        assert(i < q);
    }
    if in_empty_pair(x, i) {
        let (p, q) = choose|p: int, q: int| #[trigger]
            empty_pair(x, p, q) && outside(x, p) && p < i < q;
        assert forall|k: int| p < k < a.len() implies is_gap(#[trigger] a[k]) by {
            assert(is_gap(x[k]));
        }
        lemma_last_solid_place(a, p);
        assert forall|k: int| 0 <= k < q - i implies is_gap(#[trigger] b[k]) by {
            assert(is_gap(x[i + k]));
        }
        lemma_first_solid_place(b, q - i);
    }
}

proof fn lemma_kept_run(t: Seq<char>, a: int, b: int)
    requires
        0 <= a <= b <= t.len(),
        !unclosed(t.take(a)),
        forall|k: int| a <= k < b ==> t[k] == ' ' || t[k] == '\n',
    ensures
        kept_text(t, b) == kept_text(t, a),
        !unclosed(t.take(b)),
    decreases b - a,
{
    if a < b {
        lemma_kept_run(t, a, b - 1);
        assert(t.take(b).drop_last() =~= t.take(b - 1));
    }
}

proof fn lemma_kept(s: Seq<char>, i: int)
    requires
        0 <= i <= s.len(),
    ensures
        kept_text(pretty(s), begin(s, i)) == kept_text(s, i),
    decreases i,
{
    let t = pretty(s);
    if i > 0 {
        let j = i - 1;
        let a = begin(s, j);
        let b = begin(s, i);
        let c = s[j];
        let d = depth(s, j);
        lemma_kept(s, j);
        lemma_pretty_at(s, j);
        lemma_nesting_pieces(s, j);
        lemma_lex_unclosed(s, j);
        lemma_escaped_in_string(s, j);
        lemma_break_blank(d);
        lemma_break_blank(d + 1);
        lemma_break_blank(shallower(d));
        assert(unclosed(t.take(a)) == unclosed(s.take(j)));
        if structural(s, j) && is_close(c) {
            assert forall|k: int| a <= k < b - 1 implies t[k] == ' ' || t[k] == '\n' by {
                assert(t[a + (k - a)] == piece(s, j)[k - a]);
            }
            lemma_kept_run(t, a, b - 1);
            assert(t[a + (b - 1 - a)] == piece(s, j)[b - 1 - a]);
            assert(t[b - 1] == c);
        } else if piece(s, j).len() > 0 {
            assert(t[a + 0] == piece(s, j)[0]);
            assert(t[a] == c);
            if structural(s, j) {
                if c == '\x0C' {
                    lemma_in_empty_pair(s, j);
                    lemma_in_empty_pair(t, a);
                    lemma_solid_before(s, j);
                    lemma_solid_after(s, j);
                    assert(within_empty(t, a) == within_empty(s, j));
                }
                assert(t.take(a + 1).drop_last() =~= t.take(a));
                assert forall|k: int| a + 1 <= k < b implies t[k] == ' ' || t[k] == '\n' by {
                    assert(t[a + (k - a)] == piece(s, j)[k - a]);
                }
                lemma_kept_run(t, a + 1, b);
            }
            assert(kept_text(t, a + 1) == kept_text(s, i));
        } else if c == '\x0C' {
            lemma_in_empty_pair(s, j);
        }
    }
}

/// Pretty-printing keeps every character of the text, in order, but spaces, tabs, carriage returns
/// and line feeds outside string literals, and form feeds in empty containers; and it adds no other
/// than those.
pub proof fn law_pretty_keeps_every_character(s: Seq<char>)
    ensures
        kept_text(pretty(s), pretty(s).len() as int) == kept_text(s, s.len() as int),
{
    lemma_kept(s, s.len() as int);
}

} // verus!
