//! What holds of pretty-printing as a whole: it changes nothing but the whitespace between the
//! parts of the text, and doing it twice is doing it once.

use vstd::prelude::*;

use crate::json::{
    break_to, closes_empty, depth, first_solid, is_close, is_open, last_solid,
    lemma_escaped_in_string, lemma_first_solid_succ, lemma_last_solid_succ, lemma_lex_succ,
    lex_at, lex_from, lex_start, lex_step, opens_empty, piece, pieces, pretty, shallower,
    structural, within_empty, Lex,
};
use crate::text::is_ascii_space;

verus! {

/// The text `s`, read from the scan state `l`, without the whitespace that stands outside string
/// literals.
pub open spec fn compact_from(l: Lex, s: Seq<char>) -> Seq<char>
    decreases s.len(),
{
    if s.len() == 0 {
        seq![]
    } else {
        let head = compact_from(l, s.drop_last());
        if !lex_from(l, s.drop_last()).in_string && is_ascii_space(s.last()) {
            head
        } else {
            head.push(s.last())
        }
    }
}

/// The text without the whitespace that stands outside string literals.
pub open spec fn compact(s: Seq<char>) -> Seq<char> {
    compact_from(lex_start(), s)
}

pub open spec fn blank(s: Seq<char>) -> bool {
    forall|k: int| 0 <= k < s.len() ==> is_ascii_space(s[k])
}

pub(crate) proof fn lemma_break_blank(d: nat)
    ensures
        blank(break_to(d)),
        forall|k: int|
            0 <= k < break_to(d).len() ==> break_to(d)[k] == ' ' || break_to(d)[k] == '\n',
{
}

proof fn lemma_scan_concat(l: Lex, a: Seq<char>, b: Seq<char>)
    ensures
        lex_from(l, a + b) == lex_from(lex_from(l, a), b),
        compact_from(l, a + b) == compact_from(l, a) + compact_from(lex_from(l, a), b),
    decreases b.len(),
{
    if b.len() == 0 {
        assert(a + b =~= a);
        assert(compact_from(l, a) =~= compact_from(l, a) + compact_from(lex_from(l, a), b));
    } else {
        lemma_scan_concat(l, a, b.drop_last());
        assert((a + b).drop_last() =~= a + b.drop_last());
        assert((a + b).last() == b.last());
        assert(compact_from(l, a + b) =~= compact_from(l, a) + compact_from(lex_from(l, a), b));
    }
}

/// Whitespace outside string literals leaves no trace.
proof fn lemma_scan_blank(l: Lex, s: Seq<char>)
    requires
        !l.in_string,
        !l.escaped,
        blank(s),
    ensures
        lex_from(l, s) == l,
        compact_from(l, s) == Seq::<char>::empty(),
    decreases s.len(),
{
    if s.len() > 0 {
        lemma_scan_blank(l, s.drop_last());
    }
}

proof fn lemma_scan_one(l: Lex, c: char)
    ensures
        lex_from(l, seq![c]) == lex_step(l, c),
        compact_from(l, seq![c]) == if !l.in_string && is_ascii_space(c) {
            Seq::<char>::empty()
        } else {
            seq![c]
        },
{
    let s = seq![c];
    assert(s.drop_last() =~= seq![]);
    assert(s.last() == c);
    assert(lex_from(l, s.drop_last()) == l);
    assert(compact_from(l, s.drop_last()) =~= seq![]);
    assert(compact_from(l, s) =~= if !l.in_string && is_ascii_space(c) {
        Seq::<char>::empty()
    } else {
        seq![c]
    });
}

/// Scanning a piece does what scanning its character does.
proof fn lemma_scan_piece(s: Seq<char>, i: int)
    requires
        0 <= i < s.len(),
    ensures
        lex_from(lex_at(s, i), piece(s, i)) == lex_at(s, i + 1),
        compact_from(lex_at(s, i), piece(s, i)) == compact_from(lex_at(s, i), seq![s[i]]),
{
    let l = lex_at(s, i);
    let c = s[i];
    let d = depth(s, i);
    lemma_lex_succ(s, i);
    lemma_escaped_in_string(s, i);
    lemma_scan_one(l, c);
    lemma_break_blank(d);
    lemma_break_blank(d + 1);
    lemma_break_blank(shallower(d));
    if structural(s, i) {
        if is_open(c) || c == ',' {
            let b = if is_open(c) {
                break_to(d + 1)
            } else {
                break_to(d)
            };
            lemma_scan_concat(l, seq![c], b);
            lemma_scan_blank(l, b);
            assert(compact_from(l, seq![c] + b) =~= seq![c]);
        } else if is_close(c) {
            let b = break_to(shallower(d));
            lemma_scan_blank(l, b);
            lemma_scan_concat(l, b, seq![c]);
            assert(compact_from(l, b + seq![c]) =~= seq![c]);
        } else if c == ':' {
            lemma_scan_blank(l, seq![' ']);
            lemma_scan_concat(l, seq![c], seq![' ']);
            assert(seq![c, ' '] =~= seq![c] + seq![' ']);
            assert(compact_from(l, seq![c, ' ']) =~= seq![c]);
        }
    }
}

pub(crate) proof fn lemma_scan_pieces(s: Seq<char>, i: int)
    requires
        0 <= i <= s.len(),
    ensures
        lex_from(lex_start(), pieces(s, i)) == lex_at(s, i),
        compact(pieces(s, i)) == compact(s.take(i)),
    decreases i,
{
    if i > 0 {
        lemma_scan_pieces(s, i - 1);
        lemma_scan_piece(s, i - 1);
        lemma_scan_concat(lex_start(), pieces(s, i - 1), piece(s, i - 1));
        lemma_scan_concat(lex_start(), s.take(i - 1), seq![s[i - 1]]);
        assert(s.take(i) =~= s.take(i - 1) + seq![s[i - 1]]);
    }
}

/// Pretty-printing keeps the content: with the whitespace outside string literals left out, the
/// result reads as the text did.
pub proof fn law_pretty_keeps_content(s: Seq<char>)
    ensures
        compact(pretty(s)) == compact(s),
{
    lemma_scan_pieces(s, s.len() as int);
    assert(s.take(s.len() as int) =~= s);
}

/// The pieces of a longer stretch begin with those of a shorter one.
proof fn lemma_pieces_prefix(s: Seq<char>, i: int, j: int)
    requires
        0 <= i <= j <= s.len(),
    ensures
        pieces(s, i).len() <= pieces(s, j).len(),
        pieces(s, j).take(pieces(s, i).len() as int) == pieces(s, i),
    decreases j - i,
{
    if i == j {
        assert(pieces(s, j).take(pieces(s, i).len() as int) =~= pieces(s, i));
    } else {
        lemma_pieces_prefix(s, i, j - 1);
        let n = pieces(s, i).len() as int;
        assert(pieces(s, j).take(n) =~= pieces(s, j - 1).take(n));
    }
}

/// Where the piece of the character at `i` begins in the pretty-printed text.
pub open spec fn begin(s: Seq<char>, i: int) -> int {
    pieces(s, i).len() as int
}

/// The pretty-printed text around the place of the character at `i`.
pub(crate) proof fn lemma_pretty_at(s: Seq<char>, i: int)
    requires
        0 <= i < s.len(),
    ensures
        0 <= begin(s, i),
        begin(s, i + 1) == begin(s, i) + piece(s, i).len(),
        begin(s, i + 1) <= pretty(s).len(),
        pretty(s).take(begin(s, i)) == pieces(s, i),
        pretty(s).take(begin(s, i + 1)) == pieces(s, i + 1),
        forall|k: int|
            0 <= k < piece(s, i).len() ==> #[trigger] pretty(s)[begin(s, i) + k] == piece(s, i)[k],
{
    let n = s.len() as int;
    lemma_pieces_prefix(s, i, n);
    lemma_pieces_prefix(s, i + 1, n);
    assert forall|k: int| 0 <= k < piece(s, i).len() implies #[trigger] pretty(s)[begin(s, i) + k]
        == piece(s, i)[k] by {
        assert(pretty(s)[begin(s, i) + k] == pretty(s).take(begin(s, i + 1))[begin(s, i) + k]);
    }
}

proof fn lemma_last_solid_concat(a: Seq<char>, b: Seq<char>)
    ensures
        last_solid(a + b) == match last_solid(b) {
            Some(c) => Some(c),
            None => last_solid(a),
        },
    decreases b.len(),
{
    if b.len() == 0 {
        assert(a + b =~= a);
    } else {
        assert((a + b).drop_last() =~= a + b.drop_last());
        assert((a + b).last() == b.last());
        lemma_last_solid_concat(a, b.drop_last());
    }
}

proof fn lemma_first_solid_concat(a: Seq<char>, b: Seq<char>)
    ensures
        first_solid(a + b) == match first_solid(a) {
            Some(c) => Some(c),
            None => first_solid(b),
        },
    decreases a.len(),
{
    if a.len() == 0 {
        assert(a + b =~= b);
    } else {
        assert((a + b).drop_first() =~= a.drop_first() + b);
        assert((a + b)[0] == a[0]);
        lemma_first_solid_concat(a.drop_first(), b);
    }
}

proof fn lemma_solid_blank(s: Seq<char>)
    requires
        blank(s),
    ensures
        first_solid(s) is None,
        last_solid(s) is None,
    decreases s.len(),
{
    if s.len() > 0 {
        let f = s.drop_first();
        let l = s.drop_last();
        lemma_solid_blank(f);
        lemma_solid_blank(l);
    }
}

/// A piece holds no solid character but the one that it was made of.
proof fn lemma_piece_solid(s: Seq<char>, i: int)
    requires
        0 <= i < s.len(),
    ensures
        first_solid(piece(s, i)) == if is_ascii_space(s[i]) {
            None
        } else {
            Some(s[i])
        },
        last_solid(piece(s, i)) == first_solid(piece(s, i)),
{
    let c = s[i];
    let d = depth(s, i);
    let one = seq![c];
    assert(one.drop_first() =~= seq![]);
    assert(one.drop_last() =~= seq![]);
    assert(first_solid(one.drop_first()) is None);
    assert(last_solid(one.drop_last()) is None);
    lemma_break_blank(d);
    lemma_break_blank(d + 1);
    lemma_break_blank(shallower(d));
    if structural(s, i) {
        if is_open(c) || c == ',' {
            let b = if is_open(c) {
                break_to(d + 1)
            } else {
                break_to(d)
            };
            lemma_solid_blank(b);
            lemma_first_solid_concat(one, b);
            lemma_last_solid_concat(one, b);
        } else if is_close(c) {
            let b = break_to(shallower(d));
            lemma_solid_blank(b);
            lemma_first_solid_concat(b, one);
            lemma_last_solid_concat(b, one);
        } else if c == ':' {
            let b = seq![' '];
            lemma_solid_blank(b);
            lemma_first_solid_concat(one, b);
            lemma_last_solid_concat(one, b);
            assert(seq![c, ' '] =~= one + b);
        }
    }
}

/// What lies solid before a place is the same in the text and in its pretty-printed form.
pub(crate) proof fn lemma_solid_before(s: Seq<char>, i: int)
    requires
        0 <= i <= s.len(),
    ensures
        last_solid(pieces(s, i)) == last_solid(s.take(i)),
    decreases i,
{
    if i > 0 {
        lemma_solid_before(s, i - 1);
        lemma_piece_solid(s, i - 1);
        lemma_last_solid_concat(pieces(s, i - 1), piece(s, i - 1));
        lemma_last_solid_succ(s, i - 1);
    }
}

/// What lies solid from a place on is the same in the text and in its pretty-printed form.
pub(crate) proof fn lemma_solid_after(s: Seq<char>, i: int)
    requires
        0 <= i <= s.len(),
    ensures
        first_solid(pretty(s).skip(begin(s, i))) == first_solid(s.skip(i)),
    decreases s.len() - i,
{
    let t = pretty(s);
    if i == s.len() {
        assert(t.skip(begin(s, i)) =~= seq![]);
        assert(s.skip(i) =~= seq![]);
    } else {
        lemma_solid_after(s, i + 1);
        lemma_piece_solid(s, i);
        lemma_pretty_at(s, i);
        lemma_first_solid_succ(s, i);
        let rest = t.skip(begin(s, i + 1));
        lemma_first_solid_concat(piece(s, i), rest);
        let whole = piece(s, i) + rest;
        assert forall|k: int| 0 <= k < whole.len() implies t.skip(begin(s, i))[k] == whole[k] by {
            if k < piece(s, i).len() {
                assert(t[begin(s, i) + k] == piece(s, i)[k]);
            }
        }
        assert(t.skip(begin(s, i)) =~= whole);
    }
}

/// Spaces and line feeds outside string literals add nothing and change nothing.
pub(crate) proof fn lemma_skip_run(t: Seq<char>, a: int, b: int)
    requires
        0 <= a <= b <= t.len(),
        !lex_at(t, a).in_string,
        forall|k: int| a <= k < b ==> t[k] == ' ' || t[k] == '\n',
    ensures
        pieces(t, b) == pieces(t, a),
        depth(t, b) == depth(t, a),
        lex_at(t, b) == lex_at(t, a),
        last_solid(t.take(b)) == last_solid(t.take(a)),
        first_solid(t.skip(a)) == first_solid(t.skip(b)),
    decreases b - a,
{
    if a < b {
        lemma_skip_run(t, a, b - 1);
        lemma_lex_succ(t, b - 1);
        lemma_escaped_in_string(t, b - 1);
        lemma_last_solid_succ(t, b - 1);
        lemma_first_solid_succ(t, b - 1);
        assert(structural(t, b - 1));
        assert(pieces(t, b) =~= pieces(t, b - 1));
    }
}

/// Reading the pretty-printed text up to the piece of a character gives that text back, at the
/// depth of the character.
proof fn lemma_pretty_again(s: Seq<char>, i: int)
    requires
        0 <= i <= s.len(),
    ensures
        pieces(pretty(s), begin(s, i)) == pieces(s, i),
        depth(pretty(s), begin(s, i)) == depth(s, i),
    decreases i,
{
    let t = pretty(s);
    if i > 0 {
        let j = i - 1;
        let a = begin(s, j);
        let b = begin(s, i);
        let c = s[j];
        let d = depth(s, j);
        lemma_pretty_again(s, j);
        lemma_pretty_at(s, j);
        lemma_scan_pieces(s, j);
        lemma_solid_before(s, j);
        lemma_solid_after(s, j);
        lemma_solid_after(s, i);
        lemma_lex_succ(s, j);
        lemma_escaped_in_string(s, j);
        lemma_first_solid_succ(s, j);
        assert(lex_at(t, a) == lex_at(s, j));
        assert(last_solid(t.take(a)) == last_solid(s.take(j)));
        if !structural(s, j) {
            assert(t[a + 0] == c);
            assert(pieces(t, a + 1) =~= pieces(s, i));
        } else if is_open(c) || c == ',' || c == ':' {
            assert(t[a + 0] == c);
            assert(structural(t, a));
            lemma_lex_succ(t, a);
            assert forall|k: int| a + 1 <= k < b implies t[k] == ' ' || t[k] == '\n' by {
                assert(t[a + (k - a)] == piece(s, j)[k - a]);
                lemma_break_blank(d);
                lemma_break_blank(d + 1);
            }
            lemma_skip_run(t, a + 1, b);
            assert(is_open(c) ==> opens_empty(t, a) == opens_empty(s, j));
            assert(piece(t, a) =~= piece(s, j));
            assert(pieces(t, a + 1) =~= pieces(t, a) + piece(t, a));
        } else if is_close(c) {
            assert(t[a + (b - 1 - a)] == piece(s, j)[b - 1 - a]);
            assert(t[b - 1] == c);
            assert forall|k: int| a <= k < b - 1 implies t[k] == ' ' || t[k] == '\n' by {
                assert(t[a + (k - a)] == piece(s, j)[k - a]);
                lemma_break_blank(shallower(d));
            }
            lemma_skip_run(t, a, b - 1);
            assert(structural(t, b - 1));
            assert(closes_empty(t, b - 1) == closes_empty(s, j));
            assert(piece(t, b - 1) =~= piece(s, j));
            assert(pieces(t, b) =~= pieces(t, b - 1) + piece(t, b - 1));
        } else if c == ' ' || c == '\t' || c == '\r' || c == '\n' {
            assert(pieces(s, i) =~= pieces(s, j));
        } else if c == '\x0C' && within_empty(s, j) {
            assert(pieces(s, i) =~= pieces(s, j));
        } else {
            assert(t[a + 0] == c);
            assert(structural(t, a));
            assert(within_empty(t, a) == within_empty(s, j));
            assert(pieces(t, a + 1) =~= pieces(t, a) + piece(t, a));
            assert(pieces(t, a + 1) =~= pieces(s, i));
        }
    }
}

/// Pretty-printing text that was pretty-printed before changes nothing.
pub proof fn law_pretty_twice_is_once(s: Seq<char>)
    ensures
        pretty(pretty(s)) == pretty(s),
{
    lemma_pretty_again(s, s.len() as int);
}

} // verus!
