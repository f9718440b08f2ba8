//! Recognising and pretty-printing JSON text.

use vstd::prelude::*;

use crate::text::{ascii_space, is_ascii_space, spaces, to_chars, trim, trimmed};

verus! {

/// Whether a text, the whitespace around it aside, begins and ends as a JSON object or array does.
pub open spec fn looks_like(s: Seq<char>) -> bool {
    let t = trimmed(s);
    t.len() > 0 && ((t[0] == '{' && t.last() == '}') || (t[0] == '[' && t.last() == ']'))
}

/// Tests whether a text begins and ends as a JSON object or array does.
pub fn looks_like_json(s: &str) -> (r: bool)
    ensures
        r == looks_like(s@),
{
    let text: String = trim(s);
    let t: Vec<char> = to_chars(&text);
    if t.len() == 0 {
        return false;
    }
    let first: char = t[0];
    let last: char = t[t.len() - 1];
    (first == '{' && last == '}') || (first == '[' && last == ']')
}

/// Where a scan of the text stands: inside a string literal, and right after a backslash in one.
pub struct Lex {
    pub in_string: bool,
    pub escaped: bool,
}

/// The state before the first character.
pub open spec fn lex_start() -> Lex {
    Lex { in_string: false, escaped: false }
}

/// The state after one more character: a backslash in a string protects the character behind it,
/// and an unprotected quote opens or closes a string.
pub open spec fn lex_step(l: Lex, c: char) -> Lex {
    if l.escaped {
        Lex { escaped: false, ..l }
    } else if c == '\\' && l.in_string {
        Lex { escaped: true, ..l }
    } else if c == '"' {
        Lex { in_string: !l.in_string, ..l }
    } else {
        l
    }
}

/// The state after the text `s`, read from the state `l`.
pub open spec fn lex_from(l: Lex, s: Seq<char>) -> Lex
    decreases s.len(),
{
    if s.len() == 0 {
        l
    } else {
        lex_step(lex_from(l, s.drop_last()), s.last())
    }
}

/// The state before the character at `i`.
pub open spec fn lex_at(s: Seq<char>, i: int) -> Lex {
    lex_from(lex_start(), s.take(i))
}

/// Whether the character at `i` stands outside every string literal; the quotes that delimit a
/// literal belong to it.
pub open spec fn structural(s: Seq<char>, i: int) -> bool {
    !lex_at(s, i).in_string && s[i] != '"'
}

pub open spec fn is_open(c: char) -> bool {
    c == '{' || c == '['
}

pub open spec fn is_close(c: char) -> bool {
    c == '}' || c == ']'
}

/// The bracket that closes `c`.
pub open spec fn closer(c: char) -> char {
    if c == '{' {
        '}'
    } else {
        ']'
    }
}

/// The bracket that opens what `c` closes.
pub open spec fn opener(c: char) -> char {
    if c == '}' {
        '{'
    } else {
        '['
    }
}

/// The first character that is no ASCII whitespace.
pub open spec fn first_solid(s: Seq<char>) -> Option<char>
    decreases s.len(),
{
    if s.len() == 0 {
        None
    } else if !is_ascii_space(s[0]) {
        Some(s[0])
    } else {
        first_solid(s.drop_first())
    }
}

/// The last character that is no ASCII whitespace.
pub open spec fn last_solid(s: Seq<char>) -> Option<char>
    decreases s.len(),
{
    if s.len() == 0 {
        None
    } else if !is_ascii_space(s.last()) {
        Some(s.last())
    } else {
        last_solid(s.drop_last())
    }
}

/// Whether the bracket at `i` opens a container with nothing but whitespace in it.
pub open spec fn opens_empty(s: Seq<char>, i: int) -> bool {
    is_open(s[i]) && first_solid(s.skip(i + 1)) == Some(closer(s[i]))
}

/// Whether the bracket at `i` closes a container with nothing but whitespace in it.
pub open spec fn closes_empty(s: Seq<char>, i: int) -> bool {
    is_close(s[i]) && last_solid(s.take(i)) == Some(opener(s[i]))
}

/// Whether position `i` lies in a stretch of whitespace between two brackets that match.
pub open spec fn within_empty(s: Seq<char>, i: int) -> bool {
    match last_solid(s.take(i)) {
        Some(c) => is_open(c) && first_solid(s.skip(i)) == Some(closer(c)),
        None => false,
    }
}

/// How deep the character at `i` is nested: brackets of empty containers do not count, and a
/// closing bracket too many leaves the depth at zero.
pub open spec fn depth(s: Seq<char>, i: int) -> nat
    decreases i,
{
    if i <= 0 {
        0
    } else {
        let d = depth(s, i - 1);
        if !structural(s, i - 1) {
            d
        } else if is_open(s[i - 1]) && !opens_empty(s, i - 1) {
            d + 1
        } else if is_close(s[i - 1]) && !closes_empty(s, i - 1) {
            shallower(d)
        } else {
            d
        }
    }
}

/// One level up, or the outermost level.
pub open spec fn shallower(d: nat) -> nat {
    if d == 0 {
        0
    } else {
        (d - 1) as nat
    }
}

/// A line break followed by the indentation for a depth: two spaces for each level.
pub open spec fn break_to(d: nat) -> Seq<char> {
    seq!['\n'] + spaces(2 * d)
}

/// What the character at `i` turns into.
///
/// - Inside a string literal it stays as it is.
/// - An opening bracket is followed by a line break, a closing one preceded by one, unless the
///   container is empty.
/// - A comma is followed by a line break, a colon by a space.
/// - Space, tab, carriage return and line feed vanish, and so does a form feed in an empty
///   container. Anything else stays as it is.
pub open spec fn piece(s: Seq<char>, i: int) -> Seq<char> {
    let c = s[i];
    let d = depth(s, i);
    if !structural(s, i) {
        seq![c]
    } else if is_open(c) {
        if opens_empty(s, i) {
            seq![c]
        } else {
            seq![c] + break_to(d + 1)
        }
    } else if is_close(c) {
        if closes_empty(s, i) {
            seq![c]
        } else {
            break_to(shallower(d)) + seq![c]
        }
    } else if c == ',' {
        seq![c] + break_to(d)
    } else if c == ':' {
        seq![c, ' ']
    } else if c == ' ' || c == '\t' || c == '\r' || c == '\n' {
        seq![]
    } else if c == '\x0C' && within_empty(s, i) {
        seq![]
    } else {
        seq![c]
    }
}

/// The pieces of the first `i` characters, one after another.
pub open spec fn pieces(s: Seq<char>, i: int) -> Seq<char>
    decreases i,
{
    if i <= 0 {
        seq![]
    } else {
        pieces(s, i - 1) + piece(s, i - 1)
    }
}

/// The pretty-printed text.
pub open spec fn pretty(s: Seq<char>) -> Seq<char> {
    pieces(s, s.len() as int)
}

/// The form feeds that wait at the end of the text while it is built: those of an empty container
/// whose closing bracket is still to come.
spec fn held(s: Seq<char>, i: int) -> Seq<char>
    decreases i,
{
    if i <= 0 || !is_ascii_space(s[i - 1]) || lex_at(s, i - 1).in_string {
        seq![]
    } else if s[i - 1] == '\x0C' && within_empty(s, i - 1) {
        held(s, i - 1).push('\x0C')
    } else {
        held(s, i - 1)
    }
}

/// The scan state one character further on.
pub(crate) proof fn lemma_lex_succ(s: Seq<char>, i: int)
    requires
        0 <= i < s.len(),
    ensures
        lex_at(s, i + 1) == lex_step(lex_at(s, i), s[i]),
{
    assert(s.take(i + 1).drop_last() =~= s.take(i));
}

/// Only a character in a string can be protected.
pub(crate) proof fn lemma_escaped_in_string(s: Seq<char>, i: int)
    requires
        0 <= i <= s.len(),
    ensures
        lex_at(s, i).escaped ==> lex_at(s, i).in_string,
    decreases i,
{
    if i > 0 {
        lemma_escaped_in_string(s, i - 1);
        lemma_lex_succ(s, i - 1);
    }
}

pub(crate) proof fn lemma_last_solid_succ(s: Seq<char>, i: int)
    requires
        0 <= i < s.len(),
    ensures
        last_solid(s.take(i + 1)) == if is_ascii_space(s[i]) {
            last_solid(s.take(i))
        } else {
            Some(s[i])
        },
{
    assert(s.take(i + 1).drop_last() =~= s.take(i));
}

pub(crate) proof fn lemma_first_solid_succ(s: Seq<char>, i: int)
    requires
        0 <= i < s.len(),
    ensures
        first_solid(s.skip(i)) == if is_ascii_space(s[i]) {
            first_solid(s.skip(i + 1))
        } else {
            Some(s[i])
        },
{
    assert(s.skip(i).drop_first() =~= s.skip(i + 1));
}

/// Up to a place in an empty container, the text ends in the bracket that opens the container.
proof fn lemma_within_empty_ends_open(s: Seq<char>, i: int)
    requires
        0 <= i <= s.len(),
        within_empty(s, i),
        !lex_at(s, i).in_string,
    ensures
        pieces(s, i).len() > 0,
        is_open(pieces(s, i).last()),
    decreases i,
{
    if i > 0 {
        lemma_lex_succ(s, i - 1);
        lemma_escaped_in_string(s, i - 1);
        lemma_last_solid_succ(s, i - 1);
        lemma_first_solid_succ(s, i - 1);
        if is_ascii_space(s[i - 1]) {
            lemma_within_empty_ends_open(s, i - 1);
        } else {
            assert(structural(s, i - 1));
            assert(opens_empty(s, i - 1));
        }
        assert(pieces(s, i) =~= pieces(s, i - 1) + piece(s, i - 1));
    }
}

/// Form feeds wait only at a place in an empty container.
proof fn lemma_held(s: Seq<char>, i: int)
    requires
        0 <= i <= s.len(),
    ensures
        forall|k: int| 0 <= k < held(s, i).len() ==> held(s, i)[k] == '\x0C',
        held(s, i).len() > 0 ==> within_empty(s, i) && !lex_at(s, i).in_string,
    decreases i,
{
    if i > 0 {
        lemma_held(s, i - 1);
        lemma_lex_succ(s, i - 1);
        lemma_escaped_in_string(s, i - 1);
        lemma_last_solid_succ(s, i - 1);
        lemma_first_solid_succ(s, i - 1);
        let h = held(s, i - 1);
        assert(held(s, i) == h || held(s, i) == h.push('\x0C') || held(s, i).len() == 0);
    }
}

/// Nothing waits before a character that is no whitespace, unless it closes an empty container.
proof fn lemma_held_released(s: Seq<char>, i: int)
    requires
        0 <= i < s.len(),
    ensures
        held(s, i).len() > 0 ==> is_ascii_space(s[i]) || (structural(s, i) && closes_empty(s, i)),
        lex_at(s, i).in_string ==> held(s, i).len() == 0,
{
    lemma_held(s, i);
    lemma_first_solid_succ(s, i);
}

/// Appends the indentation for a depth: two spaces for each level.
pub fn push_indent(s: &mut String, level: usize)
    ensures
        final(s)@ == old(s)@ + spaces(2 * level as nat),
{
    let mut k: usize = 0;
    assert(s@ =~= old(s)@ + spaces(0));
    while k < level
        invariant
            k <= level,
            s@ == old(s)@ + spaces(2 * k as nat),
        decreases level - k,
    {
        s.push(' ');
        s.push(' ');
        assert(s@ =~= old(s)@ + spaces(2 * (k + 1) as nat));
        k = k + 1;
    }
}

/// The first character from `from` on that is no ASCII whitespace.
fn solid_from(chars: &Vec<char>, from: usize) -> (r: Option<char>)
    requires
        from <= chars@.len(),
    ensures
        r == first_solid(chars@.skip(from as int)),
{
    let mut k: usize = from;
    while k < chars.len()
        invariant
            from <= k <= chars@.len(),
            first_solid(chars@.skip(from as int)) == first_solid(chars@.skip(k as int)),
        decreases chars@.len() - k,
    {
        proof {
            lemma_first_solid_succ(chars@, k as int);
        }
        if !ascii_space(chars[k]) {
            return Some(chars[k]);
        }
        k = k + 1;
    }
    None
}

/// Takes the whitespace off the end of a string.
fn pop_spaces(s: &mut String, Ghost(kept): Ghost<Seq<char>>, Ghost(tail): Ghost<Seq<char>>)
    requires
        old(s)@ == kept + tail,
        kept.len() > 0,
        !is_ascii_space(kept.last()),
        forall|k: int| 0 <= k < tail.len() ==> is_ascii_space(tail[k]),
    ensures
        final(s)@ == kept,
{
    let ghost mut n = tail.len();
    assert(s@ =~= kept + tail.take(n as int));
    loop
        invariant
            n <= tail.len(),
            s@ == kept + tail.take(n as int),
            kept.len() > 0,
            !is_ascii_space(kept.last()),
            forall|k: int| 0 <= k < tail.len() ==> is_ascii_space(tail[k]),
        decreases n,
    {
        let ghost before = s@;
        match s.pop() {
            Some(c) => {
                if !ascii_space(c) {
                    s.push(c);
                    proof {
                        if n > 0 {
                            assert(before.last() == tail[n - 1]);
                        }
                        assert(s@ =~= before);
                        assert(s@ =~= kept);
                    }
                    return ;
                }
                proof {
                    if n == 0 {
                        assert(before.last() == kept.last());
                    }
                    assert(before.drop_last() =~= kept + tail.take(n - 1));
                    n = (n - 1) as nat;
                }
            },
            None => {
                return ;
            },
        }
    }
}

/// Lays JSON text out over indented lines.
#[verifier::rlimit(40)]
pub fn pretty_print_json(input: &str) -> (r: String)
    ensures
        r@ == pretty(input@),
{
    let chars: Vec<char> = to_chars(input);
    let ghost s = input@;
    let mut out: String = String::new();
    let mut indent: usize = 0;
    let mut in_string: bool = false;
    let mut escape_next: bool = false;
    let mut last: Option<char> = None;
    let mut i: usize = 0;
    proof {
        assert(s.take(0) =~= seq![]);
        assert(out@ =~= pieces(s, 0) + held(s, 0));
    }
    while i < chars.len()
        invariant
            i <= chars@.len(),
            chars@ == s,
            out@ == pieces(s, i as int) + held(s, i as int),
            indent == depth(s, i as int),
            indent <= i,
            lex_at(s, i as int) == (Lex { in_string, escaped: escape_next }),
            last == last_solid(s.take(i as int)),
        decreases chars@.len() - i,
    {
        let c: char = chars[i];
        let ghost p = pieces(s, i as int);
        let ghost h = held(s, i as int);
        proof {
            lemma_lex_succ(s, i as int);
            lemma_escaped_in_string(s, i as int);
            lemma_last_solid_succ(s, i as int);
            lemma_first_solid_succ(s, i as int);
            lemma_held(s, i as int);
            lemma_held_released(s, i as int);
        }
        if in_string || c == '"' {
            out.push(c);
            if escape_next {
                escape_next = false;
            } else if c == '\\' && in_string {
                escape_next = true;
            } else if c == '"' {
                in_string = !in_string;
            }
            assert(out@ =~= p + piece(s, i as int));
        } else if c == '{' || c == '[' {
            out.push(c);
            let close: char = if c == '{' {
                '}'
            } else {
                ']'
            };
            let next: Option<char> = solid_from(&chars, i + 1);
            let empty: bool = match next {
                Some(n) => n == close,
                None => false,
            };
            if !empty {
                indent = indent + 1;
                out.push('\n');
                push_indent(&mut out, indent);
            }
            assert(out@ =~= p + piece(s, i as int));
        } else if c == '}' || c == ']' {
            let open: char = if c == '}' {
                '{'
            } else {
                '['
            };
            let empty: bool = match last {
                Some(l) => l == open,
                None => false,
            };
            if empty {
                proof {
                    lemma_within_empty_ends_open(s, i as int);
                }
                pop_spaces(&mut out, Ghost(p), Ghost(h));
                out.push(c);
            } else {
                indent = if indent > 0 {
                    indent - 1
                } else {
                    0
                };
                out.push('\n');
                push_indent(&mut out, indent);
                out.push(c);
            }
            assert(out@ =~= p + piece(s, i as int));
        } else if c == ',' {
            out.push(',');
            out.push('\n');
            push_indent(&mut out, indent);
            assert(out@ =~= p + piece(s, i as int));
        } else if c == ':' {
            out.push(':');
            out.push(' ');
            assert(out@ =~= p + piece(s, i as int));
        } else if c == ' ' || c == '\t' || c == '\r' || c == '\n' {
            assert(p + piece(s, i as int) =~= p);
        } else {
            out.push(c);
            assert(out@ =~= p + piece(s, i as int) + held(s, i + 1));
        }
        if !ascii_space(c) {
            last = Some(c);
        }
        proof {
            assert(pieces(s, i + 1) == p + piece(s, i as int));
            assert(out@ =~= pieces(s, i + 1) + held(s, i + 1));
        }
        i = i + 1;
    }
    proof {
        let n = s.len() as int;
        lemma_held(s, n);
        assert(s.skip(n) =~= seq![]);
        assert(out@ =~= pieces(s, n));
    }
    out
}

} // verus!
