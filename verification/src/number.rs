//! The grammar of floating-point literals.

use vstd::prelude::*;

use crate::bridge::ascii_lower;
use crate::text::to_chars;

verus! {

pub open spec fn is_digit(c: char) -> bool {
    '0' <= c <= '9'
}

/// One digit or more, and nothing else.
pub open spec fn is_digits(s: Seq<char>) -> bool {
    s.len() > 0 && forall|k: int| 0 <= k < s.len() ==> is_digit(#[trigger] s[k])
}

pub open spec fn is_sign(c: char) -> bool {
    c == '+' || c == '-'
}

/// The text behind a sign that it may begin with.
pub open spec fn unsigned(s: Seq<char>) -> Seq<char> {
    if s.len() > 0 && is_sign(s[0]) {
        s.skip(1)
    } else {
        s
    }
}

/// Digits with a point at `p` among, before or behind them.
pub open spec fn is_pointed(s: Seq<char>, p: int) -> bool {
    &&& 0 <= p < s.len()
    &&& s[p] == '.'
    &&& s.len() >= 2
    &&& forall|k: int| 0 <= k < s.len() && k != p ==> is_digit(#[trigger] s[k])
}

/// Digits, with or without a point.
pub open spec fn is_mantissa(s: Seq<char>) -> bool {
    is_digits(s) || exists|p: int| is_pointed(s, p)
}

/// The letter `e`, a sign that may be missing, and digits.
pub open spec fn is_exponent(s: Seq<char>) -> bool {
    s.len() > 0 && (s[0] == 'e' || s[0] == 'E') && is_digits(unsigned(s.skip(1)))
}

/// Whether the text falls at `e` into digits and an exponent, or into digits and nothing.
pub open spec fn is_number_split(s: Seq<char>, e: int) -> bool {
    &&& 0 <= e <= s.len()
    &&& is_mantissa(s.take(e))
    &&& e == s.len() || is_exponent(s.skip(e))
}

/// Digits with or without a point, and an exponent that may be missing.
pub open spec fn is_number(s: Seq<char>) -> bool {
    exists|e: int| is_number_split(s, e)
}

/// Whether the text is the word, in whatever case its ASCII letters are.
pub open spec fn is_word(s: Seq<char>, word: Seq<char>) -> bool {
    s.len() == word.len() && forall|k: int|
        0 <= k < s.len() ==> ascii_lower(#[trigger] s[k]) == word[k]
}

/// Whether the text is a floating-point literal: a sign that may be missing, then `inf`,
/// `infinity`, `nan` in any case, or a number.
pub open spec fn is_float_literal(s: Seq<char>) -> bool {
    let u = unsigned(s);
    is_word(u, "inf"@) || is_word(u, "infinity"@) || is_word(u, "nan"@) || is_number(u)
}

fn digit(c: char) -> (r: bool)
    ensures
        r == is_digit(c),
{
    '0' <= c && c <= '9'
}

fn lower(c: char) -> (r: char)
    ensures
        r == ascii_lower(c),
{
    if 'A' <= c && c <= 'Z' {
        (c as u8 + 32) as char
    } else {
        c
    }
}

/// Where the digits that begin at `from` end.
fn skip_digits(chars: &Vec<char>, from: usize) -> (r: usize)
    requires
        from <= chars@.len(),
    ensures
        from <= r <= chars@.len(),
        forall|k: int| from <= k < r ==> is_digit(#[trigger] chars@[k]),
        r < chars@.len() ==> !is_digit(chars@[r as int]),
{
    let mut k: usize = from;
    while k < chars.len() && digit(chars[k])
        invariant
            from <= k <= chars@.len(),
            forall|j: int| from <= j < k ==> is_digit(#[trigger] chars@[j]),
        decreases chars@.len() - k,
    {
        k = k + 1;
    }
    k
}

/// Whether the text from `from` on is a word.
fn word_at(chars: &Vec<char>, from: usize, word: &str) -> (r: bool)
    requires
        from <= chars@.len(),
    ensures
        r == is_word(chars@.skip(from as int), word@),
{
    let w: Vec<char> = to_chars(word);
    let ghost u = chars@.skip(from as int);
    if chars.len() - from != w.len() {
        return false;
    }
    let mut k: usize = 0;
    while k < w.len()
        invariant
            k <= w@.len(),
            from + w@.len() == chars@.len(),
            chars@.len() <= usize::MAX,
            u == chars@.skip(from as int),
            w@ == word@,
            forall|j: int| 0 <= j < k ==> ascii_lower(#[trigger] u[j]) == w@[j],
        decreases w@.len() - k,
    {
        if lower(chars[from + k]) != w[k] {
            assert(ascii_lower(u[k as int]) != w@[k as int]);
            return false;
        }
        k = k + 1;
    }
    true
}

/// A text that is a number divides nowhere but where its digits, with their point, end.
proof fn lemma_split_place(s: Seq<char>, a: int, b: int, e: int)
    requires
        0 <= a <= b <= s.len(),
        forall|k: int| 0 <= k < a ==> is_digit(#[trigger] s[k]),
        a < s.len() ==> !is_digit(s[a]),
        a < s.len() && s[a] == '.' ==> a < b && (forall|k: int|
            a < k < b ==> is_digit(#[trigger] s[k])) && (b < s.len() ==> !is_digit(s[b])),
        !(a < s.len() && s[a] == '.') ==> a == b,
        is_number_split(s, e),
    ensures
        e == b,
{
    let m = s.take(e);
    if e < s.len() {
        assert(s.skip(e)[0] == s[e]);
    }
    if is_digits(m) {
        if e > a {
            assert(m[a] == s[a]);
        }
    } else {
        let p = choose|p: int| is_pointed(m, p);
        assert(m[p] == s[p]);
        if p < a {
            assert(is_digit(s[p]));
        } else if p > a {
            assert(is_digit(m[a]));
        }
        assert(p == a);
        if e > b {
            assert(is_digit(m[b]));
        }
    }
}

/// Whether the text from `from` on is an exponent.
fn exponent_at(chars: &Vec<char>, from: usize) -> (r: bool)
    requires
        from <= chars@.len(),
    ensures
        r == is_exponent(chars@.skip(from as int)),
{
    let n: usize = chars.len();
    let ghost x = chars@.skip(from as int);
    if from == n {
        return false;
    }
    assert(x[0] == chars@[from as int]);
    if chars[from] != 'e' && chars[from] != 'E' {
        return false;
    }
    let start: usize = if from + 1 < n && (chars[from + 1] == '+' || chars[from + 1] == '-') {
        from + 2
    } else {
        from + 1
    };
    let end: usize = skip_digits(chars, start);
    let ghost d = unsigned(x.skip(1));
    proof {
        assert(d =~= chars@.skip(start as int));
        if start < end && end == n {
            assert forall|k: int| 0 <= k < d.len() implies is_digit(#[trigger] d[k]) by {
                assert(is_digit(chars@[start + k]));
            }
        } else if end < n {
            assert(!is_digit(d[end - start]));
        }
    }
    start < end && end == n
}

/// Whether the text from `from` on is a number.
fn number_at(chars: &Vec<char>, from: usize) -> (r: bool)
    requires
        from <= chars@.len(),
    ensures
        r == is_number(chars@.skip(from as int)),
{
    let n: usize = chars.len();
    let ghost u = chars@.skip(from as int);
    let a: usize = skip_digits(chars, from);
    let b: usize = if a < n && chars[a] == '.' {
        skip_digits(chars, a + 1)
    } else {
        a
    };
    let ghost ua = a - from;
    let ghost ub = b - from;
    let ghost m = u.take(ub);
    proof {
        assert forall|k: int| 0 <= k < ua implies is_digit(#[trigger] u[k]) by {
            assert(is_digit(chars@[from + k]));
        }
        assert forall|k: int| ua < k < ub implies is_digit(#[trigger] u[k]) by {
            assert(is_digit(chars@[from + k]));
        }
        assert forall|e: int| is_number_split(u, e) implies e == ub by {
            lemma_split_place(u, ua, ub, e);
        }
        assert(is_number(u) ==> is_number_split(u, ub));
    }
    let digits: usize = if a < b {
        b - from - 1
    } else {
        b - from
    };
    if digits == 0 {
        proof {
            if m.len() > 0 {
                assert(m[0] == '.');
            }
            assert(!is_mantissa(m));
        }
        return false;
    }
    proof {
        if a < b {
            assert(is_pointed(m, ua));
        } else {
            assert(is_digits(m));
        }
        assert(is_mantissa(m));
        assert(u.skip(ub) =~= chars@.skip(b as int));
    }
    let whole: bool = b == n || exponent_at(chars, b);
    assert(whole ==> is_number_split(u, ub));
    whole
}

/// Tests whether a text is a floating-point literal.
pub fn float_literal(s: &str) -> (r: bool)
    ensures
        r == is_float_literal(s@),
{
    let chars: Vec<char> = to_chars(s);
    let from: usize = if chars.len() > 0 && (chars[0] == '+' || chars[0] == '-') {
        1
    } else {
        0
    };
    assert(unsigned(s@) =~= chars@.skip(from as int));
    word_at(&chars, from, "inf") || word_at(&chars, from, "infinity") || word_at(
        &chars,
        from,
        "nan",
    ) || number_at(&chars, from)
}

} // verus!
