//! Which texts are numbers, said of their characters.

use vstd::prelude::*;

use crate::bridge::ascii_lower;
use crate::number::{
    is_digit, is_digits, is_exponent, is_float_literal, is_mantissa, is_number, is_number_split,
    is_pointed, is_sign, is_word, unsigned,
};

verus! {

/// Whether all characters from `from` up to `to` are digits.
pub open spec fn digits_between(s: Seq<char>, from: int, to: int) -> bool {
    forall|k: int| from <= k < to ==> '0' <= #[trigger] s[k] <= '9'
}

/// Whether a text is written so: a sign up to `a`, where `a` is one; digits up to `b`; a point and
/// digits up to `c`, where `c` is beyond `b`; and where something follows, the letter `e`, a sign
/// that may be missing, and from `x` on digits. There is a digit before the letter, and one behind.
pub open spec fn numeral(s: Seq<char>, a: int, b: int, c: int, x: int) -> bool {
    &&& 0 <= a <= b <= c <= s.len()
    &&& a == 0 || (a == 1 && (s[0] == '+' || s[0] == '-'))
    &&& digits_between(s, a, b)
    &&& c > b ==> s[b] == '.' && digits_between(s, b + 1, c)
    &&& b > a || c > b + 1
    &&& c < s.len() ==> {
        &&& s[c] == 'e' || s[c] == 'E'
        &&& x == c + 1 || (x == c + 2 && (s[c + 1] == '+' || s[c + 1] == '-'))
        &&& x < s.len()
        &&& digits_between(s, x, s.len() as int)
    }
}

/// Whether a text, from `from` on, is spelled so, each letter in one case or the other.
pub open spec fn spelled(s: Seq<char>, from: int, small: Seq<char>, large: Seq<char>) -> bool {
    &&& s.len() == from + small.len()
    &&& forall|k: int|
        0 <= k < small.len() ==> s[from + k] == #[trigger] small[k] || s[from + k] == large[k]
}

/// Whether a text is one of the words that stand for a number, behind a sign that may be missing.
pub open spec fn number_word(s: Seq<char>, from: int) -> bool {
    &&& from == 0 || (from == 1 && s.len() > 0 && (s[0] == '+' || s[0] == '-'))
    &&& {
        ||| spelled(s, from, seq!['i', 'n', 'f'], seq!['I', 'N', 'F'])
        ||| spelled(s, from, seq!['n', 'a', 'n'], seq!['N', 'A', 'N'])
        ||| spelled(
            s,
            from,
            seq!['i', 'n', 'f', 'i', 'n', 'i', 't', 'y'],
            seq!['I', 'N', 'F', 'I', 'N', 'I', 'T', 'Y'],
        )
    }
}

/// Whether a text reads as a number.
pub open spec fn reads_as_number(s: Seq<char>) -> bool {
    ||| exists|a: int, b: int, c: int, x: int| numeral(s, a, b, c, x)
    ||| number_word(s, 0)
    ||| number_word(s, 1)
}

proof fn lemma_numeral_from_split(s: Seq<char>, e: int)
    requires
        is_number_split(unsigned(s), e),
    ensures
        exists|a: int, b: int, c: int, x: int| numeral(s, a, b, c, x),
{
    let u = unsigned(s);
    let a = s.len() - u.len();
    let m = u.take(e);
    assert(forall|k: int| 0 <= k < u.len() ==> u[k] == s[a + k]);
    let c = a + e;
    let rest = u.skip(e);
    let y = rest.skip(1);
    let x = if y.len() > 0 && is_sign(y[0]) {
        c + 2
    } else {
        c + 1
    };
    if e < u.len() {
        let d = unsigned(y);
        assert(rest[0] == s[c]);
        assert(y.len() > 0 ==> y[0] == s[c + 1]);
        assert(d.len() == s.len() - x);
        assert forall|k: int| x <= k < s.len() implies '0' <= #[trigger] s[k] <= '9' by {
            assert(d[k - x] == s[k]);
            assert(is_digit(d[k - x]));
        }
    }
    if is_digits(m) {
        assert forall|k: int| a <= k < c implies '0' <= #[trigger] s[k] <= '9' by {
            assert(m[k - a] == s[k]);
            assert(is_digit(m[k - a]));
        }
        assert(numeral(s, a, c, c, x));
    } else {
        let p = choose|p: int| is_pointed(m, p);
        let b = a + p;
        assert(m[p] == s[b]);
        assert forall|k: int| a <= k < c && k != b implies '0' <= #[trigger] s[k] <= '9' by {
            assert(m[k - a] == s[k]);
            assert(is_digit(m[k - a]));
        }
        assert(numeral(s, a, b, c, x));
    }
}

proof fn lemma_split_from_numeral(s: Seq<char>, a: int, b: int, c: int, x: int)
    requires
        numeral(s, a, b, c, x),
    ensures
        is_number(unsigned(s)),
{
    let u = unsigned(s);
    if a == 0 && s.len() > 0 && is_sign(s[0]) {
        if b > 0 {
            assert('0' <= s[0] <= '9');
        }
    }
    assert(u.len() == s.len() - a);
    assert(forall|k: int| 0 <= k < u.len() ==> u[k] == s[a + k]);
    let e = c - a;
    let m = u.take(e);
    if c > b {
        assert forall|k: int| 0 <= k < m.len() && k != b - a implies is_digit(
            #[trigger] m[k],
        ) by {
            assert(m[k] == s[a + k]);
        }
        assert(m[b - a] == s[b]);
        assert(is_pointed(m, b - a));
    } else {
        assert forall|k: int| 0 <= k < m.len() implies is_digit(#[trigger] m[k]) by {
            assert(m[k] == s[a + k]);
        }
        assert(is_digits(m));
    }
    assert(is_mantissa(m));
    if c < s.len() {
        let rest = u.skip(e);
        let y = rest.skip(1);
        let d = unsigned(y);
        assert(rest[0] == s[c]);
        assert(y[0] == s[c + 1]);
        if x == c + 1 {
            assert('0' <= s[x] <= '9');
        }
        assert(d.len() == s.len() - x);
        assert forall|k: int| 0 <= k < d.len() implies is_digit(#[trigger] d[k]) by {
            assert(d[k] == s[x + k]);
        }
        assert(is_exponent(rest));
    }
    assert(is_number_split(u, e));
}

proof fn lemma_word_spelled(
    s: Seq<char>,
    from: int,
    word: Seq<char>,
    small: Seq<char>,
    large: Seq<char>,
)
    requires
        0 <= from <= s.len(),
        word == small,
        large.len() == small.len(),
        forall|k: int|
            0 <= k < small.len() ==> 'a' <= #[trigger] small[k] <= 'z' && large[k] as int
                == small[k] as int - 32,
    ensures
        is_word(s.skip(from), word) == spelled(s, from, small, large),
{
    let u = s.skip(from);
    assert forall|k: int| 0 <= k < small.len() && k < u.len() implies (ascii_lower(
        #[trigger] u[k],
    ) == small[k]) == (s[from + k] == small[k] || s[from + k] == large[k]) by {
        assert(u[k] == s[from + k]);
        assert('a' <= small[k] <= 'z');
    }
    if is_word(u, word) {
        assert forall|k: int| 0 <= k < small.len() implies s[from + k] == #[trigger] small[k]
            || s[from + k] == large[k] by {
            assert(ascii_lower(u[k]) == word[k]);
        }
    }
    if spelled(s, from, small, large) {
        assert forall|k: int| 0 <= k < u.len() implies ascii_lower(#[trigger] u[k])
            == word[k] by {
            assert(s[from + k] == small[k] || s[from + k] == large[k]);
        }
    }
}

/// A text counts as a number exactly where it is written as one: a sign that may be missing; digits
/// with a point that may be missing among, before or behind them; an exponent that may be missing.
/// `inf`, `infinity` and `nan` count too, in any case, with a sign or without.
pub proof fn law_number_is_written_as_one(s: Seq<char>)
    ensures
        is_float_literal(s) <==> reads_as_number(s),
{
    reveal_strlit("inf");
    reveal_strlit("nan");
    reveal_strlit("infinity");
    let u = unsigned(s);
    let from = s.len() - u.len();
    assert(u =~= s.skip(from));
    assert("inf"@ =~= seq!['i', 'n', 'f']);
    assert("nan"@ =~= seq!['n', 'a', 'n']);
    assert("infinity"@ =~= seq!['i', 'n', 'f', 'i', 'n', 'i', 't', 'y']);
    lemma_word_spelled(s, from, "inf"@, seq!['i', 'n', 'f'], seq!['I', 'N', 'F']);
    lemma_word_spelled(s, from, "nan"@, seq!['n', 'a', 'n'], seq!['N', 'A', 'N']);
    lemma_word_spelled(
        s,
        from,
        "infinity"@,
        seq!['i', 'n', 'f', 'i', 'n', 'i', 't', 'y'],
        seq!['I', 'N', 'F', 'I', 'N', 'I', 'T', 'Y'],
    );
    lemma_signed_word(s);
    if is_number(u) {
        let e = choose|e: int| is_number_split(u, e);
        lemma_numeral_from_split(s, e);
    }
    if exists|a: int, b: int, c: int, x: int| numeral(s, a, b, c, x) {
        let (a, b, c, x) = choose|a: int, b: int, c: int, x: int| numeral(s, a, b, c, x);
        lemma_split_from_numeral(s, a, b, c, x);
    }
}

/// A word behind a sign begins behind the sign.
proof fn lemma_signed_word(s: Seq<char>)
    ensures
        number_word(s, 0) ==> s.len() == unsigned(s).len(),
        number_word(s, 1) ==> s.len() == unsigned(s).len() + 1,
{
    if number_word(s, 0) {
        let i = seq!['i', 'n', 'f'];
        let n = seq!['n', 'a', 'n'];
        let y = seq!['i', 'n', 'f', 'i', 'n', 'i', 't', 'y'];
        if spelled(s, 0, i, seq!['I', 'N', 'F']) {
            assert(s[0] == i[0] || s[0] == 'I');
        } else if spelled(s, 0, n, seq!['N', 'A', 'N']) {
            assert(s[0] == n[0] || s[0] == 'N');
        } else {
            assert(s[0] == y[0] || s[0] == 'I');
        }
    }
}

} // verus!
