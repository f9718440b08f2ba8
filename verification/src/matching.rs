//! Which lines a query finds.

use vstd::prelude::*;
use vstd::utf8::is_ascii_chars;

use crate::bridge::{ascii_lower, ascii_lowered, lowercase, to_lowercase};
use crate::text::{contains, has, texts};

verus! {

/// Whether a query finds a line: whether the line holds it, upper and lower case aside.
pub open spec fn finds(query: Seq<char>, line: Seq<char>) -> bool {
    has(lowercase(line), lowercase(query))
}

/// The lower-case forms of some rows.
pub open spec fn lowered(rows: Seq<Seq<char>>) -> Seq<Seq<char>> {
    rows.map_values(|r: Seq<char>| lowercase(r))
}

/// The rows that hold the needle, by their indices, in order.
pub open spec fn matching_rows(rows: Seq<Seq<char>>, needle: Seq<char>) -> Seq<usize>
    decreases rows.len(),
{
    if rows.len() == 0 {
        seq![]
    } else {
        let head = matching_rows(rows.drop_last(), needle);
        if has(rows.last(), needle) {
            head.push((rows.len() - 1) as usize)
        } else {
            head
        }
    }
}

/// Strictly increasing.
pub open spec fn increasing(v: Seq<usize>) -> bool {
    forall|i: int, j: int| 0 <= i < j < v.len() ==> v[i] < v[j]
}

/// The rows found are exactly those that hold the needle, each once, in order.
pub proof fn law_matching_rows(rows: Seq<Seq<char>>, needle: Seq<char>)
    requires
        rows.len() <= usize::MAX,
    ensures
        increasing(matching_rows(rows, needle)),
        forall|k: int|
            0 <= k < matching_rows(rows, needle).len() ==> (#[trigger] matching_rows(
                rows,
                needle,
            )[k]) < rows.len() && has(rows[matching_rows(rows, needle)[k] as int], needle),
        forall|i: usize|
            i < rows.len() && has(#[trigger] rows[i as int], needle) ==> matching_rows(
                rows,
                needle,
            ).contains(i),
    decreases rows.len(),
{
    if rows.len() > 0 {
        let init = rows.drop_last();
        let head = matching_rows(init, needle);
        let all = matching_rows(rows, needle);
        law_matching_rows(init, needle);
        assert forall|k: int| 0 <= k < all.len() implies (#[trigger] all[k]) < rows.len() && has(
            rows[all[k] as int],
            needle,
        ) by {
            if k < head.len() {
                assert(all[k] == head[k]);
                assert(init[head[k] as int] == rows[head[k] as int]);
            }
        }
        assert forall|i: int, j: int| 0 <= i < j < all.len() implies all[i] < all[j] by {
            assert(all[i] == head[i]);
            if j < head.len() {
                assert(all[j] == head[j]);
            }
        }
        assert forall|i: usize| i < rows.len() && has(#[trigger] rows[i as int], needle) implies
            all.contains(i) by {
            if i < rows.len() - 1 {
                assert(init[i as int] == rows[i as int]);
                assert(head.contains(i));
                let k = choose|k: int| 0 <= k < head.len() && head[k] == i;
                assert(all[k] == i);
            } else {
                assert(all[all.len() - 1] == i);
            }
        }
    }
}

/// The indices of the rows that hold the needle.
pub fn find_rows(rows: &Vec<String>, needle: &str) -> (r: Vec<usize>)
    ensures
        r@ == matching_rows(texts(rows@), needle@),
{
    let mut out: Vec<usize> = Vec::new();
    let mut i: usize = 0;
    let ghost all = texts(rows@);
    while i < rows.len()
        invariant
            i <= rows@.len(),
            all == texts(rows@),
            out@ == matching_rows(all.take(i as int), needle@),
        decreases rows@.len() - i,
    {
        assert(all.take(i + 1).drop_last() =~= all.take(i as int));
        assert(all.take(i + 1).last() == rows@[i as int]@);
        if contains(&rows[i], needle) {
            out.push(i);
        }
        i = i + 1;
    }
    assert(all.take(i as int) =~= all);
    out
}

/// The place of the first entry that is `least` or more, from `i` on; zero where there is none.
pub open spec fn first_from(v: Seq<usize>, least: int, i: int) -> int
    decreases v.len() - i,
{
    if i < 0 || i >= v.len() {
        0
    } else if v[i] >= least {
        i
    } else {
        first_from(v, least, i + 1)
    }
}

pub proof fn lemma_first_from(v: Seq<usize>, least: int, i: int)
    requires
        0 <= i <= v.len(),
        v.len() > 0,
        forall|j: int| 0 <= j < i ==> (#[trigger] v[j]) < least,
    ensures
        ({
            let k = first_from(v, least, i);
            &&& 0 <= k < v.len()
            &&& {
                ||| v[k] >= least && (forall|j: int| 0 <= j < k ==> (#[trigger] v[j]) < least)
                ||| k == 0 && (forall|j: int| 0 <= j < v.len() ==> (#[trigger] v[j]) < least)
            }
        }),
    decreases v.len() - i,
{
    if i < v.len() && v[i] < least {
        lemma_first_from(v, least, i + 1);
    }
}

/// The place of the first entry that is `least` or more; zero where there is none.
pub fn first_at_or_after(v: &Vec<usize>, least: usize) -> (r: usize)
    ensures
        r == first_from(v@, least as int, 0),
{
    let mut i: usize = 0;
    while i < v.len()
        invariant
            i <= v@.len(),
            first_from(v@, least as int, 0) == first_from(v@, least as int, i as int),
        decreases v@.len() - i,
    {
        if v[i] >= least {
            return i;
        }
        i = i + 1;
    }
    0
}

/// Whether every row is made of ASCII characters.
pub open spec fn ascii_rows(rows: Seq<Seq<char>>) -> bool {
    forall|i: int| 0 <= i < rows.len() ==> is_ascii_chars(#[trigger] rows[i])
}

/// The rows with their ASCII letters in lower case.
pub open spec fn ascii_lowered_rows(rows: Seq<Seq<char>>) -> Seq<Seq<char>> {
    rows.map_values(|r: Seq<char>| ascii_lowered(r))
}

/// The lower-case forms of some rows.
pub fn lower_rows(rows: &Vec<String>) -> (r: Vec<String>)
    ensures
        texts(r@) == lowered(texts(rows@)),
        ascii_rows(texts(rows@)) ==> texts(r@) == ascii_lowered_rows(texts(rows@)),
{
    let mut out: Vec<String> = Vec::new();
    let mut i: usize = 0;
    let ghost all = texts(rows@);
    while i < rows.len()
        invariant
            i <= rows@.len(),
            all == texts(rows@),
            out@.len() == i,
            forall|k: int|
                0 <= k < i ==> (#[trigger] out@[k])@ == lowercase(all[k]) && (is_ascii_chars(all[k])
                    ==> out@[k]@ == ascii_lowered(all[k])),
        decreases rows@.len() - i,
    {
        let low: String = to_lowercase(&rows[i]);
        assert(all[i as int] == rows@[i as int]@);
        out.push(low);
        i = i + 1;
    }
    assert(texts(out@) =~= lowered(all));
    assert(ascii_rows(all) ==> texts(out@) =~= ascii_lowered_rows(all));
    out
}

/// Among rows of ASCII characters, a query finds the same rows however its letters are cased.
pub proof fn law_ascii_case_does_not_matter(
    rows: Seq<Seq<char>>,
    query: Seq<char>,
    other: Seq<char>,
)
    requires
        query.len() == other.len(),
        forall|k: int|
            0 <= k < query.len() ==> ascii_lower(#[trigger] query[k]) == ascii_lower(other[k]),
    ensures
        matching_rows(ascii_lowered_rows(rows), ascii_lowered(query)) == matching_rows(
            ascii_lowered_rows(rows),
            ascii_lowered(other),
        ),
{
    assert(ascii_lowered(query) =~= ascii_lowered(other));
}

} // verus!
