//! Character-level helpers shared by the parsers of this crate.
//!
//! The executable functions work on a vector of characters and a range of
//! positions in it, so that a caller can cut a text into pieces without
//! copying; each contract speaks of the piece as a sequence.

use vstd::prelude::*;

verus! {

/// White space as Unicode defines it (the property `White_Space`).
pub open spec fn is_space(c: char) -> bool {
    ('\u{9}' <= c && c <= '\u{d}') || c == ' ' || c == '\u{85}' || c == '\u{a0}' || c == '\u{1680}'
        || ('\u{2000}' <= c && c <= '\u{200a}') || c == '\u{2028}' || c == '\u{2029}' || c
        == '\u{202f}' || c == '\u{205f}' || c == '\u{3000}'
}

/// `s` without its leading white space.
pub open spec fn skip_spaces(s: Seq<char>) -> Seq<char>
    decreases s.len(),
{
    if s.len() > 0 && is_space(s[0]) {
        skip_spaces(s.drop_first())
    } else {
        s
    }
}

/// `s` without its trailing white space.
pub open spec fn drop_trailing_spaces(s: Seq<char>) -> Seq<char>
    decreases s.len(),
{
    if s.len() > 0 && is_space(s.last()) {
        drop_trailing_spaces(s.drop_last())
    } else {
        s
    }
}

/// `s` without leading and trailing white space.
pub open spec fn trimmed(s: Seq<char>) -> Seq<char> {
    drop_trailing_spaces(skip_spaces(s))
}

/// The position of the first `c` in `s`, or the length of `s` where there is
/// none.
pub open spec fn index_of(s: Seq<char>, c: char) -> int
    decreases s.len(),
{
    if s.len() == 0 || s[0] == c {
        0
    } else {
        1 + index_of(s.drop_first(), c)
    }
}

/// Whether `s` begins with `p`.
pub open spec fn has_prefix(s: Seq<char>, p: Seq<char>) -> bool {
    p.len() <= s.len() && s.subrange(0, p.len() as int) == p
}

/// Whether `p` stands in `s` at position `i`.
pub open spec fn occurs_at(s: Seq<char>, p: Seq<char>, i: int) -> bool {
    0 <= i && i + p.len() <= s.len() && s.subrange(i, i + p.len()) == p
}

/// Whether `p` stands somewhere in `s`.
pub open spec fn contains(s: Seq<char>, p: Seq<char>) -> bool {
    exists|i: int| #[trigger] occurs_at(s, p, i)
}

/// The strings of a vector, each by its view.
pub open spec fn string_views(v: Seq<String>) -> Seq<Seq<char>> {
    Seq::new(v.len(), |i: int| v[i]@)
}

/// The position of the first white space in `s`, or the length of `s` where
/// there is none.
pub open spec fn space_index(s: Seq<char>) -> int
    decreases s.len(),
{
    if s.len() == 0 || is_space(s[0]) {
        0
    } else {
        1 + space_index(s.drop_first())
    }
}

/// `s` without its leading `c`s.
pub open spec fn skip_leading(s: Seq<char>, c: char) -> Seq<char>
    decreases s.len(),
{
    if s.len() > 0 && s[0] == c {
        skip_leading(s.drop_first(), c)
    } else {
        s
    }
}

/// `s` without its trailing `c`s.
pub open spec fn drop_trailing(s: Seq<char>, c: char) -> Seq<char>
    decreases s.len(),
{
    if s.len() > 0 && s.last() == c {
        drop_trailing(s.drop_last(), c)
    } else {
        s
    }
}

/// The position of the first `c` lies within the sequence or at its end, and
/// no `c` stands before it.
pub proof fn lemma_index_of(s: Seq<char>, c: char)
    ensures
        0 <= index_of(s, c) <= s.len(),
        index_of(s, c) < s.len() ==> s[index_of(s, c)] == c,
        forall|k: int| 0 <= k < index_of(s, c) ==> s[k] != c,
    decreases s.len(),
{
    if s.len() == 0 || s[0] == c {
    } else {
        lemma_index_of(s.drop_first(), c);
        assert forall|k: int| 0 <= k < index_of(s, c) implies s[k] != c by {
            if k > 0 {
                assert(s.drop_first()[k - 1] == s[k]);
            }
        }
    }
}

/// Whether `c` is absent from `s`.
pub open spec fn lacks(s: Seq<char>, c: char) -> bool {
    forall|i: int| 0 <= i < s.len() ==> #[trigger] s[i] != c
}

/// Trimming brings in no character: one that is absent from `s` is absent
/// from `s` trimmed.
pub proof fn lemma_trimmed_keeps_absent(s: Seq<char>, c: char)
    requires
        lacks(s, c),
    ensures
        lacks(trimmed(s), c),
{
    lemma_skip_spaces_keeps_absent(s, c);
    lemma_drop_trailing_spaces_keeps_absent(skip_spaces(s), c);
}

proof fn lemma_skip_spaces_keeps_absent(s: Seq<char>, c: char)
    requires
        lacks(s, c),
    ensures
        lacks(skip_spaces(s), c),
    decreases s.len(),
{
    if s.len() > 0 && is_space(s[0]) {
        let rest = s.drop_first();
        assert forall|i: int| 0 <= i < rest.len() implies #[trigger] rest[i] != c by {
            assert(rest[i] == s[i + 1]);
        }
        lemma_skip_spaces_keeps_absent(rest, c);
    }
}

proof fn lemma_drop_trailing_spaces_keeps_absent(s: Seq<char>, c: char)
    requires
        lacks(s, c),
    ensures
        lacks(drop_trailing_spaces(s), c),
    decreases s.len(),
{
    if s.len() > 0 && is_space(s.last()) {
        let rest = s.drop_last();
        assert forall|i: int| 0 <= i < rest.len() implies #[trigger] rest[i] != c by {
            assert(rest[i] == s[i]);
        }
        lemma_drop_trailing_spaces_keeps_absent(rest, c);
    }
}

/// The characters of a string slice, in order.
pub fn chars_of(s: &str) -> (v: Vec<char>)
    ensures
        v@ == s@,
{
    let mut v: Vec<char> = Vec::new();
    for c in it: s.chars()
        invariant
            it.seq() == s@,
            v@ == it.seq().take(it.index() as int),
    {
        v.push(c);
    }
    v
}

/// Tests a character for white space.
pub fn is_space_char(c: char) -> (b: bool)
    ensures
        b == is_space(c),
{
    ('\u{9}' <= c && c <= '\u{d}') || c == ' ' || c == '\u{85}' || c == '\u{a0}' || c == '\u{1680}'
        || ('\u{2000}' <= c && c <= '\u{200a}') || c == '\u{2028}' || c == '\u{2029}' || c
        == '\u{202f}' || c == '\u{205f}' || c == '\u{3000}'
}

/// Trims the piece `[lo, hi)` of `v`: the returned range holds the piece
/// without leading and trailing white space.
pub fn trim_range(v: &Vec<char>, lo: usize, hi: usize) -> (r: (usize, usize))
    requires
        lo <= hi <= v.len(),
    ensures
        lo <= r.0 <= r.1 <= hi,
        v@.subrange(r.0 as int, r.1 as int) == trimmed(v@.subrange(lo as int, hi as int)),
{
    let mut a: usize = lo;
    while a < hi && is_space_char(v[a])
        invariant
            lo <= a <= hi <= v.len(),
            skip_spaces(v@.subrange(a as int, hi as int)) == skip_spaces(
                v@.subrange(lo as int, hi as int),
            ),
        decreases hi - a,
    {
        assert(v@.subrange(a as int, hi as int).drop_first() =~= v@.subrange(a + 1, hi as int));
        a += 1;
    }
    assert(skip_spaces(v@.subrange(a as int, hi as int)) == v@.subrange(a as int, hi as int));
    let mut b: usize = hi;
    while a < b && is_space_char(v[b - 1])
        invariant
            a <= b <= hi <= v.len(),
            drop_trailing_spaces(v@.subrange(a as int, b as int)) == drop_trailing_spaces(
                v@.subrange(a as int, hi as int),
            ),
        decreases b - a,
    {
        assert(v@.subrange(a as int, b as int).drop_last() =~= v@.subrange(a as int, b - 1));
        b -= 1;
    }
    assert(drop_trailing_spaces(v@.subrange(a as int, b as int)) == v@.subrange(
        a as int,
        b as int,
    ));
    (a, b)
}

/// Finds the first `c` in the piece `[lo, hi)` of `v`; returns `hi` where
/// there is none.
pub fn find_char(v: &Vec<char>, c: char, lo: usize, hi: usize) -> (i: usize)
    requires
        lo <= hi <= v.len(),
    ensures
        lo <= i <= hi,
        i - lo == index_of(v@.subrange(lo as int, hi as int), c),
{
    let mut i: usize = lo;
    while i < hi && v[i] != c
        invariant
            lo <= i <= hi <= v.len(),
            index_of(v@.subrange(lo as int, hi as int), c) == (i - lo) + index_of(
                v@.subrange(i as int, hi as int),
                c,
            ),
        decreases hi - i,
    {
        assert(v@.subrange(i as int, hi as int).drop_first() =~= v@.subrange(i + 1, hi as int));
        i += 1;
    }
    i
}

/// Tests whether the piece `[lo, hi)` of `v` begins with `p`.
pub fn starts_with_at(v: &Vec<char>, lo: usize, hi: usize, p: &Vec<char>) -> (b: bool)
    requires
        lo <= hi <= v.len(),
    ensures
        b == has_prefix(v@.subrange(lo as int, hi as int), p@),
{
    if p.len() > hi - lo {
        return false;
    }
    let ghost piece = v@.subrange(lo as int, hi as int);
    let mut k: usize = 0;
    while k < p.len()
        invariant
            k <= p.len() <= hi - lo,
            lo <= hi <= v.len(),
            piece == v@.subrange(lo as int, hi as int),
            forall|j: int| 0 <= j < k ==> piece[j] == p@[j],
        decreases p.len() - k,
    {
        if v[lo + k] != p[k] {
            assert(piece[k as int] != p@[k as int]);
            assert(piece.subrange(0, p.len() as int)[k as int] == piece[k as int]);
            return false;
        }
        k += 1;
    }
    assert(piece.subrange(0, p.len() as int) =~= p@);
    true
}

/// Skips the white space at the head of the piece `[lo, hi)` of `v`.
pub fn skip_spaces_at(v: &Vec<char>, lo: usize, hi: usize) -> (a: usize)
    requires
        lo <= hi <= v.len(),
    ensures
        lo <= a <= hi,
        v@.subrange(a as int, hi as int) == skip_spaces(v@.subrange(lo as int, hi as int)),
{
    let mut a: usize = lo;
    while a < hi && is_space_char(v[a])
        invariant
            lo <= a <= hi <= v.len(),
            skip_spaces(v@.subrange(a as int, hi as int)) == skip_spaces(
                v@.subrange(lo as int, hi as int),
            ),
        decreases hi - a,
    {
        assert(v@.subrange(a as int, hi as int).drop_first() =~= v@.subrange(a + 1, hi as int));
        a += 1;
    }
    a
}

/// Finds the first white space in the piece `[lo, hi)` of `v`; returns `hi`
/// where there is none.
pub fn find_space(v: &Vec<char>, lo: usize, hi: usize) -> (i: usize)
    requires
        lo <= hi <= v.len(),
    ensures
        lo <= i <= hi,
        i - lo == space_index(v@.subrange(lo as int, hi as int)),
{
    let mut i: usize = lo;
    while i < hi && !is_space_char(v[i])
        invariant
            lo <= i <= hi <= v.len(),
            space_index(v@.subrange(lo as int, hi as int)) == (i - lo) + space_index(
                v@.subrange(i as int, hi as int),
            ),
        decreases hi - i,
    {
        assert(v@.subrange(i as int, hi as int).drop_first() =~= v@.subrange(i + 1, hi as int));
        i += 1;
    }
    i
}

/// Tests whether `p` stands somewhere in the piece `[lo, hi)` of `v`.
pub fn contains_at(v: &Vec<char>, lo: usize, hi: usize, p: &Vec<char>) -> (b: bool)
    requires
        lo <= hi <= v.len(),
    ensures
        b == contains(v@.subrange(lo as int, hi as int), p@),
{
    let ghost piece = v@.subrange(lo as int, hi as int);
    if p.len() > hi - lo {
        assert forall|i: int| !#[trigger] occurs_at(piece, p@, i) by {}
        return false;
    }
    if p.len() == 0 {
        assert(piece.subrange(0, 0) =~= p@);
        assert(occurs_at(piece, p@, 0));
        return true;
    }
    let last: usize = hi - p.len();
    let mut i: usize = lo;
    while i <= last
        invariant
            lo <= i <= last + 1,
            last == hi - p.len(),
            p.len() > 0,
            lo <= hi <= v.len(),
            p.len() <= hi - lo,
            piece == v@.subrange(lo as int, hi as int),
            forall|j: int| 0 <= j < i - lo ==> !#[trigger] occurs_at(piece, p@, j),
        decreases last + 1 - i,
    {
        assert(v@.subrange(i as int, hi as int).subrange(0, p.len() as int) =~= piece.subrange(
            i - lo,
            i - lo + p.len(),
        ));
        if starts_with_at(v, i, hi, p) {
            assert(occurs_at(piece, p@, i - lo));
            return true;
        }
        i += 1;
    }
    assert forall|j: int| !#[trigger] occurs_at(piece, p@, j) by {}
    false
}

} // verus!
