//! The snapshot manifest: a text that lists, for a captured instant, the
//! database files of a world and the length each had.
//!
//! Lines are separated by line feeds and records within a line by commas.
//! A record reads `root<sep>path:length`, where `root` is the name of the
//! capture root and `<sep>` any run of `/` and `\`.

use vstd::prelude::*;
use crate::text::{
    chars_of, find_char, has_prefix, index_of, lacks, lemma_index_of,
    lemma_trimmed_keeps_absent, starts_with_at, trim_range, trimmed,
};

verus! {

/// One record of a manifest: a path below the capture root and the length
/// that the file had when the manifest was taken.
#[derive(Clone, Debug, PartialEq, Eq)]
pub struct ManifestRecord {
    pub relative_path: String,
    pub length: u64,
}

impl View for ManifestRecord {
    type V = (Seq<char>, u64);

    open spec fn view(&self) -> (Seq<char>, u64) {
        (self.relative_path@, self.length)
    }
}

/// The records of a vector, each by its view.
pub open spec fn record_views(records: Seq<ManifestRecord>) -> Seq<(Seq<char>, u64)> {
    Seq::new(records.len(), |i: int| records[i]@)
}

/// A path separator of either convention.
pub open spec fn is_separator(c: char) -> bool {
    c == '/' || c == '\\'
}

/// `s` without its leading path separators.
pub open spec fn skip_separators(s: Seq<char>) -> Seq<char>
    decreases s.len(),
{
    if s.len() > 0 && is_separator(s[0]) {
        skip_separators(s.drop_first())
    } else {
        s
    }
}

/// A decimal digit.
pub open spec fn is_digit(c: char) -> bool {
    '0' <= c && c <= '9'
}

/// The value of a decimal digit; zero for any other character.
pub open spec fn digit_value(c: char) -> nat {
    if is_digit(c) {
        (c as int - '0' as int) as nat
    } else {
        0
    }
}

/// Whether `s` holds decimal digits only.
pub open spec fn all_digits(s: Seq<char>) -> bool {
    forall|i: int| 0 <= i < s.len() ==> is_digit(#[trigger] s[i])
}

/// The number that a run of decimal digits denotes.
pub open spec fn decimal_value(s: Seq<char>) -> nat
    decreases s.len(),
{
    if s.len() == 0 {
        0
    } else {
        decimal_value(s.drop_last()) * 10 + digit_value(s.last())
    }
}

/// The length that a record's length field denotes: its decimal value where
/// the field is an optional `+` and at least one digit and the value fits in
/// 64 bits, and zero otherwise.
pub open spec fn length_of(field: Seq<char>) -> u64 {
    let digits = if field.len() > 0 && field[0] == '+' {
        field.skip(1)
    } else {
        field
    };
    if digits.len() > 0 && all_digits(digits) && decimal_value(digits) <= u64::MAX {
        decimal_value(digits) as u64
    } else {
        0
    }
}

/// The record that one comma-separated token denotes for the capture root
/// `root`, or `None` where the token, trimmed, does not begin with `root`.
/// The path is what stands between the separators after the root and the
/// first colon; the length is read from what follows that colon.
pub open spec fn record_of(token: Seq<char>, root: Seq<char>) -> Option<(Seq<char>, u64)> {
    let t = trimmed(token);
    if has_prefix(t, root) {
        let rest = skip_separators(t.skip(root.len() as int));
        let colon = index_of(rest, ':');
        let path = trimmed(rest.take(colon));
        let length = if colon < rest.len() {
            length_of(trimmed(rest.skip(colon + 1)))
        } else {
            0
        };
        Some((path, length))
    } else {
        None
    }
}

/// The records of one line, in the order of its tokens.
pub open spec fn records_of_line(line: Seq<char>, root: Seq<char>) -> Seq<(Seq<char>, u64)>
    decreases line.len(),
{
    let comma = index_of(line, ',');
    let head = match record_of(line.take(comma), root) {
        Some(r) => seq![r],
        None => seq![],
    };
    if 0 <= comma < line.len() {
        head + records_of_line(line.skip(comma + 1), root)
    } else {
        head
    }
}

/// The records of a whole manifest, in the order of its lines. A text that
/// ends in a line feed has no further line after it.
pub open spec fn records_of(text: Seq<char>, root: Seq<char>) -> Seq<(Seq<char>, u64)>
    decreases text.len(),
{
    if text.len() == 0 {
        seq![]
    } else {
        let feed = index_of(text, '\n');
        let head = records_of_line(text.take(feed), root);
        if 0 <= feed < text.len() {
            head + records_of(text.skip(feed + 1), root)
        } else {
            head
        }
    }
}

/// An empty line holds no record of a root that has a name.
pub proof fn lemma_empty_line_has_no_records(root: Seq<char>)
    requires
        root.len() > 0,
    ensures
        records_of_line(Seq::<char>::empty(), root) == Seq::<(Seq<char>, u64)>::empty(),
{
    let line = Seq::<char>::empty();
    assert(line.take(0) =~= line);
    assert(trimmed(line) =~= line);
    assert(records_of_line(line, root) =~= Seq::<(Seq<char>, u64)>::empty());
}

/// A length field of digits that denote a number within 64 bits is read as
/// that number.
pub proof fn lemma_length_of_digits(field: Seq<char>)
    requires
        field.len() > 0,
        all_digits(field),
        decimal_value(field) <= u64::MAX,
    ensures
        length_of(field) == decimal_value(field),
{
    assert(is_digit(field[0]));
}

/// The path of a record holds no colon: the first colon of a token ends the
/// path.
pub proof fn lemma_record_path_has_no_colon(token: Seq<char>, root: Seq<char>)
    requires
        record_of(token, root) is Some,
    ensures
        lacks(record_of(token, root).unwrap().0, ':'),
{
    let t = trimmed(token);
    let rest = skip_separators(t.skip(root.len() as int));
    let colon = index_of(rest, ':');
    lemma_index_of(rest, ':');
    let piece = rest.take(colon);
    assert forall|i: int| 0 <= i < piece.len() implies #[trigger] piece[i] != ':' by {
        assert(piece[i] == rest[i]);
    }
    lemma_trimmed_keeps_absent(piece, ':');
}

/// A prefix of a run of digits denotes no more than the whole run.
pub proof fn lemma_decimal_value_monotone(s: Seq<char>, k: int)
    requires
        0 <= k <= s.len(),
    ensures
        decimal_value(s.take(k)) <= decimal_value(s),
    decreases s.len() - k,
{
    if k == s.len() {
        assert(s.take(k) =~= s);
    } else {
        assert(s.drop_last().take(k) =~= s.take(k));
        lemma_decimal_value_monotone(s.drop_last(), k);
    }
}

fn parse_length(v: &Vec<char>, lo: usize, hi: usize) -> (n: u64)
    requires
        lo <= hi <= v.len(),
    ensures
        n == length_of(v@.subrange(lo as int, hi as int)),
{
    let ghost field = v@.subrange(lo as int, hi as int);
    let mut i: usize = lo;
    if i < hi && v[i] == '+' {
        i += 1;
    }
    let start: usize = i;
    let ghost digits = v@.subrange(start as int, hi as int);
    assert(digits =~= if field.len() > 0 && field[0] == '+' {
        field.skip(1)
    } else {
        field
    });
    if i == hi {
        return 0;
    }
    let mut acc: u64 = 0;
    while i < hi
        invariant
            lo <= start <= i <= hi <= v.len(),
            start < hi,
            field == v@.subrange(lo as int, hi as int),
            digits == v@.subrange(start as int, hi as int),
            digits == if field.len() > 0 && field[0] == '+' {
                field.skip(1)
            } else {
                field
            },
            all_digits(digits.take(i - start)),
            acc == decimal_value(digits.take(i - start)),
        decreases hi - i,
    {
        let c = v[i];
        if !('0' <= c && c <= '9') {
            assert(!is_digit(digits[i - start]));
            return 0;
        }
        let digit: u64 = (c as u32 - '0' as u32) as u64;
        let ghost next = digits.take(i - start + 1);
        assert(next.drop_last() =~= digits.take(i - start));
        assert(next.last() == c);
        assert(digit == digit_value(c));
        assert(decimal_value(next) == acc * 10 + digit);
        if acc > (u64::MAX - digit) / 10 {
            proof {
                lemma_decimal_value_monotone(digits, i - start + 1);
            }
            return 0;
        }
        acc = acc * 10 + digit;
        assert(all_digits(next)) by {
            assert forall|j: int| 0 <= j < next.len() implies is_digit(#[trigger] next[j]) by {
                if j < i - start {
                    assert(digits.take(i - start)[j] == next[j]);
                }
            }
        }
        i += 1;
    }
    assert(digits.take(i - start) =~= digits);
    acc
}

fn skip_separators_at(v: &Vec<char>, lo: usize, hi: usize) -> (a: usize)
    requires
        lo <= hi <= v.len(),
    ensures
        lo <= a <= hi,
        v@.subrange(a as int, hi as int) == skip_separators(v@.subrange(lo as int, hi as int)),
{
    let mut a: usize = lo;
    while a < hi && (v[a] == '/' || v[a] == '\\')
        invariant
            lo <= a <= hi <= v.len(),
            skip_separators(v@.subrange(a as int, hi as int)) == skip_separators(
                v@.subrange(lo as int, hi as int),
            ),
        decreases hi - a,
    {
        assert(v@.subrange(a as int, hi as int).drop_first() =~= v@.subrange(a + 1, hi as int));
        a += 1;
    }
    a
}

/// Reads the token that stands in `[lo, hi)` of `chars`, the characters of
/// `text`.
fn parse_token(text: &str, chars: &Vec<char>, lo: usize, hi: usize, root: &Vec<char>) -> (r:
    Option<ManifestRecord>)
    requires
        chars@ == text@,
        lo <= hi <= chars.len(),
    ensures
        match r {
            Some(record) => record_of(chars@.subrange(lo as int, hi as int), root@) == Some(
                record@,
            ),
            None => record_of(chars@.subrange(lo as int, hi as int), root@).is_none(),
        },
{
    let (a, b) = trim_range(chars, lo, hi);
    let ghost t = chars@.subrange(a as int, b as int);
    if !starts_with_at(chars, a, b, root) {
        return None;
    }
    let after_root: usize = a + root.len();
    assert(chars@.subrange(after_root as int, b as int) =~= t.skip(root.len() as int));
    let p = skip_separators_at(chars, after_root, b);
    let ghost rest = chars@.subrange(p as int, b as int);
    let colon = find_char(chars, ':', p, b);
    assert(chars@.subrange(p as int, colon as int) =~= rest.take(colon - p));
    let (pa, pb) = trim_range(chars, p, colon);
    let length: u64 = if colon < b {
        assert(chars@.subrange(colon + 1, b as int) =~= rest.skip(colon - p + 1));
        let (la, lb) = trim_range(chars, colon + 1, b);
        parse_length(chars, la, lb)
    } else {
        0
    };
    let path = text.substring_char(pa, pb).to_owned();
    Some(ManifestRecord { relative_path: path, length })
}

/// Reads the line that stands in `[lo, hi)` of `chars` and appends its
/// records to `out`.
fn parse_line_at(
    text: &str,
    chars: &Vec<char>,
    lo: usize,
    hi: usize,
    root: &Vec<char>,
    out: &mut Vec<ManifestRecord>,
)
    requires
        chars@ == text@,
        lo <= hi <= chars.len(),
    ensures
        record_views(final(out)@) == record_views(old(out)@) + records_of_line(
            chars@.subrange(lo as int, hi as int),
            root@,
        ),
{
    let ghost line = chars@.subrange(lo as int, hi as int);
    let ghost before = record_views(out@);
    let mut pos: usize = lo;
    let mut done: bool = false;
    while !done
        invariant
            chars@ == text@,
            lo <= pos <= hi <= chars.len(),
            line == chars@.subrange(lo as int, hi as int),
            !done ==> before + records_of_line(line, root@) == record_views(out@)
                + records_of_line(chars@.subrange(pos as int, hi as int), root@),
            done ==> before + records_of_line(line, root@) == record_views(out@),
        decreases hi - pos + if done { 0int } else { 1int },
    {
        let ghost piece = chars@.subrange(pos as int, hi as int);
        let ghost views = record_views(out@);
        let comma = find_char(chars, ',', pos, hi);
        assert(chars@.subrange(pos as int, comma as int) =~= piece.take(comma - pos));
        match parse_token(text, chars, pos, comma, root) {
            Some(record) => {
                out.push(record);
                assert(record_views(out@) =~= views + seq![record@]);
            },
            None => {
                assert(views + Seq::<(Seq<char>, u64)>::empty() =~= views);
            },
        }
        if comma < hi {
            assert(chars@.subrange(comma + 1, hi as int) =~= piece.skip(comma - pos + 1));
            let ghost head = match record_of(piece.take(comma - pos), root@) {
                Some(r) => seq![r],
                None => seq![],
            };
            let ghost tail = records_of_line(piece.skip(comma - pos + 1), root@);
            assert(views + (head + tail) =~= (views + head) + tail);
            pos = comma + 1;
        } else {
            done = true;
        }
    }
    assert(record_views(out@) == before + records_of_line(line, root@));
}

/// Parses the records of one manifest line for the capture root `root`.
pub fn parse_manifest_line(line: &str, root: &str) -> (records: Vec<ManifestRecord>)
    ensures
        record_views(records@) == records_of_line(line@, root@),
{
    let chars = chars_of(line);
    let root_chars = chars_of(root);
    let mut out: Vec<ManifestRecord> = Vec::new();
    assert(chars@.subrange(0, chars.len() as int) =~= line@);
    parse_line_at(line, &chars, 0, chars.len(), &root_chars, &mut out);
    assert(record_views(Seq::<ManifestRecord>::empty()) + records_of_line(line@, root@)
        =~= records_of_line(line@, root@));
    out
}

/// Parses a manifest for the capture root `root`: every record whose token
/// begins with `root`, in the order of the text. Tokens of other roots are
/// passed over, and a length that cannot be read counts as zero.
pub fn parse_manifest(text: &str, root: &str) -> (records: Vec<ManifestRecord>)
    ensures
        record_views(records@) == records_of(text@, root@),
{
    let chars = chars_of(text);
    let root_chars = chars_of(root);
    let n: usize = chars.len();
    let mut out: Vec<ManifestRecord> = Vec::new();
    let mut pos: usize = 0;
    assert(chars@.subrange(0, n as int) =~= text@);
    assert(record_views(out@) + records_of(text@, root@) =~= records_of(text@, root@));
    while pos < n
        invariant
            chars@ == text@,
            root_chars@ == root@,
            n == chars.len(),
            pos <= n,
            records_of(text@, root@) == record_views(out@) + records_of(
                chars@.subrange(pos as int, n as int),
                root@,
            ),
        decreases n - pos,
    {
        let ghost piece = chars@.subrange(pos as int, n as int);
        let ghost views = record_views(out@);
        let feed = find_char(&chars, '\n', pos, n);
        assert(chars@.subrange(pos as int, feed as int) =~= piece.take(feed - pos));
        parse_line_at(text, &chars, pos, feed, &root_chars, &mut out);
        let ghost head = records_of_line(piece.take(feed - pos), root@);
        assert(record_views(out@) == views + head);
        assert(piece.len() > 0 && index_of(piece, '\n') == feed - pos);
        if feed < n {
            assert(chars@.subrange(feed + 1, n as int) =~= piece.skip(feed - pos + 1));
            let ghost tail = records_of(piece.skip(feed - pos + 1), root@);
            assert(records_of(piece, root@) == head + tail);
            assert(views + (head + tail) =~= (views + head) + tail);
            pos = feed + 1;
        } else {
            assert(records_of(piece, root@) == head);
            assert(chars@.subrange(n as int, n as int).len() == 0);
            assert(records_of(chars@.subrange(n as int, n as int), root@)
                =~= Seq::<(Seq<char>, u64)>::empty());
            assert((views + head) + Seq::<(Seq<char>, u64)>::empty() =~= views + head);
            pos = n;
        }
    }
    assert(chars@.subrange(pos as int, n as int).len() == 0);
    assert(record_views(out@) + Seq::<(Seq<char>, u64)>::empty() =~= record_views(out@));
    out
}

} // verus!
