//! The process supervisor: which processes of a listing are to be
//! terminated.
//!
//! A listing is the text of the host's process table, one process per line;
//! the first field of a line is the image name and the second the process
//! identifier. Fields are separated by white space.

use vstd::prelude::*;
use crate::text::{
    chars_of, contains, contains_at, find_char, find_space, index_of, skip_spaces, skip_spaces_at,
    space_index, string_views,
};

verus! {

/// The first field of a line; empty where the line has none.
pub open spec fn first_field(line: Seq<char>) -> Seq<char> {
    let s = skip_spaces(line);
    s.take(space_index(s))
}

/// What follows the first field of a line.
pub open spec fn after_first_field(line: Seq<char>) -> Seq<char> {
    let s = skip_spaces(line);
    s.skip(space_index(s))
}

/// The second field of a line; empty where the line has none.
pub open spec fn second_field(line: Seq<char>) -> Seq<char> {
    first_field(after_first_field(line))
}

/// The identifier to terminate for a line: its second field, where the first
/// field contains the image name and a second field is there.
pub open spec fn pid_of(line: Seq<char>, image: Seq<char>) -> Option<Seq<char>> {
    if contains(first_field(line), image) && second_field(line).len() > 0 {
        Some(second_field(line))
    } else {
        None
    }
}

/// The identifiers to terminate for a listing, in the order of its lines.
pub open spec fn pids_of(listing: Seq<char>, image: Seq<char>) -> Seq<Seq<char>>
    decreases listing.len(),
{
    if listing.len() == 0 {
        seq![]
    } else {
        let feed = index_of(listing, '\n');
        let head = match pid_of(listing.take(feed), image) {
            Some(pid) => seq![pid],
            None => seq![],
        };
        if 0 <= feed < listing.len() {
            head + pids_of(listing.skip(feed + 1), image)
        } else {
            head
        }
    }
}

/// Reads the line that stands in `[lo, hi)` of `chars`, the characters of
/// `listing`.
fn pid_in_line(listing: &str, chars: &Vec<char>, lo: usize, hi: usize, image: &Vec<char>) -> (r:
    Option<String>)
    requires
        chars@ == listing@,
        lo <= hi <= chars.len(),
    ensures
        match r {
            Some(pid) => pid_of(chars@.subrange(lo as int, hi as int), image@) == Some(pid@),
            None => pid_of(chars@.subrange(lo as int, hi as int), image@).is_none(),
        },
{
    let a = skip_spaces_at(chars, lo, hi);
    let ghost s = chars@.subrange(a as int, hi as int);
    let b = find_space(chars, a, hi);
    assert(chars@.subrange(a as int, b as int) =~= s.take(b - a));
    assert(chars@.subrange(b as int, hi as int) =~= s.skip(b - a));
    let c = skip_spaces_at(chars, b, hi);
    let ghost t = chars@.subrange(c as int, hi as int);
    let d = find_space(chars, c, hi);
    assert(chars@.subrange(c as int, d as int) =~= t.take(d - c));
    if d > c && contains_at(chars, a, b, image) {
        Some(listing.substring_char(c, d).to_owned())
    } else {
        None
    }
}

/// Selects from a process listing the identifiers of the processes whose
/// image name contains `image_name`, in the order of the listing.
pub fn matching_pids(listing: &str, image_name: &str) -> (pids: Vec<String>)
    ensures
        string_views(pids@) == pids_of(listing@, image_name@),
{
    let chars = chars_of(listing);
    let image = chars_of(image_name);
    let n: usize = chars.len();
    let mut out: Vec<String> = Vec::new();
    let mut pos: usize = 0;
    assert(chars@.subrange(0, n as int) =~= listing@);
    assert(string_views(out@) + pids_of(listing@, image_name@) =~= pids_of(
        listing@,
        image_name@,
    ));
    while pos < n
        invariant
            chars@ == listing@,
            image@ == image_name@,
            n == chars.len(),
            pos <= n,
            pids_of(listing@, image_name@) == string_views(out@) + pids_of(
                chars@.subrange(pos as int, n as int),
                image_name@,
            ),
        decreases n - pos,
    {
        let ghost piece = chars@.subrange(pos as int, n as int);
        let ghost views = string_views(out@);
        let feed = find_char(&chars, '\n', pos, n);
        assert(chars@.subrange(pos as int, feed as int) =~= piece.take(feed - pos));
        let ghost head = match pid_of(piece.take(feed - pos), image_name@) {
            Some(pid) => seq![pid],
            None => seq![],
        };
        match pid_in_line(listing, &chars, pos, feed, &image) {
            Some(pid) => {
                out.push(pid);
                assert(string_views(out@) =~= views + head);
            },
            None => {
                assert(string_views(out@) =~= views + head);
            },
        }
        assert(piece.len() > 0 && index_of(piece, '\n') == feed - pos);
        if feed < n {
            assert(chars@.subrange(feed + 1, n as int) =~= piece.skip(feed - pos + 1));
            let ghost tail = pids_of(piece.skip(feed - pos + 1), image_name@);
            assert(pids_of(piece, image_name@) == head + tail);
            assert(views + (head + tail) =~= (views + head) + tail);
            pos = feed + 1;
        } else {
            assert(pids_of(piece, image_name@) == head);
            assert(pids_of(chars@.subrange(n as int, n as int), image_name@) =~= Seq::<
                Seq<char>,
            >::empty());
            assert((views + head) + Seq::<Seq<char>>::empty() =~= views + head);
            pos = n;
        }
    }
    assert(chars@.subrange(pos as int, n as int).len() == 0);
    assert(string_views(out@) + Seq::<Seq<char>>::empty() =~= string_views(out@));
    out
}

} // verus!
