//! Addresses on the WebDAV server to which backups are uploaded.

use vstd::prelude::*;
use crate::text::{chars_of, drop_trailing, skip_leading};

verus! {

/// The address of an item on the server: the base without trailing slashes,
/// the remote path without leading slashes and the item's name, joined by
/// slashes.
pub open spec fn remote_location(base: Seq<char>, remote_path: Seq<char>, name: Seq<char>) -> Seq<
    char,
> {
    drop_trailing(base, '/') + "/"@ + skip_leading(remote_path, '/') + "/"@ + name
}

/// Composes the address of an item on the server.
pub fn remote_url(base: &str, remote_path: &str, name: &str) -> (url: String)
    ensures
        url@ == remote_location(base@, remote_path@, name@),
{
    let base_chars = chars_of(base);
    let mut end: usize = base_chars.len();
    assert(base_chars@.subrange(0, end as int) =~= base@);
    while end > 0 && base_chars[end - 1] == '/'
        invariant
            end <= base_chars.len(),
            base_chars@ == base@,
            drop_trailing(base@.subrange(0, end as int), '/') == drop_trailing(base@, '/'),
        decreases end,
    {
        assert(base@.subrange(0, end as int).drop_last() =~= base@.subrange(0, end - 1));
        end -= 1;
    }
    let path_chars = chars_of(remote_path);
    let n: usize = path_chars.len();
    let mut start: usize = 0;
    assert(path_chars@.subrange(0, n as int) =~= remote_path@);
    while start < n && path_chars[start] == '/'
        invariant
            start <= n,
            n == path_chars.len(),
            path_chars@ == remote_path@,
            skip_leading(remote_path@.subrange(start as int, n as int), '/') == skip_leading(
                remote_path@,
                '/',
            ),
        decreases n - start,
    {
        assert(remote_path@.subrange(start as int, n as int).drop_first() =~= remote_path@.subrange(
            start + 1,
            n as int,
        ));
        start += 1;
    }
    let mut url = base.substring_char(0, end).to_owned();
    url.append("/");
    url.append(remote_path.substring_char(start, n));
    url.append("/");
    url.append(name);
    url
}

} // verus!
