//! Directory statistics: the bytes and the number of the regular files below
//! a directory.

use vstd::prelude::*;

verus! {

/// The summary of one directory, as it is reported.
#[derive(Clone, Debug, PartialEq, Eq)]
pub struct DirectoryStats {
    pub path: String,
    pub size: u64,
    pub file_count: u64,
}

/// The sum of a sequence of file sizes.
pub open spec fn sum_of(sizes: Seq<u64>) -> nat
    decreases sizes.len(),
{
    if sizes.len() == 0 {
        0
    } else {
        sum_of(sizes.drop_last()) + sizes.last() as nat
    }
}

/// A number reduced to 64 bits, as a counter that wraps holds it.
pub open spec fn wrapped(n: int) -> u64 {
    (n % 0x1_0000_0000_0000_0000) as u64
}

impl DirectoryStats {
    /// The summary of a directory in which nothing has been counted yet.
    pub fn empty(path: String) -> (stats: DirectoryStats)
        ensures
            stats.path == path,
            stats.size == 0,
            stats.file_count == 0,
    {
        DirectoryStats { path, size: 0, file_count: 0 }
    }

    /// Counts one regular file of `len` bytes. Both counters wrap.
    pub fn add_file(&mut self, len: u64)
        ensures
            final(self).path == old(self).path,
            final(self).size == wrapped(old(self).size + len),
            final(self).file_count == wrapped(old(self).file_count + 1),
    {
        self.size = self.size.wrapping_add(len);
        self.file_count = self.file_count.wrapping_add(1);
    }

    /// Counts a subdirectory by its own totals. Both counters wrap.
    pub fn add_subtree(&mut self, size: u64, file_count: u64)
        ensures
            final(self).path == old(self).path,
            final(self).size == wrapped(old(self).size + size),
            final(self).file_count == wrapped(old(self).file_count + file_count),
    {
        self.size = self.size.wrapping_add(size);
        self.file_count = self.file_count.wrapping_add(file_count);
    }
}

/// The summary of a directory that holds regular files of the given sizes:
/// their sum, reduced to 64 bits, and their number.
pub fn summarise(path: String, sizes: &Vec<u64>) -> (stats: DirectoryStats)
    ensures
        stats.path == path,
        stats.size == wrapped(sum_of(sizes@) as int),
        stats.file_count == wrapped(sizes@.len() as int),
{
    let mut stats = DirectoryStats::empty(path);
    let mut i: usize = 0;
    while i < sizes.len()
        invariant
            i <= sizes.len(),
            stats.path == path,
            stats.size == wrapped(sum_of(sizes@.take(i as int)) as int),
            stats.file_count == wrapped(i as int),
        decreases sizes.len() - i,
    {
        let ghost before = sum_of(sizes@.take(i as int));
        assert(sizes@.take(i + 1).drop_last() =~= sizes@.take(i as int));
        assert(sum_of(sizes@.take(i + 1)) == before + sizes@[i as int]);
        stats.add_file(sizes[i]);
        assert(stats.size == wrapped(before + sizes@[i as int])) by {
            lemma_wrapped_add(before as int, sizes@[i as int] as int);
        }
        assert(stats.file_count == wrapped(i + 1)) by {
            lemma_wrapped_add(i as int, 1);
        }
        i += 1;
    }
    assert(sizes@.take(i as int) =~= sizes@);
    stats
}

/// Wrapping after each addition gives what wrapping the whole sum gives.
pub proof fn lemma_wrapped_add(a: int, b: int)
    requires
        0 <= a,
        0 <= b,
    ensures
        wrapped(wrapped(a) + b) == wrapped(a + b),
{
}

} // verus!
