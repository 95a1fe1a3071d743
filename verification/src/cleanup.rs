//! Cleanup by age: which files of a backup directory have expired.
//!
//! A file expires when it carries the extension asked for and was last
//! modified before the cutoff, which lies the maximal age before now.

use vstd::prelude::*;

verus! {

/// A point in time: seconds and nanoseconds since the Unix epoch.
#[derive(Clone, Copy, Debug, PartialEq, Eq, Structural)]
pub struct Stamp {
    pub secs: u64,
    pub nanos: u32,
}

/// An entry of the backup directory, as far as the cleanup reads it.
#[derive(Clone, Debug, PartialEq, Eq)]
pub struct BackupEntry {
    /// Whether the entry is a regular file.
    pub is_file: bool,
    /// The extension of the file name, without the dot, if it has one.
    pub extension: Option<String>,
    /// When the entry was last modified.
    pub modified: Stamp,
}

/// A point in time in nanoseconds since the Unix epoch.
pub open spec fn nanos_of(t: Stamp) -> int {
    t.secs * 1_000_000_000 + t.nanos
}

/// A number of days in nanoseconds.
pub open spec fn days_in_nanos(days: u64) -> int {
    days * 86_400 * 1_000_000_000
}

/// Whether a modification time lies before the cutoff.
pub open spec fn expired(modified: Stamp, now: Stamp, max_age_days: u64) -> bool {
    nanos_of(modified) < nanos_of(now) - days_in_nanos(max_age_days)
}

/// Whether an entry is to be deleted: a regular file with the extension
/// asked for, last modified before the cutoff.
pub open spec fn is_stale(entry: BackupEntry, now: Stamp, max_age_days: u64, extension: Seq<char>) -> bool {
    entry.is_file && expired(entry.modified, now, max_age_days) && match entry.extension {
        Some(e) => e@ == extension,
        None => false,
    }
}

/// The positions of the stale entries among the first `n`, in rising order.
pub open spec fn stale_among(
    entries: Seq<BackupEntry>,
    now: Stamp,
    max_age_days: u64,
    extension: Seq<char>,
    n: int,
) -> Seq<usize>
    decreases n,
{
    if n <= 0 || n > entries.len() {
        seq![]
    } else {
        let before = stale_among(entries, now, max_age_days, extension, n - 1);
        if is_stale(entries[n - 1], now, max_age_days, extension) {
            before.push((n - 1) as usize)
        } else {
            before
        }
    }
}

/// Tests whether a modification time lies before the cutoff.
pub fn is_expired(modified: Stamp, now: Stamp, max_age_days: u64) -> (b: bool)
    ensures
        b == expired(modified, now, max_age_days),
{
    let modified_nanos: u128 = (modified.secs as u128) * 1_000_000_000 + (modified.nanos as u128);
    let now_nanos: u128 = (now.secs as u128) * 1_000_000_000 + (now.nanos as u128);
    let age_nanos: u128 = (max_age_days as u128) * 86_400_000_000_000;
    modified_nanos + age_nanos < now_nanos
}

/// Selects the entries to delete: the positions of the regular files that
/// carry `extension` and were last modified more than `max_age_days` days
/// before `now`, in rising order.
pub fn select_expired(entries: &Vec<BackupEntry>, now: Stamp, max_age_days: u64, extension: &str) -> (chosen:
    Vec<usize>)
    ensures
        chosen@ == stale_among(entries@, now, max_age_days, extension@, entries@.len() as int),
{
    let wanted = extension.to_owned();
    let mut chosen: Vec<usize> = Vec::new();
    let mut i: usize = 0;
    while i < entries.len()
        invariant
            i <= entries.len(),
            wanted@ == extension@,
            chosen@ == stale_among(entries@, now, max_age_days, extension@, i as int),
        decreases entries.len() - i,
    {
        let entry = &entries[i];
        let matches = match &entry.extension {
            Some(e) => *e == wanted,
            None => false,
        };
        if entry.is_file && matches && is_expired(entry.modified, now, max_age_days) {
            chosen.push(i);
        }
        i += 1;
    }
    chosen
}

/// An entry among the first `n` is selected exactly if it is stale.
pub proof fn lemma_selected_iff_stale(
    entries: Seq<BackupEntry>,
    now: Stamp,
    max_age_days: u64,
    extension: Seq<char>,
    n: int,
    i: int,
)
    requires
        0 <= i < n <= entries.len(),
        entries.len() <= usize::MAX,
    ensures
        stale_among(entries, now, max_age_days, extension, n).contains(i as usize) == is_stale(
            entries[i],
            now,
            max_age_days,
            extension,
        ),
    decreases n,
{
    let before = stale_among(entries, now, max_age_days, extension, n - 1);
    let all = stale_among(entries, now, max_age_days, extension, n);
    lemma_selected_below(entries, now, max_age_days, extension, n - 1);
    if i < n - 1 {
        lemma_selected_iff_stale(entries, now, max_age_days, extension, n - 1, i);
        if is_stale(entries[n - 1], now, max_age_days, extension) {
            if before.contains(i as usize) {
                let k = choose|k: int| 0 <= k < before.len() && before[k] == i as usize;
                assert(all[k] == i as usize);
            }
            if all.contains(i as usize) {
                let k = choose|k: int| 0 <= k < all.len() && all[k] == i as usize;
                assert(k < before.len());
                assert(before[k] == i as usize);
            }
        }
    } else {
        if is_stale(entries[n - 1], now, max_age_days, extension) {
            assert(all[before.len() as int] == i as usize);
        } else {
            if all.contains(i as usize) {
                let k = choose|k: int| 0 <= k < all.len() && all[k] == i as usize;
                assert(before[k] < n - 1);
            }
        }
    }
}

/// Every position selected among the first `n` entries lies below `n`.
pub proof fn lemma_selected_below(
    entries: Seq<BackupEntry>,
    now: Stamp,
    max_age_days: u64,
    extension: Seq<char>,
    n: int,
)
    requires
        0 <= n <= entries.len(),
        entries.len() <= usize::MAX,
    ensures
        forall|k: int|
            0 <= k < stale_among(entries, now, max_age_days, extension, n).len()
                ==> #[trigger] stale_among(entries, now, max_age_days, extension, n)[k] < n,
    decreases n,
{
    if n > 0 {
        lemma_selected_below(entries, now, max_age_days, extension, n - 1);
        let before = stale_among(entries, now, max_age_days, extension, n - 1);
        let all = stale_among(entries, now, max_age_days, extension, n);
        assert forall|k: int| 0 <= k < all.len() implies #[trigger] all[k] < n by {
            if k < before.len() {
                assert(all[k] == before[k]);
            }
        }
    }
}

/// With a maximal age of zero days the cutoff is now: every regular file
/// with the extension asked for that was modified before now is stale.
pub proof fn lemma_zero_age_cutoff_is_now(entry: BackupEntry, now: Stamp, extension: Seq<char>)
    ensures
        is_stale(entry, now, 0, extension) == (entry.is_file && nanos_of(entry.modified) < nanos_of(
            now,
        ) && entry.extension is Some && entry.extension->0@ == extension),
{
}

} // verus!
