//! The consistent snapshot of a live world: which files are copied, and which
//! of them are cut to the length that the manifest records.
//!
//! The database files, named by the manifest, are copied and then cut or
//! extended to their recorded lengths. Everything of the source that lies
//! under no component named `db` is copied as it is. This module decides the
//! steps; the program around it performs them.

use vstd::prelude::*;
use crate::manifest::{is_separator, record_views, ManifestRecord};
use crate::text::{chars_of, string_views};

verus! {

/// A path as the sequence of its components.
pub type PathView = Seq<Seq<char>>;

/// The position of the first separator in `s`, or the length of `s` where
/// there is none.
pub open spec fn separator_index(s: Seq<char>) -> int
    decreases s.len(),
{
    if s.len() == 0 || is_separator(s[0]) {
        0
    } else {
        1 + separator_index(s.drop_first())
    }
}

/// The components of a relative path as a manifest writes it: the pieces
/// between separators of either convention, empty pieces left out.
pub open spec fn components_of(path: Seq<char>) -> PathView
    decreases path.len(),
{
    let cut = separator_index(path);
    let head = if cut > 0 {
        seq![path.take(cut)]
    } else {
        seq![]
    };
    if 0 <= cut < path.len() {
        head + components_of(path.skip(cut + 1))
    } else {
        head
    }
}

/// Whether a path runs through a component named `db`.
pub open spec fn has_db_component(path: PathView) -> bool {
    exists|i: int| 0 <= i < path.len() && #[trigger] path[i] == "db"@
}

/// An entry of the source tree, as a walk of it finds it.
#[derive(Clone, Debug, PartialEq, Eq)]
pub struct SourceEntry {
    /// The components of the entry's path below the source root.
    pub components: Vec<String>,
    /// Whether the entry is a directory.
    pub is_dir: bool,
}

/// One step of a snapshot. Paths are relative to the source root for what is
/// read and to the destination root for what is written.
#[derive(Clone, Debug, PartialEq, Eq)]
pub enum SnapshotStep {
    /// Copy the file, creating the destination's parents, then set the
    /// destination's length.
    CopyTruncated { path: Vec<String>, length: u64 },
    /// Create the directory and its parents.
    MakeDir { path: Vec<String> },
    /// Copy the file as it is.
    CopyFile { path: Vec<String> },
}

/// A step over path views.
pub enum StepView {
    CopyTruncated { path: PathView, length: u64 },
    MakeDir { path: PathView },
    CopyFile { path: PathView },
}

impl View for SnapshotStep {
    type V = StepView;

    open spec fn view(&self) -> StepView {
        match *self {
            SnapshotStep::CopyTruncated { path, length } => StepView::CopyTruncated {
                path: string_views(path@),
                length,
            },
            SnapshotStep::MakeDir { path } => StepView::MakeDir { path: string_views(path@) },
            SnapshotStep::CopyFile { path } => StepView::CopyFile { path: string_views(path@) },
        }
    }
}

/// The steps of a vector, each by its view.
pub open spec fn step_views(steps: Seq<SnapshotStep>) -> Seq<StepView> {
    Seq::new(steps.len(), |i: int| steps[i]@)
}

/// The entries of a vector, each as its components and its directory flag.
pub open spec fn entry_views(entries: Seq<SourceEntry>) -> Seq<(PathView, bool)> {
    Seq::new(entries.len(), |i: int| (string_views(entries[i].components@), entries[i].is_dir))
}

/// Whether the source file of record `i` was found. A record without a flag
/// counts as not found.
pub open spec fn is_present(present: Seq<bool>, i: int) -> bool {
    0 <= i < present.len() && present[i]
}

/// The database steps: one truncating copy for each of the first `n` records
/// whose source file was found, in the order of the records.
pub open spec fn database_steps(records: Seq<(Seq<char>, u64)>, present: Seq<bool>, n: int) -> Seq<
    StepView,
>
    decreases n,
{
    if n <= 0 || n > records.len() {
        seq![]
    } else {
        let before = database_steps(records, present, n - 1);
        if is_present(present, n - 1) {
            before.push(
                StepView::CopyTruncated {
                    path: components_of(records[n - 1].0),
                    length: records[n - 1].1,
                },
            )
        } else {
            before
        }
    }
}

/// The mirror steps: one for each of the first `n` entries that lies under
/// no component named `db`, in the order of the entries.
pub open spec fn mirror_steps(entries: Seq<(PathView, bool)>, n: int) -> Seq<StepView>
    decreases n,
{
    if n <= 0 || n > entries.len() {
        seq![]
    } else {
        let before = mirror_steps(entries, n - 1);
        let (path, is_dir) = entries[n - 1];
        if has_db_component(path) {
            before
        } else if is_dir {
            before.push(StepView::MakeDir { path })
        } else {
            before.push(StepView::CopyFile { path })
        }
    }
}

/// The steps of a snapshot. A manifest without records asks for nothing at
/// all; any other asks for its database steps and then the mirror steps.
pub open spec fn planned_steps(
    records: Seq<(Seq<char>, u64)>,
    present: Seq<bool>,
    entries: Seq<(PathView, bool)>,
) -> Seq<StepView> {
    if records.len() == 0 {
        seq![]
    } else {
        database_steps(records, present, records.len() as int) + mirror_steps(
            entries,
            entries.len() as int,
        )
    }
}

/// Splits a relative path, as a manifest writes it, into its components.
pub fn path_components(path: &str) -> (components: Vec<String>)
    ensures
        string_views(components@) == components_of(path@),
{
    let chars = chars_of(path);
    let n: usize = chars.len();
    let mut out: Vec<String> = Vec::new();
    let mut pos: usize = 0;
    let mut done: bool = false;
    assert(chars@.skip(0) =~= chars@);
    assert(string_views(out@) + components_of(chars@) =~= components_of(chars@));
    while !done
        invariant
            chars@ == path@,
            n == chars.len(),
            pos <= n,
            !done ==> components_of(path@) == string_views(out@) + components_of(
                chars@.skip(pos as int),
            ),
            done ==> components_of(path@) == string_views(out@),
        decreases n - pos + if done { 0int } else { 1int },
    {
        let ghost rest = chars@.skip(pos as int);
        let ghost views = string_views(out@);
        let mut cut: usize = pos;
        while cut < n && !(chars[cut] == '/' || chars[cut] == '\\')
            invariant
                pos <= cut <= n,
                n == chars.len(),
                rest == chars@.skip(pos as int),
                separator_index(rest) == (cut - pos) + separator_index(chars@.skip(cut as int)),
            decreases n - cut,
        {
            assert(chars@.skip(cut as int).drop_first() =~= chars@.skip(cut + 1));
            cut += 1;
        }
        assert(separator_index(rest) == cut - pos);
        if cut > pos {
            let piece = path.substring_char(pos, cut).to_owned();
            assert(piece@ =~= rest.take(cut - pos));
            out.push(piece);
            assert(string_views(out@) =~= views + seq![rest.take(cut - pos)]);
        } else {
            assert(views + Seq::<Seq<char>>::empty() =~= views);
        }
        let ghost head: PathView = if cut > pos {
            seq![rest.take(cut - pos)]
        } else {
            seq![]
        };
        if cut < n {
            assert(rest.skip(cut - pos + 1) =~= chars@.skip(cut + 1));
            assert(views + (head + components_of(rest.skip(cut - pos + 1))) =~= (views + head)
                + components_of(rest.skip(cut - pos + 1)));
            pos = cut + 1;
        } else {
            done = true;
        }
    }
    out
}

/// Tests whether a path runs through a component named `db`.
pub fn runs_through_db(path: &Vec<String>) -> (b: bool)
    ensures
        b == has_db_component(string_views(path@)),
{
    let db = String::from_str("db");
    let mut i: usize = 0;
    while i < path.len()
        invariant
            i <= path.len(),
            db@ == "db"@,
            forall|j: int| 0 <= j < i ==> string_views(path@)[j] != "db"@,
        decreases path.len() - i,
    {
        if path[i] == db {
            assert(string_views(path@)[i as int] == "db"@);
            return true;
        }
        i += 1;
    }
    false
}

fn clone_path(path: &Vec<String>) -> (copy: Vec<String>)
    ensures
        string_views(copy@) == string_views(path@),
{
    let mut copy: Vec<String> = Vec::new();
    let mut i: usize = 0;
    while i < path.len()
        invariant
            i <= path.len(),
            copy@.len() == i,
            forall|j: int| 0 <= j < i ==> copy@[j]@ == path@[j]@,
        decreases path.len() - i,
    {
        copy.push(path[i].clone());
        i += 1;
    }
    assert(string_views(copy@) =~= string_views(path@));
    copy
}

/// Plans the database steps: a truncating copy for each record whose flag in
/// `present` says that its source file exists, in the order of the records.
pub fn plan_database(records: &Vec<ManifestRecord>, present: &Vec<bool>) -> (steps: Vec<
    SnapshotStep,
>)
    ensures
        step_views(steps@) == database_steps(
            record_views(records@),
            present@,
            records@.len() as int,
        ),
{
    let ghost rv = record_views(records@);
    let mut steps: Vec<SnapshotStep> = Vec::new();
    let mut i: usize = 0;
    assert(step_views(steps@) =~= database_steps(rv, present@, 0));
    while i < records.len()
        invariant
            i <= records.len(),
            rv == record_views(records@),
            step_views(steps@) == database_steps(rv, present@, i as int),
        decreases records.len() - i,
    {
        let ghost views = step_views(steps@);
        if i < present.len() && present[i] {
            let path = path_components(records[i].relative_path.as_str());
            let length = records[i].length;
            let step = SnapshotStep::CopyTruncated { path, length };
            assert(step@ == StepView::CopyTruncated {
                path: components_of(rv[i as int].0),
                length: rv[i as int].1,
            });
            steps.push(step);
            assert(step_views(steps@) =~= views.push(step@));
        }
        i += 1;
    }
    steps
}

/// Plans the mirror steps: for each entry that lies under no component
/// named `db`, the creation of the directory or the copy of the file, in the
/// order of the entries.
pub fn plan_mirror(entries: &Vec<SourceEntry>) -> (steps: Vec<SnapshotStep>)
    ensures
        step_views(steps@) == mirror_steps(entry_views(entries@), entries@.len() as int),
{
    let ghost ev = entry_views(entries@);
    let mut steps: Vec<SnapshotStep> = Vec::new();
    let mut k: usize = 0;
    assert(step_views(steps@) =~= mirror_steps(ev, 0));
    while k < entries.len()
        invariant
            k <= entries.len(),
            ev == entry_views(entries@),
            step_views(steps@) == mirror_steps(ev, k as int),
        decreases entries.len() - k,
    {
        let ghost views = step_views(steps@);
        let entry = &entries[k];
        assert(ev[k as int] == (string_views(entry.components@), entry.is_dir));
        if !runs_through_db(&entry.components) {
            let path = clone_path(&entry.components);
            let step = if entry.is_dir {
                SnapshotStep::MakeDir { path }
            } else {
                SnapshotStep::CopyFile { path }
            };
            steps.push(step);
            assert(step_views(steps@) =~= views.push(step@));
        }
        k += 1;
    }
    steps
}

/// Plans a snapshot from the records of the manifest, a flag for each record
/// that says whether its source file exists, and the entries of the source
/// tree. A manifest without records asks for nothing at all. The steps are
/// to be performed in the order given; the database steps come first.
pub fn plan_snapshot(
    records: &Vec<ManifestRecord>,
    present: &Vec<bool>,
    entries: &Vec<SourceEntry>,
) -> (steps: Vec<SnapshotStep>)
    ensures
        step_views(steps@) == planned_steps(
            record_views(records@),
            present@,
            entry_views(entries@),
        ),
{
    if records.len() == 0 {
        let steps: Vec<SnapshotStep> = Vec::new();
        assert(step_views(steps@) =~= Seq::<StepView>::empty());
        return steps;
    }
    let mut steps = plan_database(records, present);
    let mut mirror = plan_mirror(entries);
    let ghost database_views = step_views(steps@);
    let ghost mirror_views = step_views(mirror@);
    steps.append(&mut mirror);
    assert(step_views(steps@) =~= database_views + mirror_views);
    steps
}

} // verus!
