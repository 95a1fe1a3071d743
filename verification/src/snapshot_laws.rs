//! What a planned snapshot does to a destination tree.
//!
//! A tree is modelled as a map from paths to file contents. A step that
//! cannot read its source leaves the destination as it is, as a failed copy
//! does. The laws below hold of the steps that `planned_steps` gives.

use vstd::prelude::*;
use crate::snapshot::{
    components_of, database_steps, has_db_component, is_present, mirror_steps, planned_steps,
    PathView, StepView,
};

verus! {

/// The files of a tree: contents by path.
pub type Tree = Map<PathView, Seq<u8>>;

/// `bytes` cut to `length`, or filled up to it with zero bytes.
pub open spec fn resized(bytes: Seq<u8>, length: u64) -> Seq<u8> {
    if length <= bytes.len() {
        bytes.take(length as int)
    } else {
        bytes + Seq::new((length - bytes.len()) as nat, |i: int| 0u8)
    }
}

/// What a step writes at `p`, if it writes there.
pub open spec fn written_by(src: Tree, step: StepView, p: PathView) -> Option<Seq<u8>> {
    match step {
        StepView::CopyTruncated { path, length } => if path == p && src.contains_key(p) {
            Some(resized(src[p], length))
        } else {
            None
        },
        StepView::CopyFile { path } => if path == p && src.contains_key(p) {
            Some(src[p])
        } else {
            None
        },
        StepView::MakeDir { path } => None,
    }
}

/// The destination after one step.
pub open spec fn apply_step(src: Tree, dst: Tree, step: StepView) -> Tree {
    match step {
        StepView::CopyTruncated { path, length } => if src.contains_key(path) {
            dst.insert(path, resized(src[path], length))
        } else {
            dst
        },
        StepView::CopyFile { path } => if src.contains_key(path) {
            dst.insert(path, src[path])
        } else {
            dst
        },
        StepView::MakeDir { path } => dst,
    }
}

/// The destination after a sequence of steps, performed in order.
pub open spec fn apply_steps(src: Tree, dst: Tree, steps: Seq<StepView>) -> Tree
    decreases steps.len(),
{
    if steps.len() == 0 {
        dst
    } else {
        apply_step(src, apply_steps(src, dst, steps.drop_last()), steps.last())
    }
}

/// What the last step that writes at `p` writes there.
pub open spec fn last_write(src: Tree, steps: Seq<StepView>, p: PathView) -> Option<Seq<u8>>
    decreases steps.len(),
{
    if steps.len() == 0 {
        None
    } else {
        match written_by(src, steps.last(), p) {
            Some(v) => Some(v),
            None => last_write(src, steps.drop_last(), p),
        }
    }
}

/// The flags tell the truth: each says whether the source holds the file of
/// its record.
pub open spec fn flags_match(src: Tree, records: Seq<(Seq<char>, u64)>, present: Seq<bool>) -> bool {
    forall|i: int|
        0 <= i < records.len() ==> #[trigger] is_present(present, i) == src.contains_key(
            components_of(records[i].0),
        )
}

/// The listing is complete: it names as a file every file of the source that
/// lies under no component named `db`.
pub open spec fn listing_covers(src: Tree, entries: Seq<(PathView, bool)>) -> bool {
    forall|p: PathView|
        #![trigger src.contains_key(p)]
        src.contains_key(p) && !has_db_component(p) ==> exists|k: int|
            0 <= k < entries.len() && #[trigger] entries[k] == (p, false)
}

/// The snapshot of `src` into `dst` that the manifest records, the flags and
/// the listing ask for.
pub open spec fn snapshot_of(
    src: Tree,
    dst: Tree,
    records: Seq<(Seq<char>, u64)>,
    present: Seq<bool>,
    entries: Seq<(PathView, bool)>,
) -> Tree {
    apply_steps(src, dst, planned_steps(records, present, entries))
}

/// A resized file has the length asked for and keeps the bytes that it had
/// up to that length.
pub proof fn lemma_resized(bytes: Seq<u8>, length: u64)
    ensures
        resized(bytes, length).len() == length,
        forall|k: int|
            0 <= k < length && k < bytes.len() ==> #[trigger] resized(bytes, length)[k] == bytes[k],
        forall|k: int| bytes.len() <= k < length ==> #[trigger] resized(bytes, length)[k] == 0,
{
}

/// After a sequence of steps a path holds what the last step that wrote
/// there wrote, and what it held before where none did.
pub proof fn lemma_apply_steps(src: Tree, dst: Tree, steps: Seq<StepView>, p: PathView)
    ensures
        match last_write(src, steps, p) {
            Some(v) => apply_steps(src, dst, steps).contains_key(p) && apply_steps(
                src,
                dst,
                steps,
            )[p] == v,
            None => apply_steps(src, dst, steps).contains_key(p) == dst.contains_key(p) && (
            dst.contains_key(p) ==> apply_steps(src, dst, steps)[p] == dst[p]),
        },
    decreases steps.len(),
{
    if steps.len() > 0 {
        lemma_apply_steps(src, dst, steps.drop_last(), p);
    }
}

/// The last write of two sequences of steps in a row is that of the second,
/// or that of the first where the second writes nothing at the path.
pub proof fn lemma_last_write_concat(src: Tree, a: Seq<StepView>, b: Seq<StepView>, p: PathView)
    ensures
        last_write(src, a + b, p) == match last_write(src, b, p) {
            Some(v) => Some(v),
            None => last_write(src, a, p),
        },
    decreases b.len(),
{
    if b.len() == 0 {
        assert(a + b =~= a);
    } else {
        assert((a + b).drop_last() =~= a + b.drop_last());
        assert((a + b).last() == b.last());
        lemma_last_write_concat(src, a, b.drop_last(), p);
    }
}

/// Whether record `j` is the last among the first `n` records that names
/// the path `p` and has its source found.
pub open spec fn is_last_record_of(
    records: Seq<(Seq<char>, u64)>,
    present: Seq<bool>,
    n: int,
    p: PathView,
    j: int,
) -> bool {
    &&& 0 <= j < n
    &&& is_present(present, j)
    &&& components_of(records[j].0) == p
    &&& forall|k: int|
        j < k < n && #[trigger] is_present(present, k) ==> components_of(records[k].0) != p
}

/// What the database steps write at a path comes from the last record of
/// that path whose source was found; where they write nothing, no such
/// record has a source.
pub proof fn lemma_database_last_write(
    src: Tree,
    records: Seq<(Seq<char>, u64)>,
    present: Seq<bool>,
    n: int,
    p: PathView,
)
    requires
        0 <= n <= records.len(),
    ensures
        match last_write(src, database_steps(records, present, n), p) {
            Some(v) => exists|j: int|
                #[trigger] is_last_record_of(records, present, n, p, j) && src.contains_key(p) && v
                    == resized(src[p], records[j].1),
            None => forall|j: int|
                0 <= j < n && #[trigger] is_present(present, j) && components_of(records[j].0) == p
                    ==> !src.contains_key(p),
        },
    decreases n,
{
    if n > 0 {
        lemma_database_last_write(src, records, present, n - 1, p);
        let before = database_steps(records, present, n - 1);
        let earlier = last_write(src, before, p);
        if is_present(present, n - 1) {
            let step = StepView::CopyTruncated {
                path: components_of(records[n - 1].0),
                length: records[n - 1].1,
            };
            assert(before.push(step).drop_last() =~= before);
            assert(before.push(step).last() == step);
            if written_by(src, step, p) is Some {
                assert(is_last_record_of(records, present, n, p, n - 1));
            } else if earlier is Some {
                let v = earlier.unwrap();
                let j = choose|j: int|
                    #[trigger] is_last_record_of(records, present, n - 1, p, j) && src.contains_key(
                        p,
                    ) && v == resized(src[p], records[j].1);
                assert(is_last_record_of(records, present, n, p, j));
            }
        } else if earlier is Some {
            let v = earlier.unwrap();
            let j = choose|j: int|
                #[trigger] is_last_record_of(records, present, n - 1, p, j) && src.contains_key(p)
                    && v == resized(src[p], records[j].1);
            assert(is_last_record_of(records, present, n, p, j));
        }
    }
}

/// What the mirror steps write at a path is the source file, and the path
/// lies under no `db` and is listed as a file; where they write nothing, the
/// listing does not name the path as such a file of the source.
pub proof fn lemma_mirror_last_write(src: Tree, entries: Seq<(PathView, bool)>, n: int, p: PathView)
    requires
        0 <= n <= entries.len(),
    ensures
        match last_write(src, mirror_steps(entries, n), p) {
            Some(v) => src.contains_key(p) && !has_db_component(p) && v == src[p] && exists|k: int|
                0 <= k < n && #[trigger] entries[k] == (p, false),
            None => forall|k: int|
                0 <= k < n && #[trigger] entries[k] == (p, false) && !has_db_component(p)
                    ==> !src.contains_key(p),
        },
    decreases n,
{
    if n > 0 {
        lemma_mirror_last_write(src, entries, n - 1, p);
        let before = mirror_steps(entries, n - 1);
        let (path, is_dir) = entries[n - 1];
        if has_db_component(path) {
        } else if is_dir {
            let step = StepView::MakeDir { path };
            assert(before.push(step).drop_last() =~= before);
            assert(before.push(step).last() == step);
        } else {
            let step = StepView::CopyFile { path };
            assert(before.push(step).drop_last() =~= before);
            assert(before.push(step).last() == step);
        }
    }
}

/// The path at which a step writes, where it writes at all.
pub open spec fn target_of(step: StepView) -> Option<PathView> {
    match step {
        StepView::CopyTruncated { path, length } => Some(path),
        StepView::CopyFile { path } => Some(path),
        StepView::MakeDir { path } => None,
    }
}

/// Two steps that write at different paths may be performed in either
/// order, and so at the same time.
pub proof fn lemma_steps_on_distinct_paths_commute(src: Tree, dst: Tree, a: StepView, b: StepView)
    requires
        target_of(a) is None || target_of(b) is None || target_of(a) != target_of(b),
    ensures
        apply_step(src, apply_step(src, dst, a), b) == apply_step(src, apply_step(src, dst, b), a),
{
    assert(apply_step(src, apply_step(src, dst, a), b) =~= apply_step(
        src,
        apply_step(src, dst, b),
        a,
    ));
}

/// No mirror step touches a path under `db`, and no mirror step cuts a file:
/// the mirror leaves alone what the database steps wrote there.
pub proof fn lemma_mirror_avoids_db(entries: Seq<(PathView, bool)>, n: int, k: int)
    requires
        0 <= n <= entries.len(),
        0 <= k < mirror_steps(entries, n).len(),
    ensures
        match mirror_steps(entries, n)[k] {
            StepView::CopyTruncated { path, length } => false,
            StepView::CopyFile { path } => !has_db_component(path),
            StepView::MakeDir { path } => !has_db_component(path),
        },
    decreases n,
{
    if n > 0 {
        let before = mirror_steps(entries, n - 1);
        if k < before.len() {
            lemma_mirror_avoids_db(entries, n - 1, k);
        }
    }
}

/// Every database file that the source held has its recorded length in the
/// snapshot. Left out are the records that a later record of the same path
/// overrides with another length, and the records whose path lies under no
/// `db` and is listed as a file of another length, which the mirror then
/// copies whole.
pub proof fn lemma_recorded_length(
    src: Tree,
    dst: Tree,
    records: Seq<(Seq<char>, u64)>,
    present: Seq<bool>,
    entries: Seq<(PathView, bool)>,
    i: int,
)
    requires
        0 <= i < records.len(),
        flags_match(src, records, present),
        src.contains_key(components_of(records[i].0)),
        forall|j: int|
            i < j < records.len() && #[trigger] is_present(present, j) && components_of(
                records[j].0,
            ) == components_of(records[i].0) ==> records[j].1 == records[i].1,
        has_db_component(components_of(records[i].0)) || src[components_of(records[i].0)].len()
            == records[i].1 || forall|k: int|
            0 <= k < entries.len() ==> #[trigger] entries[k] != (
                components_of(records[i].0),
                false,
            ),
    ensures
        snapshot_of(src, dst, records, present, entries).contains_key(components_of(records[i].0)),
        snapshot_of(src, dst, records, present, entries)[components_of(records[i].0)].len()
            == records[i].1,
        snapshot_of(src, dst, records, present, entries)[components_of(records[i].0)] == resized(
            src[components_of(records[i].0)],
            records[i].1,
        ),
{
    let p = components_of(records[i].0);
    let n = records.len() as int;
    let database = database_steps(records, present, n);
    let mirror = mirror_steps(entries, entries.len() as int);
    lemma_database_last_write(src, records, present, n, p);
    lemma_mirror_last_write(src, entries, entries.len() as int, p);
    lemma_last_write_concat(src, database, mirror, p);
    lemma_apply_steps(src, dst, database + mirror, p);
    lemma_resized(src[p], records[i].1);
    assert(is_present(present, i));
    match last_write(src, mirror, p) {
        Some(v) => {
            assert(resized(src[p], records[i].1) =~= src[p]);
        },
        None => {
            let v = last_write(src, database, p).unwrap();
            let j = choose|j: int|
                #[trigger] is_last_record_of(records, present, n, p, j) && src.contains_key(p) && v
                    == resized(src[p], records[j].1);
            assert(j >= i);
        },
    }
}

/// A record of length zero leaves an empty file in the snapshot.
pub proof fn lemma_zero_length_record(
    src: Tree,
    dst: Tree,
    records: Seq<(Seq<char>, u64)>,
    present: Seq<bool>,
    entries: Seq<(PathView, bool)>,
    i: int,
)
    requires
        0 <= i < records.len(),
        records[i].1 == 0,
        flags_match(src, records, present),
        src.contains_key(components_of(records[i].0)),
        forall|j: int|
            i < j < records.len() && #[trigger] is_present(present, j) && components_of(
                records[j].0,
            ) == components_of(records[i].0) ==> records[j].1 == 0,
        has_db_component(components_of(records[i].0)),
    ensures
        snapshot_of(src, dst, records, present, entries).contains_key(components_of(records[i].0)),
        snapshot_of(src, dst, records, present, entries)[components_of(records[i].0)]
            == Seq::<u8>::empty(),
{
    lemma_recorded_length(src, dst, records, present, entries, i);
    assert(snapshot_of(src, dst, records, present, entries)[components_of(records[i].0)]
        =~= Seq::<u8>::empty());
}

/// Every file of the source that lies under no component named `db` is in
/// the snapshot with the same contents, where the manifest has a record at
/// all and the listing is complete.
pub proof fn lemma_mirror_is_exact(
    src: Tree,
    dst: Tree,
    records: Seq<(Seq<char>, u64)>,
    present: Seq<bool>,
    entries: Seq<(PathView, bool)>,
    f: PathView,
)
    requires
        records.len() > 0,
        listing_covers(src, entries),
        src.contains_key(f),
        !has_db_component(f),
    ensures
        snapshot_of(src, dst, records, present, entries).contains_key(f),
        snapshot_of(src, dst, records, present, entries)[f] == src[f],
{
    let database = database_steps(records, present, records.len() as int);
    let mirror = mirror_steps(entries, entries.len() as int);
    lemma_mirror_last_write(src, entries, entries.len() as int, f);
    lemma_last_write_concat(src, database, mirror, f);
    lemma_apply_steps(src, dst, database + mirror, f);
    let k = choose|k: int| 0 <= k < entries.len() && #[trigger] entries[k] == (f, false);
    assert(entries[k] == (f, false));
}

/// The snapshot holds nothing new but files that the manifest lists and
/// files of the source that lie under no `db`: a path that the snapshot
/// holds and the destination did not hold before is a file of the source,
/// and it is the path of a record whose source was found or lies under no
/// component named `db`.
pub proof fn lemma_nothing_else_written(
    src: Tree,
    dst: Tree,
    records: Seq<(Seq<char>, u64)>,
    present: Seq<bool>,
    entries: Seq<(PathView, bool)>,
    p: PathView,
)
    requires
        snapshot_of(src, dst, records, present, entries).contains_key(p),
        !dst.contains_key(p),
    ensures
        src.contains_key(p),
        !has_db_component(p) || exists|j: int|
            0 <= j < records.len() && #[trigger] is_present(present, j) && components_of(
                records[j].0,
            ) == p,
{
    let database = database_steps(records, present, records.len() as int);
    let mirror = mirror_steps(entries, entries.len() as int);
    if records.len() > 0 {
        lemma_database_last_write(src, records, present, records.len() as int, p);
        lemma_mirror_last_write(src, entries, entries.len() as int, p);
        lemma_last_write_concat(src, database, mirror, p);
        lemma_apply_steps(src, dst, database + mirror, p);
        if last_write(src, mirror, p) is None {
            let v = last_write(src, database, p)->0;
            let j = choose|j: int|
                #[trigger] is_last_record_of(records, present, records.len() as int, p, j)
                    && src.contains_key(p) && v == resized(src[p], records[j].1);
            assert(is_present(present, j));
        }
    }
}

/// A path that the source does not hold is passed over: the snapshot holds
/// there what the destination held before.
pub proof fn lemma_absent_source_is_skipped(
    src: Tree,
    dst: Tree,
    records: Seq<(Seq<char>, u64)>,
    present: Seq<bool>,
    entries: Seq<(PathView, bool)>,
    p: PathView,
)
    requires
        !src.contains_key(p),
    ensures
        snapshot_of(src, dst, records, present, entries).contains_key(p) == dst.contains_key(p),
        dst.contains_key(p) ==> snapshot_of(src, dst, records, present, entries)[p] == dst[p],
{
    let steps = planned_steps(records, present, entries);
    lemma_no_write_without_source(src, steps, p);
    lemma_apply_steps(src, dst, steps, p);
}

/// No step writes at a path that the source does not hold.
pub proof fn lemma_no_write_without_source(src: Tree, steps: Seq<StepView>, p: PathView)
    requires
        !src.contains_key(p),
    ensures
        last_write(src, steps, p) is None,
    decreases steps.len(),
{
    if steps.len() > 0 {
        lemma_no_write_without_source(src, steps.drop_last(), p);
    }
}

/// A manifest without records writes nothing.
pub proof fn lemma_empty_manifest_writes_nothing(
    src: Tree,
    dst: Tree,
    present: Seq<bool>,
    entries: Seq<(PathView, bool)>,
)
    ensures
        planned_steps(Seq::<(Seq<char>, u64)>::empty(), present, entries) == Seq::<StepView>::empty(),
        snapshot_of(src, dst, Seq::<(Seq<char>, u64)>::empty(), present, entries) == dst,
{
}

/// Performing the same steps a second time changes nothing, as long as the
/// source stays as it was.
pub proof fn lemma_steps_idempotent(src: Tree, dst: Tree, steps: Seq<StepView>)
    ensures
        apply_steps(src, apply_steps(src, dst, steps), steps) == apply_steps(src, dst, steps),
{
    let once = apply_steps(src, dst, steps);
    let twice = apply_steps(src, once, steps);
    assert forall|p: PathView| #[trigger] twice.dom().contains(p) == once.dom().contains(p) by {
        lemma_apply_steps(src, dst, steps, p);
        lemma_apply_steps(src, once, steps, p);
    }
    assert forall|p: PathView| once.dom().contains(p) implies #[trigger] twice[p] == once[p] by {
        lemma_apply_steps(src, dst, steps, p);
        lemma_apply_steps(src, once, steps, p);
    }
    assert(twice =~= once);
}

/// A snapshot taken twice leaves the destination as one snapshot does.
pub proof fn lemma_snapshot_idempotent(
    src: Tree,
    dst: Tree,
    records: Seq<(Seq<char>, u64)>,
    present: Seq<bool>,
    entries: Seq<(PathView, bool)>,
)
    ensures
        snapshot_of(
            src,
            snapshot_of(src, dst, records, present, entries),
            records,
            present,
            entries,
        ) == snapshot_of(src, dst, records, present, entries),
{
    lemma_steps_idempotent(src, dst, planned_steps(records, present, entries));
}

} // verus!
