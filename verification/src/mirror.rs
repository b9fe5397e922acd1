//! Mirrors of embedded metadata directories.
//!
//! Each metadata directory found below a repository's root, other than the root's own, has
//! a mirror beside the repository. A pass walks the source directory and the mirror, and
//! brings the mirror up to date: directories and files that the mirror lacks are created,
//! files that changed since the mirror's watermark are copied again, and what the source
//! no longer holds is removed, deepest paths first. The mirror's own modification time is
//! the watermark, and the pass ends by stamping it.
//!
//! Walking and changing the file system is the caller's part. This module turns the two
//! listings into the list of changes to make.

use crate::paths::{
    components, join_path, joined_path, lemma_contains_last, lemma_contains_push, path_components,
};
use crate::text::{append_decimal, chars_of, decimal, same_text, texts};
use crate::time::Instant;
use vstd::prelude::*;
use vstd::string::*;

verus! {

/// An entry of the source directory: its path relative to that directory, whether it is a
/// directory, and when it was last modified.
pub struct SourceEntry {
    pub path: String,
    pub is_dir: bool,
    /// When the entry was last modified, where that was read. It has to be read only for
    /// the files that `needs_mtime` names: those that the mirror already holds.
    pub mtime: Option<Instant>,
}

/// An entry of the mirror: its path relative to the mirror's root, and whether it is a
/// directory.
pub struct MirrorEntry {
    pub path: String,
    pub is_dir: bool,
}

/// One change to make to the mirror.
pub enum MirrorOp {
    /// Create the directory, with the directories above it.
    MakeDir { path: String },
    /// Copy the file from the source and make the copy writable. `fresh` tells that the
    /// mirror did not hold the file before.
    Copy { path: String, fresh: bool },
    /// Remove the entry, which is a directory if `is_dir` is set.
    Remove { path: String, is_dir: bool },
    /// Set the modification time of the mirror's root to the present.
    Stamp,
}

/// A change to the mirror, as specifications see it.
pub enum Change {
    MakeDir { path: Seq<char> },
    Copy { path: Seq<char>, fresh: bool },
    Remove { path: Seq<char>, is_dir: bool },
    Stamp,
}

impl View for MirrorOp {
    type V = Change;

    open spec fn view(&self) -> Change {
        match self {
            MirrorOp::MakeDir { path } => Change::MakeDir { path: path@ },
            MirrorOp::Copy { path, fresh } => Change::Copy { path: path@, fresh: *fresh },
            MirrorOp::Remove { path, is_dir } => Change::Remove { path: path@, is_dir: *is_dir },
            MirrorOp::Stamp => Change::Stamp,
        }
    }
}

/// The changes that a list of operations stands for.
pub open spec fn changes(ops: Seq<MirrorOp>) -> Seq<Change> {
    ops.map_values(|op: MirrorOp| op@)
}

/// The relative paths of the source entries, in order.
pub open spec fn source_paths(source: Seq<SourceEntry>) -> Seq<Seq<char>> {
    source.map_values(|e: SourceEntry| e.path@)
}

/// The relative paths of the mirror entries, in order.
pub open spec fn mirror_paths(mirror: Seq<MirrorEntry>) -> Seq<Seq<char>> {
    mirror.map_values(|e: MirrorEntry| e.path@)
}

/// The paths that a listing stands for. The empty path is the listed directory itself and
/// does not count.
pub open spec fn listed(paths: Seq<Seq<char>>) -> Set<Seq<char>> {
    Set::new(|p: Seq<char>| p.len() > 0 && paths.contains(p))
}

/// Whether the mirror holds the path of the `i`-th source entry and no earlier source
/// entry has accounted for it.
pub open spec fn awaited(source: Seq<SourceEntry>, mirror: Seq<MirrorEntry>, i: int) -> bool {
    &&& mirror_paths(mirror).contains(source[i].path@)
    &&& !source_paths(source).take(i).contains(source[i].path@)
}

/// Whether a file that the mirror holds counts as changed since the watermark: it does
/// where there is no watermark, where its modification time is later, and where that time
/// was not read.
pub open spec fn changed_since(mtime: Option<Instant>, watermark: Option<Instant>) -> bool {
    match (mtime, watermark) {
        (Some(modified), Some(mark)) => modified.later_than(mark),
        _ => true,
    }
}

/// Whether the modification time of an entry at `path` has to be read, given the entries
/// of the source listed before it: only for a file that the mirror holds and that no
/// earlier entry has accounted for. The time of any other entry decides nothing.
pub open spec fn mtime_needed(
    earlier: Seq<SourceEntry>,
    mirror: Seq<MirrorEntry>,
    path: Seq<char>,
    is_dir: bool,
) -> bool {
    &&& !is_dir
    &&& path.len() > 0
    &&& mirror_paths(mirror).contains(path)
    &&& !source_paths(earlier).contains(path)
}

/// The change that the `i`-th source entry asks for, if any. A directory is created unless
/// the mirror has it. A file that the mirror has is copied again if it counts as changed
/// since the watermark; a file that the mirror lacks is always copied.
pub open spec fn entry_change(
    source: Seq<SourceEntry>,
    mirror: Seq<MirrorEntry>,
    watermark: Option<Instant>,
    i: int,
) -> Option<Change> {
    let entry = source[i];
    if entry.path@.len() == 0 {
        None
    } else if entry.is_dir {
        if awaited(source, mirror, i) {
            None
        } else {
            Some(Change::MakeDir { path: entry.path@ })
        }
    } else if awaited(source, mirror, i) {
        if changed_since(entry.mtime, watermark) {
            Some(Change::Copy { path: entry.path@, fresh: false })
        } else {
            None
        }
    } else {
        Some(Change::Copy { path: entry.path@, fresh: true })
    }
}

/// The changes that the first `n` source entries ask for, in the order of the walk.
pub open spec fn walk_changes(
    source: Seq<SourceEntry>,
    mirror: Seq<MirrorEntry>,
    watermark: Option<Instant>,
    n: int,
) -> Seq<Change>
    decreases n,
{
    if n <= 0 {
        Seq::<Change>::empty()
    } else {
        let before = walk_changes(source, mirror, watermark, n - 1);
        match entry_change(source, mirror, watermark, n - 1) {
            Some(change) => before.push(change),
            None => before,
        }
    }
}

/// The mirror entries that the source no longer accounts for, in the order of the mirror.
pub open spec fn leftover(mirror: Seq<MirrorEntry>, kept: Seq<Seq<char>>) -> Seq<MirrorEntry>
    decreases mirror.len(),
{
    if mirror.len() == 0 {
        Seq::<MirrorEntry>::empty()
    } else if mirror.last().path@.len() > 0 && !kept.contains(mirror.last().path@) {
        leftover(mirror.drop_last(), kept).push(mirror.last())
    } else {
        leftover(mirror.drop_last(), kept)
    }
}

/// How deep a relative path lies: the number of separators in it.
pub open spec fn depth(path: Seq<char>) -> nat
    decreases path.len(),
{
    if path.len() == 0 {
        0
    } else if path.last() == '/' {
        depth(path.drop_last()) + 1
    } else {
        depth(path.drop_last())
    }
}

/// The greatest depth among the entries, or zero where there are none.
pub open spec fn max_depth(entries: Seq<MirrorEntry>) -> nat
    decreases entries.len(),
{
    if entries.len() == 0 {
        0
    } else if depth(entries.last().path@) > max_depth(entries.drop_last()) {
        depth(entries.last().path@)
    } else {
        max_depth(entries.drop_last())
    }
}

/// The removals of the entries that lie exactly `d` deep, in the order of the entries.
pub open spec fn removals_at(entries: Seq<MirrorEntry>, d: nat) -> Seq<Change>
    decreases entries.len(),
{
    if entries.len() == 0 {
        Seq::<Change>::empty()
    } else if depth(entries.last().path@) == d {
        removals_at(entries.drop_last(), d).push(
            Change::Remove { path: entries.last().path@, is_dir: entries.last().is_dir },
        )
    } else {
        removals_at(entries.drop_last(), d)
    }
}

/// The removals of the entries that lie at most `d` deep, the deepest first.
pub open spec fn removals_from(entries: Seq<MirrorEntry>, d: nat) -> Seq<Change>
    decreases d,
{
    if d == 0 {
        removals_at(entries, 0)
    } else {
        removals_at(entries, d) + removals_from(entries, (d - 1) as nat)
    }
}

/// The removals of all the entries, the deepest first.
pub open spec fn removals(entries: Seq<MirrorEntry>) -> Seq<Change> {
    removals_from(entries, max_depth(entries))
}

/// The changes of one pass: what the walk of the source asks for, then the removal of what
/// the source no longer holds, then the stamp.
pub open spec fn plan_of(
    source: Seq<SourceEntry>,
    mirror: Seq<MirrorEntry>,
    watermark: Option<Instant>,
) -> Seq<Change> {
    walk_changes(source, mirror, watermark, source.len() as int) + removals(
        leftover(mirror, source_paths(source)),
    ) + seq![Change::Stamp]
}

/// The paths that the mirror holds after one change, where it held `present` before and
/// the change succeeds.
pub open spec fn apply_change(present: Set<Seq<char>>, change: Change) -> Set<Seq<char>> {
    match change {
        Change::MakeDir { path } => present.insert(path),
        Change::Copy { path, fresh } => present.insert(path),
        Change::Remove { path, is_dir } => present.remove(path),
        Change::Stamp => present,
    }
}

/// The paths that the mirror holds after the changes, made in order.
pub open spec fn apply_changes(present: Set<Seq<char>>, list: Seq<Change>) -> Set<Seq<char>>
    decreases list.len(),
{
    if list.len() == 0 {
        present
    } else {
        apply_change(apply_changes(present, list.drop_last()), list.last())
    }
}

/// Whether `change` copies a file or creates a directory at `path`.
pub open spec fn adds(change: Change, path: Seq<char>) -> bool {
    match change {
        Change::MakeDir { path: made } => made == path,
        Change::Copy { path: copied, fresh } => copied == path,
        _ => false,
    }
}

/// Whether `change` removes the entry at `path`.
pub open spec fn removes(change: Change, path: Seq<char>) -> bool {
    match change {
        Change::Remove { path: removed, is_dir } => removed == path,
        _ => false,
    }
}

/// Whether `list` holds a change that adds `path`.
pub open spec fn adds_path(list: Seq<Change>, path: Seq<char>) -> bool {
    exists|k: int| 0 <= k < list.len() && adds(#[trigger] list[k], path)
}

/// Whether `list` holds a change that removes `path`.
pub open spec fn removes_path(list: Seq<Change>, path: Seq<char>) -> bool {
    exists|k: int| 0 <= k < list.len() && removes(#[trigger] list[k], path)
}

/// Whether every change in `list` adds something.
pub open spec fn only_adds(list: Seq<Change>) -> bool {
    forall|k: int|
        0 <= k < list.len() ==> (#[trigger] list[k] is MakeDir || list[k] is Copy)
}

/// Whether every change in `list` removes something.
pub open spec fn only_removes(list: Seq<Change>) -> bool {
    forall|k: int| 0 <= k < list.len() ==> #[trigger] list[k] is Remove
}

/// The depth of the path that a removal names.
pub open spec fn removal_depth(change: Change) -> nat {
    match change {
        Change::Remove { path, is_dir } => depth(path),
        _ => 0,
    }
}

proof fn lemma_apply_concat(present: Set<Seq<char>>, a: Seq<Change>, b: Seq<Change>)
    ensures
        apply_changes(present, a + b) == apply_changes(apply_changes(present, a), b),
    decreases b.len(),
{
    if b.len() == 0 {
        assert(a + b =~= a);
    } else {
        assert((a + b).drop_last() =~= a + b.drop_last());
        assert((a + b).last() == b.last());
        lemma_apply_concat(present, a, b.drop_last());
    }
}

proof fn lemma_apply_adds(present: Set<Seq<char>>, list: Seq<Change>)
    requires
        only_adds(list),
    ensures
        forall|p: Seq<char>| #[trigger]
            apply_changes(present, list).contains(p) <==> present.contains(p) || adds_path(
                list,
                p,
            ),
    decreases list.len(),
{
    if list.len() > 0 {
        let rest = list.drop_last();
        let last = list.last();
        assert forall|k: int| 0 <= k < rest.len() implies (#[trigger] rest[k] is MakeDir
            || rest[k] is Copy) by {
            assert(rest[k] == list[k]);
        }
        lemma_apply_adds(present, rest);
        assert(last == list[list.len() - 1]);
        assert forall|p: Seq<char>| #[trigger]
            apply_changes(present, list).contains(p) <==> present.contains(p) || adds_path(
                list,
                p,
            ) by {
            let inner = apply_changes(present, rest);
            assert(inner.contains(p) <==> present.contains(p) || adds_path(rest, p));
            if adds_path(rest, p) {
                let k = choose|k: int| 0 <= k < rest.len() && adds(#[trigger] rest[k], p);
                assert(adds(list[k], p));
            }
            if adds(last, p) {
                assert(adds(list[list.len() - 1], p));
            }
            if adds_path(list, p) {
                let k = choose|k: int| 0 <= k < list.len() && adds(#[trigger] list[k], p);
                if k < rest.len() {
                    assert(adds(rest[k], p));
                }
            }
        }
    } else {
        assert forall|p: Seq<char>| !adds_path(list, p) by {}
    }
}

proof fn lemma_apply_removes(present: Set<Seq<char>>, list: Seq<Change>)
    requires
        only_removes(list),
    ensures
        forall|p: Seq<char>| #[trigger]
            apply_changes(present, list).contains(p) <==> present.contains(p) && !removes_path(
                list,
                p,
            ),
    decreases list.len(),
{
    if list.len() > 0 {
        let rest = list.drop_last();
        let last = list.last();
        assert forall|k: int| 0 <= k < rest.len() implies #[trigger] rest[k] is Remove by {
            assert(rest[k] == list[k]);
        }
        lemma_apply_removes(present, rest);
        assert(last == list[list.len() - 1]);
        assert forall|p: Seq<char>| #[trigger]
            apply_changes(present, list).contains(p) <==> present.contains(p) && !removes_path(
                list,
                p,
            ) by {
            let inner = apply_changes(present, rest);
            assert(inner.contains(p) <==> present.contains(p) && !removes_path(rest, p));
            if removes_path(rest, p) {
                let k = choose|k: int| 0 <= k < rest.len() && removes(#[trigger] rest[k], p);
                assert(removes(list[k], p));
            }
            if removes(last, p) {
                assert(removes(list[list.len() - 1], p));
            }
            if removes_path(list, p) {
                let k = choose|k: int| 0 <= k < list.len() && removes(#[trigger] list[k], p);
                if k < rest.len() {
                    assert(removes(rest[k], p));
                }
            }
        }
    } else {
        assert forall|p: Seq<char>| !removes_path(list, p) by {}
    }
}

proof fn lemma_walk_changes(
    source: Seq<SourceEntry>,
    mirror: Seq<MirrorEntry>,
    watermark: Option<Instant>,
    n: int,
)
    requires
        0 <= n <= source.len(),
    ensures
        only_adds(walk_changes(source, mirror, watermark, n)),
        forall|p: Seq<char>| #[trigger]
            adds_path(walk_changes(source, mirror, watermark, n), p) ==> p.len() > 0
                && source_paths(source).take(n).contains(p),
        forall|p: Seq<char>|
            p.len() > 0 && #[trigger] source_paths(source).take(n).contains(p) && !mirror_paths(
                mirror,
            ).contains(p) ==> adds_path(walk_changes(source, mirror, watermark, n), p),
    decreases n,
{
    let list = walk_changes(source, mirror, watermark, n);
    if n > 0 {
        let rest = walk_changes(source, mirror, watermark, n - 1);
        let entry = source[n - 1];
        let step = entry_change(source, mirror, watermark, n - 1);
        let seen = source_paths(source).take(n);
        let seen_before = source_paths(source).take(n - 1);
        lemma_walk_changes(source, mirror, watermark, n - 1);
        assert(seen.drop_last() =~= seen_before);
        assert(seen.last() == entry.path@);
        assert forall|k: int| 0 <= k < list.len() implies (#[trigger] list[k] is MakeDir
            || list[k] is Copy) by {
            if k < rest.len() {
                assert(list[k] == rest[k]);
            }
        }
        assert forall|p: Seq<char>| #[trigger] adds_path(list, p) implies p.len() > 0
            && seen.contains(p) by {
            lemma_contains_last(seen, p);
            let k = choose|k: int| 0 <= k < list.len() && adds(#[trigger] list[k], p);
            if k < rest.len() {
                assert(adds(rest[k], p));
                assert(adds_path(rest, p));
            }
        }
        assert forall|p: Seq<char>|
            p.len() > 0 && #[trigger] seen.contains(p) && !mirror_paths(mirror).contains(
                p,
            ) implies adds_path(list, p) by {
            lemma_contains_last(seen, p);
            if seen_before.contains(p) {
                assert(adds_path(rest, p));
                let k = choose|k: int| 0 <= k < rest.len() && adds(#[trigger] rest[k], p);
                assert(adds(list[k], p));
            } else {
                assert(entry.path@ == p);
                assert(!awaited(source, mirror, n - 1));
                assert(step is Some);
                assert(adds(list[list.len() - 1], p));
            }
        }
    } else {
        assert forall|p: Seq<char>| !adds_path(list, p) by {}
        assert(source_paths(source).take(0) =~= Seq::<Seq<char>>::empty());
    }
}

proof fn lemma_leftover(mirror: Seq<MirrorEntry>, kept: Seq<Seq<char>>)
    ensures
        forall|e: MirrorEntry| #[trigger]
            leftover(mirror, kept).contains(e) <==> mirror.contains(e) && e.path@.len() > 0
                && !kept.contains(e.path@),
    decreases mirror.len(),
{
    if mirror.len() > 0 {
        let rest = mirror.drop_last();
        lemma_leftover(rest, kept);
        assert forall|e: MirrorEntry| #[trigger]
            leftover(mirror, kept).contains(e) <==> mirror.contains(e) && e.path@.len() > 0
                && !kept.contains(e.path@) by {
            lemma_contains_last(mirror, e);
            lemma_contains_push(leftover(rest, kept), mirror.last(), e);
        }
    }
}

proof fn lemma_max_depth(entries: Seq<MirrorEntry>, k: int)
    requires
        0 <= k < entries.len(),
    ensures
        depth(entries[k].path@) <= max_depth(entries),
    decreases entries.len(),
{
    if k < entries.len() - 1 {
        lemma_max_depth(entries.drop_last(), k);
    }
}

proof fn lemma_removals_at(entries: Seq<MirrorEntry>, d: nat)
    ensures
        only_removes(removals_at(entries, d)),
        forall|k: int|
            0 <= k < removals_at(entries, d).len() ==> removal_depth(
                #[trigger] removals_at(entries, d)[k],
            ) == d,
        forall|p: Seq<char>| #[trigger]
            removes_path(removals_at(entries, d), p) <==> depth(p) == d && mirror_paths(
                entries,
            ).contains(p),
    decreases entries.len(),
{
    let list = removals_at(entries, d);
    let names = mirror_paths(entries);
    if entries.len() > 0 {
        let rest = entries.drop_last();
        let last = entries.last();
        let inner = removals_at(rest, d);
        lemma_removals_at(rest, d);
        assert(names.drop_last() =~= mirror_paths(rest));
        assert(names.last() == last.path@);
        assert forall|k: int| 0 <= k < list.len() implies #[trigger] list[k] is Remove
            && removal_depth(list[k]) == d by {
            if k < inner.len() {
                assert(list[k] == inner[k]);
            }
        }
        assert forall|p: Seq<char>| #[trigger]
            removes_path(list, p) <==> depth(p) == d && names.contains(p) by {
            lemma_contains_last(names, p);
            if removes_path(list, p) {
                let k = choose|k: int| 0 <= k < list.len() && removes(#[trigger] list[k], p);
                if k < inner.len() {
                    assert(removes(inner[k], p));
                    assert(removes_path(inner, p));
                }
            }
            if removes_path(inner, p) {
                let k = choose|k: int| 0 <= k < inner.len() && removes(#[trigger] inner[k], p);
                assert(removes(list[k], p));
            }
            if depth(p) == d && last.path@ == p {
                assert(removes(list[list.len() - 1], p));
            }
        }
    } else {
        assert forall|p: Seq<char>| !removes_path(list, p) by {}
    }
}

proof fn lemma_removals_from(entries: Seq<MirrorEntry>, d: nat)
    ensures
        only_removes(removals_from(entries, d)),
        forall|k: int|
            0 <= k < removals_from(entries, d).len() ==> removal_depth(
                #[trigger] removals_from(entries, d)[k],
            ) <= d,
        forall|i: int, j: int|
            0 <= i < j < removals_from(entries, d).len() ==> removal_depth(
                #[trigger] removals_from(entries, d)[i],
            ) >= removal_depth(#[trigger] removals_from(entries, d)[j]),
        forall|p: Seq<char>| #[trigger]
            removes_path(removals_from(entries, d), p) <==> depth(p) <= d && mirror_paths(
                entries,
            ).contains(p),
    decreases d,
{
    let list = removals_from(entries, d);
    let names = mirror_paths(entries);
    lemma_removals_at(entries, d);
    if d > 0 {
        let head = removals_at(entries, d);
        let tail = removals_from(entries, (d - 1) as nat);
        lemma_removals_from(entries, (d - 1) as nat);
        assert forall|k: int| 0 <= k < list.len() implies #[trigger] list[k] is Remove
            && removal_depth(list[k]) <= d by {
            if k < head.len() {
                assert(list[k] == head[k]);
            } else {
                assert(list[k] == tail[k - head.len()]);
            }
        }
        assert forall|i: int, j: int| 0 <= i < j < list.len() implies removal_depth(
            #[trigger] list[i],
        ) >= removal_depth(#[trigger] list[j]) by {
            if j < head.len() {
                assert(list[i] == head[i]);
                assert(list[j] == head[j]);
            } else if i < head.len() {
                assert(list[i] == head[i]);
                assert(list[j] == tail[j - head.len()]);
            } else {
                assert(list[i] == tail[i - head.len()]);
                assert(list[j] == tail[j - head.len()]);
            }
        }
        assert forall|p: Seq<char>| #[trigger]
            removes_path(list, p) <==> depth(p) <= d && names.contains(p) by {
            if removes_path(list, p) {
                let k = choose|k: int| 0 <= k < list.len() && removes(#[trigger] list[k], p);
                if k < head.len() {
                    assert(removes(head[k], p));
                    assert(removes_path(head, p));
                } else {
                    assert(removes(tail[k - head.len()], p));
                    assert(removes_path(tail, p));
                }
            }
            if removes_path(head, p) {
                let k = choose|k: int| 0 <= k < head.len() && removes(#[trigger] head[k], p);
                assert(removes(list[k], p));
            }
            if removes_path(tail, p) {
                let k = choose|k: int| 0 <= k < tail.len() && removes(#[trigger] tail[k], p);
                assert(removes(list[k + head.len()], p));
            }
        }
    }
}

/// Removals come deepest first: of two removals of a pass, the later one never names a
/// deeper path. So whatever lies inside a directory that is removed has been removed
/// before the directory's turn comes.
pub proof fn lemma_removals_deepest_first(entries: Seq<MirrorEntry>, i: int, j: int)
    requires
        0 <= i < j < removals(entries).len(),
    ensures
        removals(entries)[i] is Remove,
        removals(entries)[j] is Remove,
        removal_depth(removals(entries)[i]) >= removal_depth(removals(entries)[j]),
{
    lemma_removals_from(entries, max_depth(entries));
}

/// Every entry is removed by the removals of a list of entries, and nothing else is.
pub proof fn lemma_removals_complete(entries: Seq<MirrorEntry>, path: Seq<char>)
    ensures
        removes_path(removals(entries), path) <==> mirror_paths(entries).contains(path),
        only_removes(removals(entries)),
{
    lemma_removals_from(entries, max_depth(entries));
    let names = mirror_paths(entries);
    if names.contains(path) {
        let k = choose|k: int| 0 <= k < names.len() && names[k] == path;
        lemma_max_depth(entries, k);
    }
}

/// Completeness: after a pass whose changes all succeed, the mirror holds exactly the
/// paths that the source holds, whatever it held before.
pub proof fn lemma_mirror_complete(
    source: Seq<SourceEntry>,
    mirror: Seq<MirrorEntry>,
    watermark: Option<Instant>,
)
    ensures
        apply_changes(listed(mirror_paths(mirror)), plan_of(source, mirror, watermark)) == listed(
            source_paths(source),
        ),
{
    let before = listed(mirror_paths(mirror));
    let wanted = listed(source_paths(source));
    let walk = walk_changes(source, mirror, watermark, source.len() as int);
    let gone = leftover(mirror, source_paths(source));
    let cut = removals(gone);
    let stamp = seq![Change::Stamp];
    let after_walk = apply_changes(before, walk);
    let after_cut = apply_changes(after_walk, cut);
    lemma_apply_concat(before, walk + cut, stamp);
    lemma_apply_concat(before, walk, cut);
    assert(stamp.drop_last() =~= Seq::<Change>::empty());
    assert(apply_changes(after_cut, stamp.drop_last()) == after_cut);
    assert(apply_changes(after_cut, stamp) == after_cut);
    lemma_walk_changes(source, mirror, watermark, source.len() as int);
    assert(source_paths(source).take(source.len() as int) =~= source_paths(source));
    lemma_apply_adds(before, walk);
    lemma_leftover(mirror, source_paths(source));
    assert forall|p: Seq<char>| after_cut.contains(p) <==> wanted.contains(p) by {
        lemma_removals_complete(gone, p);
        lemma_apply_removes(after_walk, cut);
        assert(after_cut.contains(p) <==> after_walk.contains(p) && !removes_path(cut, p));
        assert(after_walk.contains(p) <==> before.contains(p) || adds_path(walk, p));
        let gone_names = mirror_paths(gone);
        if gone_names.contains(p) {
            let k = choose|k: int| 0 <= k < gone_names.len() && gone_names[k] == p;
            assert(gone.contains(gone[k]));
            assert(gone[k].path@ == p);
        }
        if before.contains(p) && !source_paths(source).contains(p) {
            let names = mirror_paths(mirror);
            let k = choose|k: int| 0 <= k < names.len() && names[k] == p;
            assert(mirror.contains(mirror[k]));
            assert(gone.contains(mirror[k]));
            let g = choose|g: int| 0 <= g < gone.len() && gone[g] == mirror[k];
            assert(gone_names[g] == p);
        }
    }
    assert(after_cut =~= wanted);
}

/// Whether two listings of the source tell the same of it but for the modification times
/// that need not be read.
pub open spec fn same_but_unread(a: Seq<SourceEntry>, b: Seq<SourceEntry>, mirror: Seq<MirrorEntry>)
    -> bool {
    &&& a.len() == b.len()
    &&& forall|i: int|
        0 <= i < a.len() ==> {
            &&& (#[trigger] a[i]).path@ == b[i].path@
            &&& a[i].is_dir == b[i].is_dir
            &&& mtime_needed(a.take(i), mirror, a[i].path@, a[i].is_dir) ==> a[i].mtime
                == b[i].mtime
        }
}

/// The times that need not be read decide nothing: two listings of the source that differ
/// only in them lead to the same changes.
pub proof fn lemma_unread_times_decide_nothing(
    a: Seq<SourceEntry>,
    b: Seq<SourceEntry>,
    mirror: Seq<MirrorEntry>,
    watermark: Option<Instant>,
)
    requires
        same_but_unread(a, b, mirror),
    ensures
        plan_of(a, mirror, watermark) == plan_of(b, mirror, watermark),
{
    assert(source_paths(a) =~= source_paths(b)) by {
        assert forall|i: int| 0 <= i < a.len() implies source_paths(a)[i] == source_paths(b)[i] by {
            assert(a[i].path@ == b[i].path@);
        }
    }
    lemma_same_walk(a, b, mirror, watermark, a.len() as int);
}

proof fn lemma_same_walk(
    a: Seq<SourceEntry>,
    b: Seq<SourceEntry>,
    mirror: Seq<MirrorEntry>,
    watermark: Option<Instant>,
    n: int,
)
    requires
        same_but_unread(a, b, mirror),
        source_paths(a) == source_paths(b),
        0 <= n <= a.len(),
    ensures
        walk_changes(a, mirror, watermark, n) == walk_changes(b, mirror, watermark, n),
    decreases n,
{
    if n > 0 {
        lemma_same_walk(a, b, mirror, watermark, n - 1);
        let i = n - 1;
        assert(a[i].path@ == b[i].path@);
        assert(source_paths(a.take(i)) =~= source_paths(a).take(i));
        assert(awaited(a, mirror, i) == awaited(b, mirror, i));
        assert(entry_change(a, mirror, watermark, i) == entry_change(b, mirror, watermark, i));
    }
}

/// Idempotence: where the mirror holds exactly the paths of the source, as it does after a
/// pass, and every file of the source is known not to have been modified after the
/// watermark, a pass changes nothing and only stamps the mirror again.
pub proof fn lemma_mirror_idempotent(
    source: Seq<SourceEntry>,
    mirror: Seq<MirrorEntry>,
    watermark: Instant,
)
    requires
        listed(mirror_paths(mirror)) == listed(source_paths(source)),
        forall|i: int, j: int|
            0 <= i < j < source.len() && source[i].path@.len() > 0 ==> source[i].path@
                != source[j].path@,
        forall|i: int|
            0 <= i < source.len() && !source[i].is_dir ==> !changed_since(
                (#[trigger] source[i]).mtime,
                Some(watermark),
            ),
    ensures
        plan_of(source, mirror, Some(watermark)) == seq![Change::Stamp],
{
    let names = source_paths(source);
    let held = mirror_paths(mirror);
    lemma_walk_empty(source, mirror, watermark, source.len() as int);
    let gone = leftover(mirror, names);
    lemma_leftover(mirror, names);
    if gone.len() > 0 {
        let e = gone[0];
        assert(gone.contains(e));
        assert(mirror.contains(e));
        let k = choose|k: int| 0 <= k < mirror.len() && mirror[k] == e;
        assert(held[k] == e.path@);
        assert(listed(held).contains(e.path@));
        assert(listed(names).contains(e.path@));
    }
    assert(gone =~= Seq::<MirrorEntry>::empty());
    assert(removals(gone) =~= Seq::<Change>::empty());
    assert(plan_of(source, mirror, Some(watermark)) =~= seq![Change::Stamp]);
}

/// Two passes in a row: where the changes of a first pass have all been made, nothing in
/// the source is listed twice, and no file of the source was modified after the watermark
/// that the first pass stamped, the second pass makes no directory, copies and removes
/// nothing, and only stamps the mirror again.
pub proof fn lemma_second_pass_only_stamps(
    source: Seq<SourceEntry>,
    first_mirror: Seq<MirrorEntry>,
    first_watermark: Option<Instant>,
    second_mirror: Seq<MirrorEntry>,
    second_watermark: Instant,
)
    requires
        listed(mirror_paths(second_mirror)) == apply_changes(
            listed(mirror_paths(first_mirror)),
            plan_of(source, first_mirror, first_watermark),
        ),
        forall|i: int, j: int|
            0 <= i < j < source.len() && source[i].path@.len() > 0 ==> source[i].path@
                != source[j].path@,
        forall|i: int|
            0 <= i < source.len() && !source[i].is_dir ==> !changed_since(
                (#[trigger] source[i]).mtime,
                Some(second_watermark),
            ),
    ensures
        plan_of(source, second_mirror, Some(second_watermark)) == seq![Change::Stamp],
{
    lemma_mirror_complete(source, first_mirror, first_watermark);
    lemma_mirror_idempotent(source, second_mirror, second_watermark);
}

proof fn lemma_walk_empty(
    source: Seq<SourceEntry>,
    mirror: Seq<MirrorEntry>,
    watermark: Instant,
    n: int,
)
    requires
        0 <= n <= source.len(),
        listed(mirror_paths(mirror)) == listed(source_paths(source)),
        forall|i: int, j: int|
            0 <= i < j < source.len() && source[i].path@.len() > 0 ==> source[i].path@
                != source[j].path@,
        forall|i: int|
            0 <= i < source.len() && !source[i].is_dir ==> !changed_since(
                (#[trigger] source[i]).mtime,
                Some(watermark),
            ),
    ensures
        walk_changes(source, mirror, Some(watermark), n).len() == 0,
    decreases n,
{
    if n > 0 {
        lemma_walk_empty(source, mirror, watermark, n - 1);
        let entry = source[n - 1];
        let names = source_paths(source);
        let p = entry.path@;
        if p.len() > 0 {
            assert(names[n - 1] == p);
            assert(listed(names).contains(p));
            assert(listed(mirror_paths(mirror)).contains(p));
            let seen = names.take(n - 1);
            if seen.contains(p) {
                let k = choose|k: int| 0 <= k < seen.len() && seen[k] == p;
                assert(source[k].path@ == p);
            }
            assert(awaited(source, mirror, n - 1));
        }
        assert(entry_change(source, mirror, Some(watermark), n - 1) is None);
    }
}

/// How deep the relative path lies.
pub fn depth_of(path: &str) -> (d: usize)
    ensures
        d == depth(path@),
{
    let chars = chars_of(path);
    let mut d: usize = 0;
    let mut i: usize = 0;
    assert(chars@.take(0) =~= Seq::<char>::empty());
    while i < chars.len()
        invariant
            i <= chars.len(),
            d <= i,
            d == depth(chars@.take(i as int)),
        decreases chars.len() - i,
    {
        proof {
            let now = chars@.take(i + 1);
            assert(now.drop_last() =~= chars@.take(i as int));
            assert(now.last() == chars@[i as int]);
        }
        if chars[i] == '/' {
            d += 1;
        }
        i += 1;
    }
    assert(chars@.take(chars.len() as int) =~= chars@);
    d
}

/// Whether a file that the mirror holds counts as changed since the watermark.
pub fn is_changed_since(mtime: Option<Instant>, watermark: Option<Instant>) -> (changed: bool)
    ensures
        changed == changed_since(mtime, watermark),
{
    match (mtime, watermark) {
        (Some(modified), Some(mark)) => modified.is_after(&mark),
        _ => true,
    }
}

/// Whether the modification time of the entry at `path` has to be read before it joins
/// `earlier`, the entries of the source listed so far: see `mtime_needed`.
pub fn needs_mtime(
    earlier: &Vec<SourceEntry>,
    mirror: &Vec<MirrorEntry>,
    path: &str,
    is_dir: bool,
) -> (needed: bool)
    ensures
        needed == mtime_needed(earlier@, mirror@, path@, is_dir),
{
    if is_dir {
        return false;
    }
    let wanted = String::from_str(path);
    !is_empty_path(&wanted) && in_mirror(mirror, &wanted) && !in_source(earlier, &wanted)
}

/// Whether `path` is empty.
fn is_empty_path(path: &String) -> (b: bool)
    ensures
        b == (path@.len() == 0),
{
    path.as_str().unicode_len() == 0
}

/// Whether one of the mirror entries lies at `path`.
fn in_mirror(mirror: &Vec<MirrorEntry>, path: &String) -> (held: bool)
    ensures
        held == mirror_paths(mirror@).contains(path@),
{
    let mut i: usize = 0;
    while i < mirror.len()
        invariant
            i <= mirror.len(),
            forall|k: int| 0 <= k < i ==> mirror_paths(mirror@)[k] != path@,
        decreases mirror.len() - i,
    {
        if mirror[i].path == *path {
            assert(mirror_paths(mirror@)[i as int] == path@);
            return true;
        }
        i += 1;
    }
    false
}

/// Whether one of the first `n` source entries lies at `path`.
fn seen_before(source: &Vec<SourceEntry>, n: usize, path: &String) -> (seen: bool)
    requires
        n <= source.len(),
    ensures
        seen == source_paths(source@).take(n as int).contains(path@),
{
    let mut i: usize = 0;
    while i < n
        invariant
            i <= n <= source.len(),
            forall|k: int| 0 <= k < i ==> source_paths(source@).take(n as int)[k] != path@,
        decreases n - i,
    {
        if source[i].path == *path {
            assert(source_paths(source@).take(n as int)[i as int] == path@);
            return true;
        }
        i += 1;
    }
    false
}

/// Whether one of the source entries lies at `path`.
fn in_source(source: &Vec<SourceEntry>, path: &String) -> (held: bool)
    ensures
        held == source_paths(source@).contains(path@),
{
    assert(source_paths(source@).take(source.len() as int) =~= source_paths(source@));
    seen_before(source, source.len(), path)
}

/// Appends the removals of the entries in `gone`, the deepest first.
fn push_removals(ops: &mut Vec<MirrorOp>, gone: &Vec<MirrorEntry>)
    ensures
        changes(final(ops)@) == changes(old(ops)@) + removals(gone@),
{
    let ghost base = changes(ops@);
    let mut deepest: usize = 0;
    let mut i: usize = 0;
    assert(gone@.take(0) =~= Seq::<MirrorEntry>::empty());
    while i < gone.len()
        invariant
            i <= gone.len(),
            deepest == max_depth(gone@.take(i as int)),
            ops@ == old(ops)@,
        decreases gone.len() - i,
    {
        proof {
            let now = gone@.take(i + 1);
            assert(now.drop_last() =~= gone@.take(i as int));
            assert(now.last() == gone@[i as int]);
        }
        let d = depth_of(gone[i].path.as_str());
        if d > deepest {
            deepest = d;
        }
        i += 1;
    }
    assert(gone@.take(gone.len() as int) =~= gone@);
    let mut d: usize = deepest;
    let mut more = true;
    assert(base + Seq::<Change>::empty() =~= base);
    while more
        invariant
            d <= deepest,
            deepest == max_depth(gone@),
            base == changes(old(ops)@),
            more ==> changes(ops@) + removals_from(gone@, d as nat) == base + removals(gone@),
            !more ==> changes(ops@) == base + removals(gone@),
        decreases d + if more { 1nat } else { 0nat },
    {
        let ghost start = changes(ops@);
        let mut k: usize = 0;
        assert(gone@.take(0) =~= Seq::<MirrorEntry>::empty());
        assert(start + Seq::<Change>::empty() =~= start);
        while k < gone.len()
            invariant
                k <= gone.len(),
                changes(ops@) == start + removals_at(gone@.take(k as int), d as nat),
            decreases gone.len() - k,
        {
            proof {
                let now = gone@.take(k + 1);
                assert(now.drop_last() =~= gone@.take(k as int));
                assert(now.last() == gone@[k as int]);
            }
            if depth_of(gone[k].path.as_str()) == d {
                let op = MirrorOp::Remove { path: gone[k].path.clone(), is_dir: gone[k].is_dir };
                proof {
                    assert(changes(ops@.push(op)) =~= changes(ops@).push(op@));
                    assert(start + removals_at(gone@.take(k as int), d as nat).push(op@) =~= (start
                        + removals_at(gone@.take(k as int), d as nat)).push(op@));
                }
                ops.push(op);
            }
            k += 1;
        }
        proof {
            assert(gone@.take(gone.len() as int) =~= gone@);
            let here = removals_at(gone@, d as nat);
            if d > 0 {
                assert(removals_from(gone@, d as nat) == here + removals_from(
                    gone@,
                    (d - 1) as nat,
                ));
                assert((start + here) + removals_from(gone@, (d - 1) as nat) =~= start + (here
                    + removals_from(gone@, (d - 1) as nat)));
            }
        }
        if d == 0 {
            more = false;
        } else {
            d -= 1;
        }
    }
}

/// The mirror entries that the source no longer accounts for.
fn collect_leftover(source: &Vec<SourceEntry>, mirror: &Vec<MirrorEntry>) -> (gone: Vec<
    MirrorEntry,
>)
    ensures
        gone@ == leftover(mirror@, source_paths(source@)),
{
    let mut gone: Vec<MirrorEntry> = Vec::new();
    let mut i: usize = 0;
    assert(mirror@.take(0) =~= Seq::<MirrorEntry>::empty());
    while i < mirror.len()
        invariant
            i <= mirror.len(),
            gone@ == leftover(mirror@.take(i as int), source_paths(source@)),
        decreases mirror.len() - i,
    {
        proof {
            let now = mirror@.take(i + 1);
            assert(now.drop_last() =~= mirror@.take(i as int));
            assert(now.last() == mirror@[i as int]);
        }
        if !is_empty_path(&mirror[i].path) && !in_source(source, &mirror[i].path) {
            let entry = MirrorEntry { path: mirror[i].path.clone(), is_dir: mirror[i].is_dir };
            assert(entry == mirror@[i as int]);
            gone.push(entry);
        }
        i += 1;
    }
    assert(mirror@.take(mirror.len() as int) =~= mirror@);
    gone
}

/// The changes that bring the mirror up to date with the source: see `plan_of`.
///
/// `source` and `mirror` list the entries below the two roots in the order of a walk;
/// `watermark` is the mirror's modification time before the pass, or `None` where the
/// mirror was only just created.
pub fn plan_sync(
    source: &Vec<SourceEntry>,
    mirror: &Vec<MirrorEntry>,
    watermark: Option<Instant>,
) -> (ops: Vec<MirrorOp>)
    ensures
        changes(ops@) == plan_of(source@, mirror@, watermark),
{
    let mut ops: Vec<MirrorOp> = Vec::new();
    let mut i: usize = 0;
    assert(changes(ops@) =~= Seq::<Change>::empty());
    while i < source.len()
        invariant
            i <= source.len(),
            changes(ops@) == walk_changes(source@, mirror@, watermark, i as int),
        decreases source.len() - i,
    {
        let entry = &source[i];
        let ghost step = entry_change(source@, mirror@, watermark, i as int);
        if !is_empty_path(&entry.path) {
            let awaited_here = in_mirror(mirror, &entry.path) && !seen_before(
                source,
                i,
                &entry.path,
            );
            assert(awaited_here == awaited(source@, mirror@, i as int));
            let op = if entry.is_dir {
                if awaited_here {
                    None
                } else {
                    Some(MirrorOp::MakeDir { path: entry.path.clone() })
                }
            } else if awaited_here {
                if is_changed_since(entry.mtime, watermark) {
                    Some(MirrorOp::Copy { path: entry.path.clone(), fresh: false })
                } else {
                    None
                }
            } else {
                Some(MirrorOp::Copy { path: entry.path.clone(), fresh: true })
            };
            match op {
                Some(op) => {
                    proof {
                        assert(step == Some(op@));
                        assert(changes(ops@.push(op)) =~= changes(ops@).push(op@));
                    }
                    ops.push(op);
                },
                None => {
                    assert(step is None);
                },
            }
        }
        i += 1;
    }
    let gone = collect_leftover(source, mirror);
    push_removals(&mut ops, &gone);
    proof {
        assert(changes(ops@.push(MirrorOp::Stamp)) =~= changes(ops@) + seq![Change::Stamp]);
    }
    ops.push(MirrorOp::Stamp);
    ops
}

/// Where the mirror of an embedded metadata directory lies, and what it is called.
pub struct MirrorPlace {
    /// The name of the mirror: that of the embedded repository, with the extension `.git`.
    pub name: String,
    /// The path of the mirror, written from the metadata directory.
    pub path: String,
}

/// The pattern that finds the metadata directories below `root`.
pub open spec fn search_pattern(root: Seq<char>) -> Seq<char> {
    joined_path(root, "**/.git"@)
}

/// The name of the repository whose metadata directory is `git_dir`: the name of the
/// directory that holds it, if that directory has one.
pub open spec fn repository_name(git_dir: Seq<char>) -> Option<Seq<char>> {
    let pieces = components(git_dir);
    if pieces.len() >= 2 && pieces[pieces.len() - 2] != seq!['.', '.'] {
        Some(pieces[pieces.len() - 2])
    } else {
        None
    }
}

/// The name of the mirror of the repository called `repository`.
pub open spec fn mirror_name(repository: Seq<char>) -> Seq<char> {
    repository + ".git"@
}

/// The path of the mirror called `name` of the metadata directory `git_dir`: in the
/// directory `Copies` beside the embedded repository.
pub open spec fn mirror_path(git_dir: Seq<char>, name: Seq<char>) -> Seq<char> {
    joined_path(git_dir, "../../Copies/"@ + name)
}

/// How an entry of the mirror called `name` is written in the log.
pub open spec fn entry_display(name: Seq<char>, path: Seq<char>) -> Seq<char> {
    name + "/"@ + path
}

/// The line that reports a change of the mirror called `name` in the log. `age` is the
/// number of seconds by which a file that is copied again is newer than the watermark,
/// and `failure` describes what went wrong, if anything did.
pub open spec fn change_line(
    name: Seq<char>,
    change: Change,
    age: nat,
    failure: Option<Seq<char>>,
) -> Option<Seq<char>> {
    match change {
        Change::MakeDir { path } => Some(
            match failure {
                None => "mkdir "@ + entry_display(name, path) + "/"@,
                Some(reason) => "error "@ + entry_display(name, path) + " (mkdir, "@ + reason
                    + ")"@,
            },
        ),
        Change::Copy { path, fresh } => Some(
            match failure {
                None => if fresh {
                    "cp "@ + entry_display(name, path)
                } else {
                    "cp "@ + entry_display(name, path) + " (+"@ + decimal(age) + ")"@
                },
                Some(reason) => "error "@ + entry_display(name, path) + " (cp, "@ + reason + ")"@,
            },
        ),
        Change::Remove { path, is_dir } => Some(
            match failure {
                None => (if is_dir {
                    "rmdir "@
                } else {
                    "rm "@
                }) + entry_display(name, path),
                Some(reason) => "error "@ + entry_display(name, path) + (if is_dir {
                    " (rmdir, "@
                } else {
                    " (copy, "@
                }) + reason + ")"@,
            },
        ),
        Change::Stamp => None,
    }
}

/// The pattern that finds the metadata directories below `root`.
pub fn metadata_pattern(root: &str) -> (pattern: String)
    ensures
        pattern@ == search_pattern(root@),
{
    join_path(root, "**/.git")
}

/// Whether `git_dir` is the metadata directory of the repository at `root` itself, which
/// has no mirror: it is written as the name `.git` directly below `root`.
pub fn is_root_metadata(root: &str, git_dir: &str) -> (own: bool)
    ensures
        own == (git_dir@ == joined_path(root@, ".git"@)),
{
    let own = join_path(root, ".git");
    same_text(git_dir, own.as_str())
}

/// The name and the path of the mirror of the metadata directory `git_dir`. `None` where
/// the directory that holds `git_dir` has no name.
pub fn mirror_place(git_dir: &str) -> (place: Option<MirrorPlace>)
    ensures
        match place {
            Some(found) => {
                &&& repository_name(git_dir@) is Some
                &&& found.name@ == mirror_name(repository_name(git_dir@)->0)
                &&& found.path@ == mirror_path(git_dir@, found.name@)
            },
            None => repository_name(git_dir@) is None,
        },
{
    let pieces = path_components(git_dir);
    if pieces.len() < 2 {
        return None;
    }
    let holder = &pieces[pieces.len() - 2];
    proof {
        reveal_strlit("..");
        assert(".."@ =~= seq!['.', '.']);
        assert(texts(pieces@)[pieces.len() - 2] == holder@);
    }
    if same_text(holder.as_str(), "..") {
        return None;
    }
    let mut name = holder.clone();
    name.append(".git");
    let mut relative = String::from_str("../../Copies/");
    relative.append(name.as_str());
    let path = join_path(git_dir, relative.as_str());
    Some(MirrorPlace { name, path })
}

/// The start of time as instants count it.
pub open spec fn epoch() -> Instant {
    Instant { secs: 0, nanos: 0 }
}

/// The whole seconds by which the first source entry at `path` was modified after `since`.
/// `None` where the source holds no entry at `path`, where the time of the entry was not
/// read, and where the entry is the older of the two.
pub open spec fn age_of(source: Seq<SourceEntry>, path: Seq<char>, since: Instant) -> Option<int>
    decreases source.len(),
{
    if source.len() == 0 {
        None
    } else if source.first().path@ == path {
        match source.first().mtime {
            Some(modified) => if since.later_than(modified) {
                None
            } else {
                Some(modified.whole_seconds_since(since))
            },
            None => None,
        }
    } else {
        age_of(source.drop_first(), path, since)
    }
}

/// The line that reports a mirror that was found, with its watermark in seconds.
pub open spec fn found_line(name: Seq<char>, seconds: nat) -> Seq<char> {
    "ok "@ + name + "/ (mtime: "@ + decimal(seconds) + ")"@
}

/// The line that reports the creation of a mirror, where `failure` describes what went
/// wrong, if anything did.
pub open spec fn created_line(name: Seq<char>, failure: Option<Seq<char>>) -> Seq<char> {
    match failure {
        None => "mkdir "@ + name + "/"@,
        Some(reason) => "error "@ + name + " (mkdir, "@ + reason + ")"@,
    }
}

/// The number of seconds to report for a file that is copied again: by how much the file
/// at `path` is newer than the watermark, or than the start of time where there is no
/// watermark.
pub fn copy_age(source: &Vec<SourceEntry>, path: &str, watermark: Option<Instant>) -> (age: Option<
    u64,
>)
    ensures
        match age {
            Some(seconds) => age_of(
                source@,
                path@,
                match watermark {
                    Some(mark) => mark,
                    None => epoch(),
                },
            ) == Some(seconds as int),
            None => age_of(
                source@,
                path@,
                match watermark {
                    Some(mark) => mark,
                    None => epoch(),
                },
            ) is None,
        },
{
    let since = match watermark {
        Some(mark) => mark,
        None => Instant { secs: 0, nanos: 0 },
    };
    let mut i: usize = 0;
    assert(source@.subrange(0, source.len() as int) =~= source@);
    while i < source.len()
        invariant
            i <= source.len(),
            since == match watermark {
                Some(mark) => mark,
                None => epoch(),
            },
            age_of(source@, path@, since) == age_of(
                source@.subrange(i as int, source.len() as int),
                path@,
                since,
            ),
        decreases source.len() - i,
    {
        proof {
            let rest = source@.subrange(i as int, source.len() as int);
            assert(rest.first() == source@[i as int]);
            assert(rest.drop_first() =~= source@.subrange(i + 1, source.len() as int));
        }
        if same_text(source[i].path.as_str(), path) {
            return match source[i].mtime {
                Some(modified) => modified.seconds_since(&since),
                None => None,
            };
        }
        i += 1;
    }
    None
}

/// The line that reports a mirror that was found, with its watermark in seconds since the
/// start of time. `None` for a watermark before that.
pub fn mirror_found_line(name: &str, watermark: &Instant) -> (line: Option<String>)
    ensures
        match line {
            Some(text) => !epoch().later_than(*watermark) && text@ == found_line(
                name@,
                watermark.whole_seconds_since(epoch()) as nat,
            ),
            None => epoch().later_than(*watermark),
        },
{
    match watermark.seconds_since(&Instant { secs: 0, nanos: 0 }) {
        Some(seconds) => {
            let mut line = String::from_str("ok ");
            line.append(name);
            line.append("/ (mtime: ");
            append_decimal(&mut line, seconds as u128);
            line.append(")");
            Some(line)
        },
        None => None,
    }
}

/// The line that reports the creation of a mirror.
pub fn mirror_created_line(name: &str, failure: Option<&str>) -> (line: String)
    ensures
        line@ == created_line(
            name@,
            match failure {
                Some(reason) => Some(reason@),
                None => None,
            },
        ),
{
    match failure {
        None => {
            let mut line = String::from_str("mkdir ");
            line.append(name);
            line.append("/");
            line
        },
        Some(reason) => error_line(name, " (mkdir, ", reason),
    }
}

fn error_line(shown: &str, what: &str, reason: &str) -> (line: String)
    ensures
        line@ == "error "@ + shown@ + what@ + reason@ + ")"@,
{
    let mut line = String::from_str("error ");
    line.append(shown);
    line.append(what);
    line.append(reason);
    line.append(")");
    line
}

/// The line that reports a change of the mirror called `name` in the log: see
/// `change_line`. The stamp is not logged.
pub fn change_log_line(name: &str, op: &MirrorOp, age: u64, failure: Option<&str>) -> (line: Option<
    String,
>)
    ensures
        match line {
            Some(text) => Some(text@),
            None => None,
        } == change_line(
            name@,
            op@,
            age as nat,
            match failure {
                Some(reason) => Some(reason@),
                None => None,
            },
        ),
{
    let mut shown = String::from_str(name);
    shown.append("/");
    match op {
        MirrorOp::MakeDir { path } => {
            shown.append(path.as_str());
            match failure {
                None => {
                    let mut line = String::from_str("mkdir ");
                    line.append(shown.as_str());
                    line.append("/");
                    Some(line)
                },
                Some(reason) => Some(error_line(shown.as_str(), " (mkdir, ", reason)),
            }
        },
        MirrorOp::Copy { path, fresh } => {
            shown.append(path.as_str());
            match failure {
                None => {
                    let mut line = String::from_str("cp ");
                    line.append(shown.as_str());
                    if !*fresh {
                        line.append(" (+");
                        append_decimal(&mut line, age as u128);
                        line.append(")");
                    }
                    Some(line)
                },
                Some(reason) => Some(error_line(shown.as_str(), " (cp, ", reason)),
            }
        },
        MirrorOp::Remove { path, is_dir } => {
            shown.append(path.as_str());
            match failure {
                None => {
                    let mut line = if *is_dir {
                        String::from_str("rmdir ")
                    } else {
                        String::from_str("rm ")
                    };
                    line.append(shown.as_str());
                    Some(line)
                },
                Some(reason) => Some(
                    error_line(
                        shown.as_str(),
                        if *is_dir {
                            " (rmdir, "
                        } else {
                            " (copy, "
                        },
                        reason,
                    ),
                ),
            }
        },
        MirrorOp::Stamp => None,
    }
}

} // verus!
