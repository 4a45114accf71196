//! The shape of a loaded workspace: how deep it is, which file lies below
//! which, and in which order files stand.

use vstd::prelude::*;
use crate::sort::{Ranked, lemma_stable_sorted, ordered, stable_sorted};
use crate::workspace::{
    Forest, LocatedView, MetaFile, MetaFileView, added_below, empty_forest, grouped,
    holds_parent, is_parent, lemma_grouped_named, lemma_parent_place, lemma_top_parent, loaded,
    metas_of, node_at, parent_place, placed, placed_all, top_parent,
};

verus! {

/// Whether the file is as a group of definitions makes it: it has a path,
/// its depth is the number of components of the path less one, and it has
/// no sub-files.
pub open spec fn fresh(file: MetaFileView) -> bool {
    &&& file.path.len() >= 1
    &&& file.depth == file.path.len() - 1
    &&& file.sub_files.len() == 0
}

/// Whether the file and all that lies below it have the shape of a
/// folder: the depth of the file goes with its path; its sub-files stand
/// in the order of their names; each of them lies one level deeper, in
/// the directory that the file's stem names; and each of them has this
/// shape in turn.
pub open spec fn shaped(file: MetaFileView) -> bool
    decreases file,
{
    &&& file.path.len() >= 1
    &&& file.depth == file.path.len() - 1
    &&& ordered::<MetaFile>(file.sub_files)
    &&& forall|j: int|
        0 <= j < file.sub_files.len() ==> is_parent(file, #[trigger] file.sub_files[j]) && shaped(
            file.sub_files[j],
        )
}

/// Whether each of the files is `shaped`.
pub open spec fn all_shaped(files: Seq<MetaFileView>) -> bool {
    forall|i: int| 0 <= i < files.len() ==> shaped(#[trigger] files[i])
}

/// Whether the top-level files stand in the order of their depths, and by
/// name within one depth, and each of them is `shaped`.
pub open spec fn workspace_shaped(files: Seq<MetaFileView>) -> bool {
    ordered::<MetaFile>(files) && all_shaped(files)
}

/// Whether the file, and every file below it, may stand before `next`.
pub open spec fn file_before(file: MetaFileView, next: MetaFileView) -> bool
    decreases file,
{
    &&& MetaFile::before(file, next)
    &&& forall|j: int|
        0 <= j < file.sub_files.len() ==> file_before(#[trigger] file.sub_files[j], next)
}

/// Whether every file, at the top level or below, may stand before
/// `next`.
pub open spec fn all_before(files: Seq<MetaFileView>, next: MetaFileView) -> bool {
    forall|i: int| 0 <= i < files.len() ==> file_before(#[trigger] files[i], next)
}

/// Whether two sequences of files agree in the path and the depth of
/// each file.
pub open spec fn same_ranks(a: Seq<MetaFileView>, b: Seq<MetaFileView>) -> bool {
    &&& a.len() == b.len()
    &&& forall|i: int|
        0 <= i < a.len() ==> (#[trigger] a[i]).path == b[i].path && a[i].depth == b[i].depth
}

/// Adding a fresh file below a file that it belongs below, behind which
/// all others may stand, keeps the shape of every file, and the path and
/// depth of each.
pub proof fn lemma_added_below_shaped(files: Seq<MetaFileView>, at: Seq<usize>, file: MetaFileView)
    requires
        all_shaped(files),
        all_before(files, file),
        holds_parent(files, at, file),
        fresh(file),
    ensures
        all_shaped(added_below(files, at, file)),
        same_ranks(added_below(files, at, file), files),
    decreases at.len(),
{
    let out = added_below(files, at, file);
    let index = at[0] as int;
    let head = files[index];
    let changed = out[index];
    assert(shaped(head));
    assert(file_before(head, file));
    if at.len() == 1 {
        let below = changed.sub_files;
        assert forall|a: int, b: int| 0 <= a < b < below.len() implies MetaFile::before(
            below[a],
            below[b],
        ) by {
            assert(below[a] == head.sub_files[a]);
            if b < head.sub_files.len() {
                assert(below[b] == head.sub_files[b]);
            } else {
                assert(file_before(head.sub_files[a], file));
            }
        }
        assert forall|j: int| 0 <= j < below.len() implies is_parent(changed, #[trigger] below[j])
            && shaped(below[j]) by {
            if j < head.sub_files.len() {
                assert(below[j] == head.sub_files[j]);
                assert(is_parent(head, head.sub_files[j]));
            }
        }
    } else {
        let rest = at.drop_first();
        assert(all_shaped(head.sub_files)) by {
            assert forall|j: int| 0 <= j < head.sub_files.len() implies shaped(
                #[trigger] head.sub_files[j],
            ) by {
                assert(is_parent(head, head.sub_files[j]));
            }
        }
        assert(all_before(head.sub_files, file));
        lemma_added_below_shaped(head.sub_files, rest, file);
        let below = changed.sub_files;
        assert forall|a: int, b: int| 0 <= a < b < below.len() implies MetaFile::before(
            below[a],
            below[b],
        ) by {
            assert(MetaFile::before(head.sub_files[a], head.sub_files[b]));
            assert(below[a].path == head.sub_files[a].path);
            assert(below[b].path == head.sub_files[b].path);
        }
        assert forall|j: int| 0 <= j < below.len() implies is_parent(changed, #[trigger] below[j])
            && shaped(below[j]) by {
            assert(is_parent(head, head.sub_files[j]));
            assert(below[j].path == head.sub_files[j].path);
        }
    }
    assert(shaped(changed));
    assert forall|i: int| 0 <= i < out.len() implies shaped(#[trigger] out[i]) by {
        if i != index {
            assert(out[i] == files[i]);
        }
    }
    assert forall|i: int| 0 <= i < out.len() implies (#[trigger] out[i]).path == files[i].path
        && out[i].depth == files[i].depth by {
        if i != index {
            assert(out[i] == files[i]);
        }
    }
}

/// After a fresh file is added below another, every file may stand
/// before whatever the added file and all files before it may stand
/// before.
pub proof fn lemma_added_below_before(
    files: Seq<MetaFileView>,
    at: Seq<usize>,
    file: MetaFileView,
    next: MetaFileView,
)
    requires
        all_before(files, next),
        MetaFile::before(file, next),
        fresh(file),
    ensures
        all_before(added_below(files, at, file), next),
    decreases at.len(),
{
    let out = added_below(files, at, file);
    if at.len() > 0 && at[0] < files.len() {
        let index = at[0] as int;
        let head = files[index];
        let changed = out[index];
        assert(file_before(head, next));
        if at.len() > 1 {
            assert(all_before(head.sub_files, next));
            lemma_added_below_before(head.sub_files, at.drop_first(), file, next);
        }
        assert forall|j: int| 0 <= j < changed.sub_files.len() implies file_before(
            #[trigger] changed.sub_files[j],
            next,
        ) by {
            if at.len() == 1 {
                if j < head.sub_files.len() {
                    assert(changed.sub_files[j] == head.sub_files[j]);
                } else {
                    assert(changed.sub_files[j] == file);
                }
            }
        }
        assert(file_before(changed, next));
        assert forall|i: int| 0 <= i < out.len() implies file_before(#[trigger] out[i], next) by {
            if i != index {
                assert(out[i] == files[i]);
            }
        }
    }
}

/// Placing a fresh file behind which all others may stand keeps the shape
/// of the workspace.
pub proof fn lemma_placed_shaped(forest: Forest, file: MetaFileView)
    requires
        workspace_shaped(forest.files),
        all_before(forest.files, file),
        fresh(file),
    ensures
        workspace_shaped(placed(forest, file).files),
{
    let files = forest.files;
    let out = placed(forest, file).files;
    lemma_parent_place(forest, file);
    if file.depth != 0 && parent_place(forest, file) is Some {
        let at = parent_place(forest, file)->0;
        lemma_added_below_shaped(files, at, file);
        assert forall|a: int, b: int| 0 <= a < b < out.len() implies MetaFile::before(
            out[a],
            out[b],
        ) by {
            assert(MetaFile::before(files[a], files[b]));
            assert(out[a].path == files[a].path);
            assert(out[b].path == files[b].path);
        }
    } else {
        assert(out =~= files.push(file));
        assert forall|i: int| 0 <= i < out.len() implies shaped(#[trigger] out[i]) by {
            if i < files.len() {
                assert(out[i] == files[i]);
            }
        }
        assert forall|a: int, b: int| 0 <= a < b < out.len() implies MetaFile::before(
            out[a],
            out[b],
        ) by {
            if b < files.len() {
                assert(MetaFile::before(files[a], files[b]));
            } else {
                assert(file_before(files[a], file));
            }
        }
    }
}

/// After a fresh file is placed, every file may stand before whatever the
/// placed file and all files before it may stand before.
pub proof fn lemma_placed_before(forest: Forest, file: MetaFileView, next: MetaFileView)
    requires
        all_before(forest.files, next),
        MetaFile::before(file, next),
        fresh(file),
    ensures
        all_before(placed(forest, file).files, next),
{
    let files = forest.files;
    let out = placed(forest, file).files;
    if file.depth != 0 && parent_place(forest, file) is Some {
        let at = parent_place(forest, file)->0;
        lemma_added_below_before(files, at, file, next);
    } else {
        assert forall|i: int| 0 <= i < out.len() implies file_before(#[trigger] out[i], next) by {
            if i < files.len() {
                assert(out[i] == files[i]);
            } else {
                assert(out[i] == file);
            }
        }
    }
}

/// Placing fresh files in the order of their ranks, into an empty
/// workspace, gives a workspace with the shape of a folder.
pub proof fn lemma_placed_all_shaped(sorted: Seq<MetaFileView>, n: int)
    requires
        ordered::<MetaFile>(sorted),
        forall|i: int| 0 <= i < sorted.len() ==> fresh(#[trigger] sorted[i]),
        0 <= n <= sorted.len(),
    ensures
        workspace_shaped(placed_all(empty_forest(), sorted.take(n)).files),
        forall|k: int|
            n <= k < sorted.len() ==> all_before(
                placed_all(empty_forest(), sorted.take(n)).files,
                #[trigger] sorted[k],
            ),
    decreases n,
{
    if n > 0 {
        let done = placed_all(empty_forest(), sorted.take(n - 1));
        assert(sorted.take(n).drop_last() =~= sorted.take(n - 1));
        assert(sorted.take(n).last() == sorted[n - 1]);
        lemma_placed_all_shaped(sorted, n - 1);
        lemma_placed_shaped(done, sorted[n - 1]);
        assert forall|k: int| n <= k < sorted.len() implies all_before(
            placed(done, sorted[n - 1]).files,
            #[trigger] sorted[k],
        ) by {
            lemma_placed_before(done, sorted[n - 1], sorted[k]);
        }
    }
}

/// A workspace that is loaded from nothing has the shape of the folder:
/// the depth of every file is the number of components of its path less
/// one; the top-level files stand in the order of their depths, and by
/// name within one depth; and at every level, the sub-files of a file
/// stand in the order of their names, and each lies one level deeper than
/// the file, in the directory that the file's stem names.
pub proof fn lemma_loaded_shaped(places: Seq<LocatedView>, root: Seq<Seq<char>>)
    ensures
        workspace_shaped(loaded(empty_forest(), root, places).files),
{
    broadcast use vstd::seq_lib::group_to_multiset_ensures;

    let groups = grouped(places, root);
    lemma_grouped_named(places, root);
    let metas = metas_of(groups);
    let sorted = stable_sorted::<MetaFile>(metas);
    lemma_stable_sorted::<MetaFile>(metas);
    assert forall|i: int| 0 <= i < sorted.len() implies fresh(#[trigger] sorted[i]) by {
        assert(sorted.to_multiset().count(sorted[i]) > 0);
        assert(metas.to_multiset().count(sorted[i]) > 0);
        let k = choose|k: int| 0 <= k < metas.len() && metas[k] == sorted[i];
        assert(groups[k].path.len() > 0);
    }
    lemma_placed_all_shaped(sorted, sorted.len() as int);
    assert(sorted.take(sorted.len() as int) =~= sorted);
}

/// Whether two files agree in all but their sub-files.
pub open spec fn same_file(a: MetaFileView, b: MetaFileView) -> bool {
    a.path == b.path && a.definitions == b.definitions && a.depth == b.depth
}

/// A place keeps its file when a file is added below another: the order
/// of placing stays the order of the files that were placed.
pub proof fn lemma_added_below_keeps_places(
    files: Seq<MetaFileView>,
    at: Seq<usize>,
    file: MetaFileView,
    place: Seq<usize>,
)
    requires
        node_at(files, place) is Some,
    ensures
        node_at(added_below(files, at, file), place) matches Some(kept) && same_file(
            kept,
            node_at(files, place)->0,
        ),
    decreases place.len(),
{
    let out = added_below(files, at, file);
    if at.len() > 0 && at[0] < files.len() && at[0] == place[0] {
        let head = files[at[0] as int];
        if place.len() > 1 {
            if at.len() > 1 {
                lemma_added_below_keeps_places(
                    head.sub_files,
                    at.drop_first(),
                    file,
                    place.drop_first(),
                );
            } else {
                lemma_pushed_keeps_places(head.sub_files, file, place.drop_first());
            }
        }
    } else if at.len() > 0 && at[0] < files.len() {
        assert(out[place[0] as int] == files[place[0] as int]);
    }
}

/// A place keeps its file when a file is put behind the files.
pub proof fn lemma_pushed_keeps_places(
    files: Seq<MetaFileView>,
    file: MetaFileView,
    place: Seq<usize>,
)
    requires
        node_at(files, place) is Some,
    ensures
        node_at(files.push(file), place) == node_at(files, place),
{
    assert(files.push(file)[place[0] as int] == files[place[0] as int]);
}

/// The new place below a file holds the file that was added there.
pub proof fn lemma_added_below_holds(files: Seq<MetaFileView>, at: Seq<usize>, file: MetaFileView)
    requires
        node_at(files, at) is Some,
        node_at(files, at)->0.sub_files.len() <= usize::MAX,
    ensures
        node_at(
            added_below(files, at, file),
            at.push(node_at(files, at)->0.sub_files.len() as usize),
        ) == Some(file),
    decreases at.len(),
{
    let head = files[at[0] as int];
    let out = added_below(files, at, file);
    let last = node_at(files, at)->0.sub_files.len() as usize;
    let place = at.push(last);
    assert(place[0] == at[0]);
    assert(place.drop_first() =~= at.drop_first().push(last));
    assert(node_at(out, place) == node_at(out[at[0] as int].sub_files, place.drop_first()));
    if at.len() > 1 {
        lemma_added_below_holds(head.sub_files, at.drop_first(), file);
    } else {
        let below = head.sub_files.push(file);
        assert(place.drop_first() =~= seq![last]);
        assert(out[at[0] as int].sub_files == below);
        assert(below[last as int] == file);
        assert(node_at(below, seq![last]) == Some(file));
    }
}

/// Placing a file leaves every file at its place: a place of the order
/// of placing that held a file holds it still, with what was added below
/// it.
pub proof fn lemma_placed_keeps_places(forest: Forest, file: MetaFileView, k: int)
    requires
        0 <= k < forest.order.len(),
        node_at(forest.files, forest.order[k]) is Some,
    ensures
        placed(forest, file).order[k] == forest.order[k],
        node_at(placed(forest, file).files, forest.order[k]) matches Some(kept) && same_file(
            kept,
            node_at(forest.files, forest.order[k])->0,
        ),
{
    if file.depth != 0 && parent_place(forest, file) is Some {
        let at = parent_place(forest, file)->0;
        lemma_added_below_keeps_places(forest.files, at, file, forest.order[k]);
    } else {
        lemma_pushed_keeps_places(forest.files, file, forest.order[k]);
    }
}

/// The order of placing grows by the place of the placed file, which
/// holds that file. (The bounds hold of every forest in memory.)
pub proof fn lemma_placed_holds(forest: Forest, file: MetaFileView)
    requires
        forest.files.len() <= usize::MAX,
        parent_place(forest, file) matches Some(at) ==> node_at(
            forest.files,
            at,
        )->0.sub_files.len() <= usize::MAX,
    ensures
        placed(forest, file).order.len() == forest.order.len() + 1,
        node_at(placed(forest, file).files, placed(forest, file).order.last()) == Some(file),
{
    lemma_parent_place(forest, file);
    if file.depth != 0 && parent_place(forest, file) is Some {
        let at = parent_place(forest, file)->0;
        lemma_added_below_holds(forest.files, at, file);
    } else {
        let out = forest.files.push(file);
        assert(out[forest.files.len() as int] == file);
    }
}

/// The first top-level file that a file belongs below takes it, whatever
/// stands below the top level or behind that file: the file is added
/// behind its sub-files, and nothing else changes.
pub proof fn lemma_first_top_level_parent_takes(forest: Forest, file: MetaFileView, first: int)
    requires
        file.depth > 0,
        0 <= first < forest.files.len() <= usize::MAX,
        is_parent(forest.files[first], file),
        forall|k: int| 0 <= k < first ==> !is_parent(#[trigger] forest.files[k], file),
    ensures
        placed(forest, file).files == forest.files.update(
            first,
            forest.files[first].with_sub_file(file),
        ),
{
    lemma_top_parent(forest.files, file, 0);
    let top = top_parent(forest.files, file, 0);
    assert(top == Some(first));
    let at = seq![first as usize];
    assert(parent_place(forest, file) == Some(at));
}

} // verus!
