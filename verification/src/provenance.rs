//! Where the definitions of a loaded workspace come from, and in which
//! order each file lists them.

use vstd::prelude::*;
use crate::lua_cats::{Definition, DefinitionView};
use crate::paths::{file_parts, relative_to};
use crate::sort::{lemma_stable_sorted, stable_sorted};
use crate::workspace::{
    Forest, GroupView, LocatedView, MetaFile, MetaFileView, added_below, empty_forest, group_from,
    grouped, lemma_group_from, lemma_parent_place, loaded, located_all, located_defines, meta_of,
    metas_of, node_at, parent_place, placed, placed_all, with_entry,
};

verus! {

/// Whether the URI `file` names the file that lies at `path` below
/// `root`.
pub open spec fn lies_at(file: Seq<char>, root: Seq<Seq<char>>, path: Seq<Seq<char>>) -> bool {
    match file_parts(file) {
        Some(parts) => relative_to(parts, root) == Some(path),
        None => false,
    }
}

/// Whether `definition` has a place of definition at offset `start` in the
/// file that lies at `path` below `root`.
pub open spec fn defined_at(
    definition: DefinitionView,
    root: Seq<Seq<char>>,
    path: Seq<Seq<char>>,
    start: u64,
) -> bool {
    exists|j: int|
        0 <= j < definition.defines.len() && (#[trigger] definition.defines[j]).start == start
            && lies_at(definition.defines[j].file, root, path)
}

/// Whether each definition listed at `path` is one of `docs` and is
/// defined in the file at `path` below `root`, at the offset that `starts`
/// gives for it.
pub open spec fn listed_by(
    definitions: Seq<DefinitionView>,
    starts: Seq<u64>,
    docs: Seq<DefinitionView>,
    root: Seq<Seq<char>>,
    path: Seq<Seq<char>>,
) -> bool {
    &&& starts.len() == definitions.len()
    &&& forall|k: int|
        0 <= k < definitions.len() ==> docs.contains(#[trigger] definitions[k]) && defined_at(
            definitions[k],
            root,
            path,
            starts[k],
        )
}

/// Whether the offsets never fall from one to the next.
pub open spec fn ascending(starts: Seq<u64>) -> bool {
    forall|i: int, j: int| 0 <= i < j < starts.len() ==> starts[i] <= starts[j]
}

/// Whether the file lists only definitions of `docs` that are defined in
/// it, in the order of the offsets at which it defines them.
pub open spec fn in_document_order(
    file: MetaFileView,
    docs: Seq<DefinitionView>,
    root: Seq<Seq<char>>,
) -> bool {
    exists|starts: Seq<u64>| #[trigger]
        ascending(starts) && listed_by(file.definitions, starts, docs, root, file.path)
}

/// Whether `in_document_order` holds of the file and of every file below
/// it.
pub open spec fn all_in_document_order(
    file: MetaFileView,
    docs: Seq<DefinitionView>,
    root: Seq<Seq<char>>,
) -> bool
    decreases file,
{
    &&& in_document_order(file, docs, root)
    &&& forall|j: int|
        0 <= j < file.sub_files.len() ==> all_in_document_order(
            #[trigger] file.sub_files[j],
            docs,
            root,
        )
}

/// Whether `all_in_document_order` holds of each of the files.
pub open spec fn workspace_in_document_order(
    files: Seq<MetaFileView>,
    docs: Seq<DefinitionView>,
    root: Seq<Seq<char>>,
) -> bool {
    forall|i: int| 0 <= i < files.len() ==> all_in_document_order(#[trigger] files[i], docs, root)
}

/// Whether the place is a place of definition of one of `docs`.
pub open spec fn place_of(place: LocatedView, docs: Seq<DefinitionView>) -> bool {
    &&& docs.contains(place.definition)
    &&& exists|j: int|
        0 <= j < place.definition.defines.len() && (#[trigger] place.definition.defines[j]).start
            == place.start && file_parts(place.definition.defines[j].file) == Some(place.parts)
}

/// Whether each of the places is a place of definition of one of `docs`.
pub open spec fn places_of(places: Seq<LocatedView>, docs: Seq<DefinitionView>) -> bool {
    forall|i: int| 0 <= i < places.len() ==> place_of(#[trigger] places[i], docs)
}

/// The places found for a definition are places of that definition.
proof fn lemma_located_defines(definition: DefinitionView, n: int)
    requires
        0 <= n <= definition.defines.len(),
        located_defines(definition, definition.defines.take(n)) is Some,
    ensures
        forall|i: int|
            0 <= i < located_defines(definition, definition.defines.take(n))->0.len() ==> {
                let place = #[trigger] located_defines(
                    definition,
                    definition.defines.take(n),
                )->0[i];
                &&& place.definition == definition
                &&& exists|j: int|
                    0 <= j < definition.defines.len() && (#[trigger] definition.defines[j]).start
                        == place.start && file_parts(definition.defines[j].file) == Some(
                        place.parts,
                    )
            },
    decreases n,
{
    if n > 0 {
        let defines = definition.defines.take(n);
        assert(defines.drop_last() =~= definition.defines.take(n - 1));
        lemma_located_defines(definition, n - 1);
        let done = located_defines(definition, definition.defines.take(n - 1))->0;
        let out = located_defines(definition, defines)->0;
        assert(defines.last() == definition.defines[n - 1]);
        assert forall|i: int| 0 <= i < out.len() implies {
            let place = #[trigger] out[i];
            &&& place.definition == definition
            &&& exists|j: int|
                0 <= j < definition.defines.len() && (#[trigger] definition.defines[j]).start
                    == place.start && file_parts(definition.defines[j].file) == Some(place.parts)
        } by {
            if i < done.len() {
                assert(out[i] == done[i]);
            } else {
                assert(definition.defines[n - 1].start == out[i].start);
            }
        }
    }
}

/// The places found for `docs` are places of definition of `docs`.
pub proof fn lemma_located_all(docs: Seq<DefinitionView>)
    requires
        located_all(docs) is Some,
    ensures
        places_of(located_all(docs)->0, docs),
    decreases docs.len(),
{
    if docs.len() > 0 {
        let rest = docs.drop_last();
        let last = docs.last();
        lemma_located_all(rest);
        let done = located_all(rest)->0;
        let more = located_defines(last, last.defines)->0;
        assert(last.defines.take(last.defines.len() as int) =~= last.defines);
        lemma_located_defines(last, last.defines.len() as int);
        let out = located_all(docs)->0;
        assert forall|i: int| 0 <= i < out.len() implies place_of(#[trigger] out[i], docs) by {
            if i < done.len() {
                assert(out[i] == done[i]);
                assert(place_of(done[i], rest));
                let k = choose|k: int| 0 <= k < rest.len() && rest[k] == done[i].definition;
                assert(docs[k] == done[i].definition);
            } else {
                assert(out[i] == more[i - done.len()]);
                assert(docs[docs.len() - 1] == last);
            }
        }
    }
}

/// Whether each entry of the group is a definition of `docs` with the
/// offset at which the group's file defines it.
pub open spec fn group_sourced(
    group: GroupView,
    docs: Seq<DefinitionView>,
    root: Seq<Seq<char>>,
) -> bool {
    forall|k: int|
        0 <= k < group.entries.len() ==> docs.contains((#[trigger] group.entries[k]).1)
            && defined_at(group.entries[k].1, root, group.path, group.entries[k].0)
}

/// Whether `group_sourced` holds of each group.
pub open spec fn groups_sourced(
    groups: Seq<GroupView>,
    docs: Seq<DefinitionView>,
    root: Seq<Seq<char>>,
) -> bool {
    forall|i: int| 0 <= i < groups.len() ==> group_sourced(#[trigger] groups[i], docs, root)
}

/// Grouping places of definition of `docs` gives groups whose entries are
/// definitions of `docs`, each defined in the group's file.
pub proof fn lemma_grouped_sourced(
    places: Seq<LocatedView>,
    docs: Seq<DefinitionView>,
    root: Seq<Seq<char>>,
)
    requires
        places_of(places, docs),
    ensures
        groups_sourced(grouped(places, root), docs, root),
    decreases places.len(),
{
    if places.len() > 0 {
        let rest = places.drop_last();
        let place = places.last();
        assert forall|i: int| 0 <= i < rest.len() implies place_of(#[trigger] rest[i], docs) by {
            assert(rest[i] == places[i]);
        }
        lemma_grouped_sourced(rest, docs, root);
        let done = grouped(rest, root);
        match relative_to(place.parts, root) {
            None => {},
            Some(path) => {
                let entry = (place.start, place.definition);
                let out = with_entry(done, path, entry);
                lemma_group_from(done, path, 0);
                assert(place_of(places[places.len() - 1], docs));
                let j = choose|j: int|
                    0 <= j < place.definition.defines.len() && (
                    #[trigger] place.definition.defines[j]).start == place.start && file_parts(
                        place.definition.defines[j].file,
                    ) == Some(place.parts);
                assert(defined_at(place.definition, root, path, place.start)) by {
                    assert(place.definition.defines[j].start == place.start);
                }
                assert forall|i: int| 0 <= i < out.len() implies group_sourced(
                    #[trigger] out[i],
                    docs,
                    root,
                ) by {
                    match group_from(done, path, 0) {
                        Some(at) => {
                            if i == at {
                                assert(group_sourced(done[at], docs, root));
                                assert forall|k: int| 0 <= k < out[i].entries.len() implies docs.contains(
                                    (#[trigger] out[i].entries[k]).1,
                                ) && defined_at(
                                    out[i].entries[k].1,
                                    root,
                                    out[i].path,
                                    out[i].entries[k].0,
                                ) by {
                                    if k < done[at].entries.len() {
                                        assert(out[i].entries[k] == done[at].entries[k]);
                                    }
                                }
                            } else {
                                assert(out[i] == done[i]);
                            }
                        },
                        None => {
                            if i < done.len() {
                                assert(out[i] == done[i]);
                            }
                        },
                    }
                }
            },
        }
    }
}

/// The offsets of a sequence of entries, entry by entry.
pub open spec fn starts_in(entries: Seq<(u64, DefinitionView)>) -> Seq<u64> {
    Seq::new(entries.len(), |i: int| entries[i].0)
}

/// The file of a sourced group lists its definitions in document order.
pub proof fn lemma_meta_in_document_order(
    group: GroupView,
    docs: Seq<DefinitionView>,
    root: Seq<Seq<char>>,
)
    requires
        group_sourced(group, docs, root),
    ensures
        all_in_document_order(meta_of(group), docs, root),
{
    broadcast use vstd::seq_lib::group_to_multiset_ensures;

    let sorted = stable_sorted::<(u64, Definition)>(group.entries);
    lemma_stable_sorted::<(u64, Definition)>(group.entries);
    let starts = starts_in(sorted);
    let file = meta_of(group);
    assert(ascending(starts)) by {
        assert forall|i: int, j: int| 0 <= i < j < starts.len() implies starts[i] <= starts[j] by {
            assert(<(u64, Definition) as crate::sort::Ranked>::before(sorted[i], sorted[j]));
        }
    }
    assert(listed_by(file.definitions, starts, docs, root, file.path)) by {
        assert forall|k: int| 0 <= k < file.definitions.len() implies docs.contains(
            #[trigger] file.definitions[k],
        ) && defined_at(file.definitions[k], root, file.path, starts[k]) by {
            assert(sorted.to_multiset().count(sorted[k]) > 0);
            assert(group.entries.to_multiset().count(sorted[k]) > 0);
            let at = choose|at: int|
                0 <= at < group.entries.len() && group.entries[at] == sorted[k];
            assert(docs.contains(group.entries[at].1));
        }
    }
}

/// Adding a file whose definitions are in document order below a file
/// of such files gives such files.
pub proof fn lemma_added_below_in_document_order(
    files: Seq<MetaFileView>,
    at: Seq<usize>,
    file: MetaFileView,
    docs: Seq<DefinitionView>,
    root: Seq<Seq<char>>,
)
    requires
        workspace_in_document_order(files, docs, root),
        all_in_document_order(file, docs, root),
    ensures
        workspace_in_document_order(added_below(files, at, file), docs, root),
    decreases at.len(),
{
    let out = added_below(files, at, file);
    if at.len() > 0 && at[0] < files.len() {
        let head = files[at[0] as int];
        assert(all_in_document_order(head, docs, root));
        assert(workspace_in_document_order(head.sub_files, docs, root));
        if at.len() > 1 {
            lemma_added_below_in_document_order(head.sub_files, at.drop_first(), file, docs, root);
        }
        let changed = out[at[0] as int];
        let starts = choose|starts: Seq<u64>| #[trigger]
            ascending(starts) && listed_by(head.definitions, starts, docs, root, head.path);
        assert(ascending(starts));
        assert(listed_by(changed.definitions, starts, docs, root, changed.path));
        assert forall|j: int| 0 <= j < changed.sub_files.len() implies all_in_document_order(
            #[trigger] changed.sub_files[j],
            docs,
            root,
        ) by {
            if at.len() == 1 && j < head.sub_files.len() {
                assert(changed.sub_files[j] == head.sub_files[j]);
            }
        }
        assert forall|i: int| 0 <= i < out.len() implies all_in_document_order(
            #[trigger] out[i],
            docs,
            root,
        ) by {
            if i != at[0] {
                assert(out[i] == files[i]);
            }
        }
    }
}

/// Placing a file whose definitions are in document order in a workspace
/// of such files gives a workspace of such files.
pub proof fn lemma_placed_in_document_order(
    forest: Forest,
    file: MetaFileView,
    docs: Seq<DefinitionView>,
    root: Seq<Seq<char>>,
)
    requires
        workspace_in_document_order(forest.files, docs, root),
        all_in_document_order(file, docs, root),
    ensures
        workspace_in_document_order(placed(forest, file).files, docs, root),
{
    let out = placed(forest, file).files;
    if file.depth != 0 && parent_place(forest, file) is Some {
        let at = parent_place(forest, file)->0;
        lemma_added_below_in_document_order(forest.files, at, file, docs, root);
    } else {
        assert forall|i: int| 0 <= i < out.len() implies all_in_document_order(
            #[trigger] out[i],
            docs,
            root,
        ) by {
            if i < forest.files.len() {
                assert(out[i] == forest.files[i]);
            }
        }
    }
}

/// Placing files whose definitions are in document order, one after the
/// other, gives a workspace of such files.
pub proof fn lemma_placed_all_in_document_order(
    forest: Forest,
    more: Seq<MetaFileView>,
    docs: Seq<DefinitionView>,
    root: Seq<Seq<char>>,
)
    requires
        workspace_in_document_order(forest.files, docs, root),
        workspace_in_document_order(more, docs, root),
    ensures
        workspace_in_document_order(placed_all(forest, more).files, docs, root),
    decreases more.len(),
{
    if more.len() > 0 {
        assert forall|i: int| 0 <= i < more.drop_last().len() implies all_in_document_order(
            #[trigger] more.drop_last()[i],
            docs,
            root,
        ) by {
            assert(more.drop_last()[i] == more[i]);
        }
        lemma_placed_all_in_document_order(forest, more.drop_last(), docs, root);
        assert(all_in_document_order(more[more.len() - 1], docs, root));
        lemma_placed_in_document_order(
            placed_all(forest, more.drop_last()),
            more.last(),
            docs,
            root,
        );
    }
}

/// In a workspace built from `docs`, every file, at the top level or
/// below another, lists only definitions of `docs`; each of them has a
/// place of definition in that very file, which lies below the root; and
/// the file lists them by ascending start offset of those places. A
/// definition with no place of definition below the root is listed
/// nowhere.
pub proof fn lemma_loaded_in_document_order(docs: Seq<DefinitionView>, root: Seq<Seq<char>>)
    requires
        located_all(docs) is Some,
    ensures
        workspace_in_document_order(
            loaded(empty_forest(), root, located_all(docs)->0).files,
            docs,
            root,
        ),
{
    broadcast use vstd::seq_lib::group_to_multiset_ensures;

    let places = located_all(docs)->0;
    lemma_located_all(docs);
    lemma_grouped_sourced(places, docs, root);
    let groups = grouped(places, root);
    let metas = metas_of(groups);
    let sorted = stable_sorted::<MetaFile>(metas);
    lemma_stable_sorted::<MetaFile>(metas);
    assert forall|i: int| 0 <= i < sorted.len() implies all_in_document_order(
        #[trigger] sorted[i],
        docs,
        root,
    ) by {
        assert(sorted.to_multiset().count(sorted[i]) > 0);
        assert(metas.to_multiset().count(sorted[i]) > 0);
        let k = choose|k: int| 0 <= k < metas.len() && metas[k] == sorted[i];
        assert(group_sourced(groups[k], docs, root));
        lemma_meta_in_document_order(groups[k], docs, root);
    }
    lemma_placed_all_in_document_order(empty_forest(), sorted, docs, root);
}

/// Whether the file, or a file below it, lies at `path` and lists
/// `definitions`.
pub open spec fn file_lists(
    file: MetaFileView,
    path: Seq<Seq<char>>,
    definitions: Seq<DefinitionView>,
) -> bool
    decreases file,
{
    ||| file.path == path && file.definitions == definitions
    ||| exists|j: int|
        0 <= j < file.sub_files.len() && file_lists(#[trigger] file.sub_files[j], path, definitions)
}

/// Whether one of the files, or a file below one, lies at `path` and lists
/// `definitions`.
pub open spec fn workspace_lists(
    files: Seq<MetaFileView>,
    path: Seq<Seq<char>>,
    definitions: Seq<DefinitionView>,
) -> bool {
    exists|i: int| 0 <= i < files.len() && file_lists(#[trigger] files[i], path, definitions)
}

/// A file that belongs below none of the files placed before it is
/// placed at the top level, behind the other files.
pub proof fn lemma_orphan_stays_at_top_level(forest: Forest, file: MetaFileView)
    requires
        parent_place(forest, file) is None,
    ensures
        placed(forest, file).files == forest.files.push(file),
        placed(forest, file).files.last() == file,
{
}

/// Adding a file below another drops nothing: the files list the added
/// file, where the place holds a file, and whatever they listed before.
pub proof fn lemma_added_below_keeps(
    files: Seq<MetaFileView>,
    at: Seq<usize>,
    file: MetaFileView,
    path: Seq<Seq<char>>,
    definitions: Seq<DefinitionView>,
)
    ensures
        node_at(files, at) is Some ==> workspace_lists(
            added_below(files, at, file),
            file.path,
            file.definitions,
        ),
        workspace_lists(files, path, definitions) ==> workspace_lists(
            added_below(files, at, file),
            path,
            definitions,
        ),
    decreases at.len(),
{
    let out = added_below(files, at, file);
    if at.len() > 0 && at[0] < files.len() {
        let index = at[0] as int;
        let head = files[index];
        let changed = out[index];
        if at.len() > 1 {
            lemma_added_below_keeps(head.sub_files, at.drop_first(), file, path, definitions);
        }
        if node_at(files, at) is Some {
            if at.len() == 1 {
                let last = head.sub_files.len() as int;
                assert(changed.sub_files[last] == file);
                assert(file_lists(changed.sub_files[last], file.path, file.definitions));
            } else {
                let j = choose|j: int|
                    0 <= j < changed.sub_files.len() && file_lists(
                        #[trigger] changed.sub_files[j],
                        file.path,
                        file.definitions,
                    );
                assert(file_lists(changed.sub_files[j], file.path, file.definitions));
            }
            assert(file_lists(changed, file.path, file.definitions));
        }
        if workspace_lists(files, path, definitions) {
            let i = choose|i: int|
                0 <= i < files.len() && file_lists(#[trigger] files[i], path, definitions);
            if i == index {
                if head.path == path && head.definitions == definitions {
                } else {
                    let j = choose|j: int|
                        0 <= j < head.sub_files.len() && file_lists(
                            #[trigger] head.sub_files[j],
                            path,
                            definitions,
                        );
                    if at.len() == 1 {
                        assert(changed.sub_files[j] == head.sub_files[j]);
                    } else {
                        assert(workspace_lists(head.sub_files, path, definitions));
                        let k = choose|k: int|
                            0 <= k < changed.sub_files.len() && file_lists(
                                #[trigger] changed.sub_files[k],
                                path,
                                definitions,
                            );
                        assert(file_lists(changed.sub_files[k], path, definitions));
                    }
                }
                assert(file_lists(changed, path, definitions));
            } else {
                assert(out[i] == files[i]);
            }
        }
    }
}

/// Placing a file drops nothing: the workspace lists the file, and
/// whatever it listed before.
pub proof fn lemma_placed_keeps(
    forest: Forest,
    file: MetaFileView,
    path: Seq<Seq<char>>,
    definitions: Seq<DefinitionView>,
)
    ensures
        workspace_lists(placed(forest, file).files, file.path, file.definitions),
        workspace_lists(forest.files, path, definitions) ==> workspace_lists(
            placed(forest, file).files,
            path,
            definitions,
        ),
{
    let out = placed(forest, file).files;
    lemma_parent_place(forest, file);
    if file.depth != 0 && parent_place(forest, file) is Some {
        let at = parent_place(forest, file)->0;
        lemma_added_below_keeps(forest.files, at, file, path, definitions);
    } else {
        let files = forest.files;
        assert(out[files.len() as int] == file);
        assert(file_lists(out[files.len() as int], file.path, file.definitions));
        if workspace_lists(files, path, definitions) {
            let i = choose|i: int|
                0 <= i < files.len() && file_lists(#[trigger] files[i], path, definitions);
            assert(out[i] == files[i]);
        }
    }
}

/// Placing files one after the other drops none of them, and nothing that
/// the workspace listed before.
pub proof fn lemma_placed_all_keeps(
    forest: Forest,
    more: Seq<MetaFileView>,
    path: Seq<Seq<char>>,
    definitions: Seq<DefinitionView>,
)
    ensures
        workspace_lists(forest.files, path, definitions) ==> workspace_lists(
            placed_all(forest, more).files,
            path,
            definitions,
        ),
        forall|k: int|
            0 <= k < more.len() && (#[trigger] more[k]).path == path && more[k].definitions
                == definitions ==> workspace_lists(
                placed_all(forest, more).files,
                path,
                definitions,
            ),
    decreases more.len(),
{
    if more.len() > 0 {
        let rest = more.drop_last();
        lemma_placed_all_keeps(forest, rest, path, definitions);
        lemma_placed_keeps(placed_all(forest, rest), more.last(), path, definitions);
        assert forall|k: int|
            0 <= k < more.len() && (#[trigger] more[k]).path == path && more[k].definitions
                == definitions implies workspace_lists(
            placed_all(forest, more).files,
            path,
            definitions,
        ) by {
            if k < rest.len() {
                assert(rest[k] == more[k]);
            }
        }
    }
}

/// A workspace built from `docs` drops no file: for every file below the
/// root in which one of `docs` is defined, the workspace holds a file
/// with its path and its definitions, at the top level or below another
/// file, whether or not a file was found that it belongs below.
pub proof fn lemma_loaded_keeps_every_file(
    docs: Seq<DefinitionView>,
    root: Seq<Seq<char>>,
    group: int,
)
    requires
        located_all(docs) is Some,
        0 <= group < grouped(located_all(docs)->0, root).len(),
    ensures
        workspace_lists(
            loaded(empty_forest(), root, located_all(docs)->0).files,
            grouped(located_all(docs)->0, root)[group].path,
            meta_of(grouped(located_all(docs)->0, root)[group]).definitions,
        ),
{
    broadcast use vstd::seq_lib::group_to_multiset_ensures;

    let groups = grouped(located_all(docs)->0, root);
    let metas = metas_of(groups);
    let sorted = stable_sorted::<MetaFile>(metas);
    lemma_stable_sorted::<MetaFile>(metas);
    let file = meta_of(groups[group]);
    assert(metas[group] == file);
    assert(metas.to_multiset().count(file) > 0);
    assert(sorted.to_multiset().count(file) > 0);
    let k = choose|k: int| 0 <= k < sorted.len() && sorted[k] == file;
    lemma_placed_all_keeps(empty_forest(), sorted, file.path, file.definitions);
}

/// Whether one of the groups is the group of the file at `path` and has
/// the entry `entry`.
pub open spec fn groups_hold(
    groups: Seq<GroupView>,
    path: Seq<Seq<char>>,
    entry: (u64, DefinitionView),
) -> bool {
    exists|i: int, k: int|
        0 <= i < groups.len() && 0 <= k < groups[i].entries.len() && groups[i].path == path
            && #[trigger] groups[i].entries[k] == entry
}

/// Adding an entry keeps every entry that the groups had, and the groups
/// have the added entry.
pub proof fn lemma_with_entry_holds(
    groups: Seq<GroupView>,
    path: Seq<Seq<char>>,
    entry: (u64, DefinitionView),
    other_path: Seq<Seq<char>>,
    other: (u64, DefinitionView),
)
    ensures
        groups_hold(with_entry(groups, path, entry), path, entry),
        groups_hold(groups, other_path, other) ==> groups_hold(
            with_entry(groups, path, entry),
            other_path,
            other,
        ),
{
    let out = with_entry(groups, path, entry);
    lemma_group_from(groups, path, 0);
    match group_from(groups, path, 0) {
        Some(at) => {
            assert(out[at].entries[groups[at].entries.len() as int] == entry);
            if groups_hold(groups, other_path, other) {
                let (i, k) = choose|i: int, k: int|
                    0 <= i < groups.len() && 0 <= k < groups[i].entries.len() && groups[i].path
                        == other_path && #[trigger] groups[i].entries[k] == other;
                if i == at {
                    assert(out[i].entries[k] == other);
                } else {
                    assert(out[i].entries[k] == other);
                }
            }
        },
        None => {
            assert(out[groups.len() as int].entries[0] == entry);
            if groups_hold(groups, other_path, other) {
                let (i, k) = choose|i: int, k: int|
                    0 <= i < groups.len() && 0 <= k < groups[i].entries.len() && groups[i].path
                        == other_path && #[trigger] groups[i].entries[k] == other;
                assert(out[i].entries[k] == other);
            }
        },
    }
}

/// Every place that lies below the root has its entry in the group of its
/// file.
pub proof fn lemma_grouped_holds(places: Seq<LocatedView>, root: Seq<Seq<char>>, k: int)
    requires
        0 <= k < places.len(),
        relative_to(places[k].parts, root) is Some,
    ensures
        groups_hold(
            grouped(places, root),
            relative_to(places[k].parts, root)->0,
            (places[k].start, places[k].definition),
        ),
    decreases places.len(),
{
    let rest = places.drop_last();
    let done = grouped(rest, root);
    let last = places.last();
    let path = relative_to(places[k].parts, root)->0;
    let entry = (places[k].start, places[k].definition);
    if k < places.len() - 1 {
        assert(rest[k] == places[k]);
        lemma_grouped_holds(rest, root, k);
        match relative_to(last.parts, root) {
            Some(last_path) => {
                lemma_with_entry_holds(
                    done,
                    last_path,
                    (last.start, last.definition),
                    path,
                    entry,
                );
            },
            None => {},
        }
    } else {
        lemma_with_entry_holds(done, path, entry, path, entry);
    }
}

/// Every place of definition of `docs` is among the places found for
/// `docs`.
pub proof fn lemma_located_all_finds(docs: Seq<DefinitionView>, i: int, j: int)
    requires
        located_all(docs) is Some,
        0 <= i < docs.len(),
        0 <= j < docs[i].defines.len(),
    ensures
        file_parts(docs[i].defines[j].file) is Some,
        located_all(docs)->0.contains(
            LocatedView {
                parts: file_parts(docs[i].defines[j].file)->0,
                start: docs[i].defines[j].start,
                definition: docs[i],
            },
        ),
    decreases docs.len(),
{
    let rest = docs.drop_last();
    let done = located_all(rest)->0;
    let more = located_defines(docs.last(), docs.last().defines)->0;
    let out = located_all(docs)->0;
    if i < docs.len() - 1 {
        assert(rest[i] == docs[i]);
        lemma_located_all_finds(rest, i, j);
        let place = LocatedView {
            parts: file_parts(docs[i].defines[j].file)->0,
            start: docs[i].defines[j].start,
            definition: docs[i],
        };
        let at = choose|at: int| 0 <= at < done.len() && done[at] == place;
        assert(out[at] == place);
    } else {
        let definition = docs.last();
        assert(definition.defines.take(definition.defines.len() as int) =~= definition.defines);
        lemma_located_defines_finds(definition, definition.defines.len() as int, j);
        let place = LocatedView {
            parts: file_parts(definition.defines[j].file)->0,
            start: definition.defines[j].start,
            definition,
        };
        let at = choose|at: int| 0 <= at < more.len() && more[at] == place;
        assert(out[done.len() + at] == place);
    }
}

/// Every place among the first `n` places of definition of a definition
/// is among the places found for them.
proof fn lemma_located_defines_finds(definition: DefinitionView, n: int, j: int)
    requires
        0 <= j < n <= definition.defines.len(),
        located_defines(definition, definition.defines.take(n)) is Some,
    ensures
        file_parts(definition.defines[j].file) is Some,
        located_defines(definition, definition.defines.take(n))->0.contains(
            LocatedView {
                parts: file_parts(definition.defines[j].file)->0,
                start: definition.defines[j].start,
                definition,
            },
        ),
    decreases n,
{
    let defines = definition.defines.take(n);
    assert(defines.drop_last() =~= definition.defines.take(n - 1));
    assert(defines.last() == definition.defines[n - 1]);
    let done = located_defines(definition, definition.defines.take(n - 1))->0;
    let out = located_defines(definition, defines)->0;
    let place = LocatedView {
        parts: file_parts(definition.defines[j].file)->0,
        start: definition.defines[j].start,
        definition,
    };
    if j < n - 1 {
        lemma_located_defines_finds(definition, n - 1, j);
        let at = choose|at: int| 0 <= at < done.len() && done[at] == place;
        assert(out[at] == place);
    } else {
        assert(out[done.len() as int] == place);
    }
}

/// Whether one of the files, or a file below one, lies at `path` and lists
/// `definition`.
pub open spec fn workspace_holds(
    files: Seq<MetaFileView>,
    path: Seq<Seq<char>>,
    definition: DefinitionView,
) -> bool {
    exists|definitions: Seq<DefinitionView>| #[trigger]
        workspace_lists(files, path, definitions) && definitions.contains(definition)
}

/// A workspace built from `docs` lists every definition in every file
/// below the root that defines it: a definition with places of definition
/// in several files is listed in each of them.
pub proof fn lemma_loaded_holds_every_definition(
    docs: Seq<DefinitionView>,
    root: Seq<Seq<char>>,
    path: Seq<Seq<char>>,
    i: int,
    j: int,
)
    requires
        located_all(docs) is Some,
        0 <= i < docs.len(),
        0 <= j < docs[i].defines.len(),
        lies_at(docs[i].defines[j].file, root, path),
    ensures
        workspace_holds(loaded(empty_forest(), root, located_all(docs)->0).files, path, docs[i]),
{
    broadcast use vstd::seq_lib::group_to_multiset_ensures;

    let places = located_all(docs)->0;
    lemma_located_all_finds(docs, i, j);
    let place = LocatedView {
        parts: file_parts(docs[i].defines[j].file)->0,
        start: docs[i].defines[j].start,
        definition: docs[i],
    };
    let k = choose|k: int| 0 <= k < places.len() && places[k] == place;
    lemma_grouped_holds(places, root, k);
    let groups = grouped(places, root);
    let entry = (place.start, place.definition);
    let (g, e) = choose|g: int, e: int|
        0 <= g < groups.len() && 0 <= e < groups[g].entries.len() && groups[g].path == path
            && #[trigger] groups[g].entries[e] == entry;
    lemma_loaded_keeps_every_file(docs, root, g);
    let sorted = stable_sorted::<(u64, Definition)>(groups[g].entries);
    lemma_stable_sorted::<(u64, Definition)>(groups[g].entries);
    assert(groups[g].entries.to_multiset().count(entry) > 0);
    assert(sorted.to_multiset().count(entry) > 0);
    let at = choose|at: int| 0 <= at < sorted.len() && sorted[at] == entry;
    let definitions = meta_of(groups[g]).definitions;
    assert(definitions[at] == docs[i]);
    assert(workspace_lists(loaded(empty_forest(), root, places).files, path, definitions));
}

/// No file has two groups: the paths of the groups differ from each
/// other.
pub proof fn lemma_grouped_once(places: Seq<LocatedView>, root: Seq<Seq<char>>)
    ensures
        forall|i: int, j: int|
            0 <= i < j < grouped(places, root).len() ==> (#[trigger] grouped(places, root)[i]).path
                != (#[trigger] grouped(places, root)[j]).path,
    decreases places.len(),
{
    if places.len() > 0 {
        let done = grouped(places.drop_last(), root);
        lemma_grouped_once(places.drop_last(), root);
        match relative_to(places.last().parts, root) {
            Some(path) => {
                lemma_group_from(done, path, 0);
                let out = grouped(places, root);
                assert forall|i: int, j: int| 0 <= i < j < out.len() implies (#[trigger] out[i]).path
                    != (#[trigger] out[j]).path by {
                    if j < done.len() {
                        assert(out[i].path == done[i].path);
                        assert(out[j].path == done[j].path);
                    } else {
                        assert(out[i].path == done[i].path);
                    }
                }
            },
            None => {},
        }
    }
}

/// The place, from `from` on, of the first place of definition of
/// `definition` in the file that lies at `path` below `root`.
pub open spec fn first_place_at(
    definition: DefinitionView,
    root: Seq<Seq<char>>,
    path: Seq<Seq<char>>,
    from: int,
) -> Option<int>
    decreases definition.defines.len() - from,
{
    if from < 0 || from >= definition.defines.len() {
        None
    } else if lies_at(definition.defines[from].file, root, path) {
        Some(from)
    } else {
        first_place_at(definition, root, path, from + 1)
    }
}

/// Whether at most one place of definition of `definition` lies in the
/// file at `path` below `root`.
pub open spec fn defined_once_at(
    definition: DefinitionView,
    root: Seq<Seq<char>>,
    path: Seq<Seq<char>>,
) -> bool {
    forall|i: int, j: int|
        0 <= i < j < definition.defines.len() && lies_at(
            (#[trigger] definition.defines[i]).file,
            root,
            path,
        ) ==> !lies_at((#[trigger] definition.defines[j]).file, root, path)
}

/// Where only one place of definition lies in a file, it is the first
/// that does.
proof fn lemma_first_place_at(
    definition: DefinitionView,
    root: Seq<Seq<char>>,
    path: Seq<Seq<char>>,
    from: int,
    j: int,
)
    requires
        0 <= from <= j < definition.defines.len(),
        lies_at(definition.defines[j].file, root, path),
        forall|i: int|
            from <= i < j ==> !lies_at((#[trigger] definition.defines[i]).file, root, path),
    ensures
        first_place_at(definition, root, path, from) == Some(j),
    decreases j - from,
{
    if from < j {
        lemma_first_place_at(definition, root, path, from + 1, j);
    }
}

/// In a file that lists its definitions in document order, and that no
/// listed definition defines twice, the definitions stand by ascending
/// start offset of the first place of each that lies in the file.
pub proof fn lemma_first_places_ascend(
    file: MetaFileView,
    docs: Seq<DefinitionView>,
    root: Seq<Seq<char>>,
    a: int,
    b: int,
)
    requires
        in_document_order(file, docs, root),
        forall|k: int|
            0 <= k < file.definitions.len() ==> defined_once_at(
                #[trigger] file.definitions[k],
                root,
                file.path,
            ),
        0 <= a < b < file.definitions.len(),
    ensures
        first_place_at(file.definitions[a], root, file.path, 0) matches Some(first)
            && first_place_at(file.definitions[b], root, file.path, 0) matches Some(second)
            && file.definitions[a].defines[first].start
            <= file.definitions[b].defines[second].start,
{
    let starts = choose|starts: Seq<u64>| #[trigger]
        ascending(starts) && listed_by(file.definitions, starts, docs, root, file.path);
    lemma_first_place_is(file.definitions[a], root, file.path, starts[a]);
    lemma_first_place_is(file.definitions[b], root, file.path, starts[b]);
}

/// A definition that a file defines once, at offset `start`, has its
/// first place in the file at that offset.
proof fn lemma_first_place_is(
    definition: DefinitionView,
    root: Seq<Seq<char>>,
    path: Seq<Seq<char>>,
    start: u64,
)
    requires
        defined_at(definition, root, path, start),
        defined_once_at(definition, root, path),
    ensures
        first_place_at(definition, root, path, 0) matches Some(first)
            && definition.defines[first].start == start,
{
    let j = choose|j: int|
        0 <= j < definition.defines.len() && (#[trigger] definition.defines[j]).start == start
            && lies_at(definition.defines[j].file, root, path);
    assert forall|i: int| 0 <= i < j implies !lies_at(
        (#[trigger] definition.defines[i]).file,
        root,
        path,
    ) by {
        if lies_at(definition.defines[i].file, root, path) {
            assert(!lies_at(definition.defines[j].file, root, path));
        }
    }
    lemma_first_place_at(definition, root, path, 0, j);
}

} // verus!
