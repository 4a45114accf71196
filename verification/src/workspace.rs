//! The files of a folder of LuaCATS definitions, laid out as the folder
//! is.

use vstd::prelude::*;
use crate::error::Error;
use crate::lua_cats::{DefineView, Definition, DefinitionView, views_of};
use crate::paths::{
    components_of, file_parts, locate, path_parts, relative_to, same_path, stem, stem_of,
    strip_root,
};
use crate::sort::{Ranked, stable_sort, stable_sorted};
use crate::text::{
    chars_le, chars_of, lemma_text_le_total, lemma_text_le_transitive, str_eq, text_le,
};

verus! {

/// A `MetaFile` as a mathematical value.
pub struct MetaFileView {
    pub path: Seq<Seq<char>>,
    pub definitions: Seq<DefinitionView>,
    pub depth: nat,
    pub sub_files: Seq<MetaFileView>,
}

/// A Lua file containing only LuaCats meta.
#[derive(Debug, PartialEq, Eq, PartialOrd, Ord)]
pub struct MetaFile {
    /// The file path, relative to the workspace root, component by
    /// component.
    pub path: Vec<String>,
    /// Parsed definitions from this file.
    pub definitions: Vec<Definition>,
    /// The depth in the directory tree.
    pub depth: usize,
    /// Files considered below this one in the heirarchy.
    pub sub_files: Vec<MetaFile>,
}

/// The views of a sequence of files, file by file.
pub open spec fn files_of(files: Seq<MetaFile>) -> Seq<MetaFileView> {
    Seq::new(files.len(), |i: int| files[i]@)
}

impl MetaFile {
    /// The file as a mathematical value, its sub-files with it.
    pub open spec fn model(self) -> MetaFileView
        decreases self,
    {
        MetaFileView {
            path: views_of(self.path@),
            definitions: views_of(self.definitions@),
            depth: self.depth as nat,
            sub_files: Seq::new(
                self.sub_files@.len(),
                |i: int|
                    if 0 <= i < self.sub_files@.len() {
                        self.sub_files@[i].model()
                    } else {
                        arbitrary()
                    },
            ),
        }
    }
}

impl View for MetaFile {
    type V = MetaFileView;

    open spec fn view(&self) -> MetaFileView {
        self.model()
    }
}

/// The sub-files of a file's view are the views of its sub-files.
pub proof fn lemma_meta_file_view(file: MetaFile)
    ensures
        file@.sub_files == files_of(file.sub_files@),
        file@.path == views_of(file.path@),
        file@.definitions == views_of(file.definitions@),
        file@.depth == file.depth,
{
    assert(file@.sub_files =~= files_of(file.sub_files@));
}

impl MetaFileView {
    /// The name of the file: the last component of its path, and the
    /// empty name where the path has no component.
    pub open spec fn file_name(self) -> Seq<char> {
        if self.path.len() > 0 {
            self.path.last()
        } else {
            Seq::empty()
        }
    }

    /// The name of the file without its extension.
    pub open spec fn file_stem(self) -> Seq<char> {
        stem_of(self.file_name())
    }

    /// The name of the directory that holds the file: the component of
    /// the path before the last. None for a file at depth 0, and for a
    /// path that names no directory.
    pub open spec fn directory_name(self) -> Option<Seq<char>> {
        if self.depth == 0 || self.path.len() < 2 {
            None
        } else {
            Some(self.path[self.path.len() - 2])
        }
    }

    /// The file with `file` added behind its sub-files.
    pub open spec fn with_sub_file(self, file: MetaFileView) -> MetaFileView {
        MetaFileView { sub_files: self.sub_files.push(file), ..self }
    }
}

impl Clone for MetaFile {
    fn clone(&self) -> (copy: Self)
        ensures
            copy@ == self@,
        decreases self,
    {
        proof {
            lemma_meta_file_view(*self);
        }
        let mut sub_files: Vec<MetaFile> = Vec::new();
        let mut i: usize = 0;
        while i < self.sub_files.len()
            invariant
                i <= self.sub_files.len(),
                sub_files@.len() == i,
                forall|k: int| 0 <= k < i ==> (#[trigger] sub_files@[k])@ == self.sub_files@[k]@,
            decreases self.sub_files.len() - i,
        {
            let below = &self.sub_files[i];
            sub_files.push(below.clone());
            i += 1;
        }
        let copy = MetaFile {
            path: self.path.clone(),
            definitions: self.definitions.clone(),
            depth: self.depth,
            sub_files,
        };
        proof {
            lemma_meta_file_view(copy);
            assert(views_of(copy.path@) =~= views_of(self.path@));
            assert(views_of(copy.definitions@) =~= views_of(self.definitions@));
            assert(files_of(copy.sub_files@) =~= files_of(self.sub_files@));
        }
        copy
    }
}

impl Default for MetaFile {
    fn default() -> (file: Self)
        ensures
            file@ == (MetaFileView {
                path: Seq::empty(),
                definitions: Seq::empty(),
                depth: 0,
                sub_files: Seq::empty(),
            }),
    {
        let file = MetaFile {
            path: Vec::new(),
            definitions: Vec::new(),
            depth: 0,
            sub_files: Vec::new(),
        };
        proof {
            lemma_meta_file_view(file);
            assert(file@.path =~= Seq::empty());
            assert(file@.definitions =~= Seq::empty());
            assert(file@.sub_files =~= Seq::empty());
        }
        file
    }
}

impl MetaFile {
    /// A file with no path, no definitions and no sub-files, at depth 0.
    pub fn new() -> (file: Self)
        ensures
            file@ == (MetaFileView {
                path: Seq::empty(),
                definitions: Seq::empty(),
                depth: 0,
                sub_files: Seq::empty(),
            }),
    {
        Self::default()
    }

    /// The name of the directory that holds the file; none for a file at
    /// depth 0.
    pub fn directory_name(&self) -> (name: Option<String>)
        requires
            self.depth > 0 ==> self.path@.len() >= 2,
        ensures
            match self@.directory_name() {
                Some(text) => name matches Some(found) && found@ == text,
                None => name is None,
            },
    {
        if self.depth == 0 {
            return None;
        }
        Some(self.path[self.path.len() - 2].clone())
    }

    /// The name of the file.
    pub fn file_name(&self) -> (name: String)
        requires
            self.path@.len() > 0,
        ensures
            name@ == self@.file_name(),
    {
        self.path[self.path.len() - 1].clone()
    }

    /// The name of the file without its extension.
    pub fn file_stem(&self) -> (name: String)
        requires
            self.path@.len() > 0,
        ensures
            name@ == self@.file_stem(),
    {
        stem(self.path[self.path.len() - 1].as_str())
    }

    /// Adds `file` behind the sub-files.
    pub fn add_sub_file(&mut self, file: MetaFile)
        ensures
            final(self)@ == old(self)@.with_sub_file(file@),
    {
        proof {
            lemma_meta_file_view(*self);
        }
        self.sub_files.push(file);
        proof {
            lemma_meta_file_view(*self);
            assert(files_of(self.sub_files@) =~= files_of(old(self).sub_files@).push(file@));
        }
    }
}

/// The definitions of a sequence of entries, each entry a start offset
/// with a definition.
pub open spec fn definitions_in(entries: Seq<(u64, DefinitionView)>) -> Seq<DefinitionView> {
    Seq::new(entries.len(), |i: int| entries[i].1)
}

/// Entries are ranked by their start offsets.
impl Ranked for (u64, Definition) {
    open spec fn before(a: (u64, DefinitionView), b: (u64, DefinitionView)) -> bool {
        a.0 <= b.0
    }

    proof fn lemma_before_total(a: (u64, DefinitionView), b: (u64, DefinitionView)) {
    }

    proof fn lemma_before_transitive(
        a: (u64, DefinitionView),
        b: (u64, DefinitionView),
        c: (u64, DefinitionView),
    ) {
    }

    fn precedes(&self, other: &Self) -> (yes: bool) {
        self.0 <= other.0
    }
}

/// Files are ranked by depth, and files of one depth by name.
impl Ranked for MetaFile {
    open spec fn before(a: MetaFileView, b: MetaFileView) -> bool {
        a.depth < b.depth || (a.depth == b.depth && text_le(a.file_name(), b.file_name()))
    }

    proof fn lemma_before_total(a: MetaFileView, b: MetaFileView) {
        lemma_text_le_total(a.file_name(), b.file_name());
    }

    proof fn lemma_before_transitive(a: MetaFileView, b: MetaFileView, c: MetaFileView) {
        if a.depth == b.depth && b.depth == c.depth {
            lemma_text_le_transitive(a.file_name(), b.file_name(), c.file_name());
        }
    }

    fn precedes(&self, other: &Self) -> (yes: bool) {
        proof {
            lemma_meta_file_view(*self);
            lemma_meta_file_view(*other);
        }
        if self.depth != other.depth {
            return self.depth < other.depth;
        }
        let mine = name_chars(self);
        let theirs = name_chars(other);
        chars_le(&mine, &theirs)
    }
}

/// The characters of the name of a file, none where its path is empty.
fn name_chars(file: &MetaFile) -> (chars: Vec<char>)
    ensures
        chars@ == file@.file_name(),
{
    proof {
        lemma_meta_file_view(*file);
    }
    if file.path.len() > 0 {
        chars_of(file.path[file.path.len() - 1].as_str())
    } else {
        Vec::new()
    }
}

impl MetaFile {
    /// The file at `path` with the definitions of `entries`, in the order
    /// of the start offsets that the entries give them; entries with one
    /// offset stay in their order. The depth is the number of components
    /// of the path less one.
    pub fn from(value: (Vec<String>, Vec<(u64, Definition)>)) -> (file: MetaFile)
        requires
            value.0@.len() > 0,
        ensures
            file@ == (MetaFileView {
                path: views_of(value.0@),
                definitions: definitions_in(
                    stable_sorted::<(u64, Definition)>(views_of(value.1@)),
                ),
                depth: (value.0@.len() - 1) as nat,
                sub_files: Seq::empty(),
            }),
    {
        let (path, entries) = value;
        let depth = path.len() - 1;
        let sorted = stable_sort(entries);
        let ghost keyed = views_of(sorted@);
        let mut definitions: Vec<Definition> = Vec::new();
        for entry in it: sorted
            invariant
                it.seq() == sorted@,
                keyed == views_of(sorted@),
                definitions@.len() == it.index(),
                forall|k: int| 0 <= k < it.index() ==> definitions@[k]@ == keyed[k].1,
        {
            definitions.push(entry.1);
        }
        let file = MetaFile { path, definitions, depth, sub_files: Vec::new() };
        proof {
            lemma_meta_file_view(file);
            assert(file@.definitions =~= definitions_in(keyed));
            assert(file@.sub_files =~= Seq::empty());
        }
        file
    }
}

/// Files with the places of those among them that were placed one after
/// the other, as a loading places them.
pub struct Forest {
    /// The top-level files.
    pub files: Seq<MetaFileView>,
    /// The place of every file that was placed, in the order of placing:
    /// the indices that lead to it, from the top-level files down.
    pub order: Seq<Seq<usize>>,
}

/// The files as a forest in which nothing was placed yet.
pub open spec fn unplaced(files: Seq<MetaFileView>) -> Forest {
    Forest { files, order: Seq::empty() }
}

/// A `Workspace` as a mathematical value.
pub struct WorkspaceView {
    pub root: Seq<char>,
    pub files: Seq<MetaFileView>,
}

/// A folder containing LuaCats definition files.
#[derive(Debug, PartialEq, Eq, PartialOrd, Ord)]
pub struct Workspace {
    /// The absolute path to the root folder of the workspace.
    pub root: String,
    /// The workspace's meta files.
    pub files: Vec<MetaFile>,
}

impl View for Workspace {
    type V = WorkspaceView;

    open spec fn view(&self) -> WorkspaceView {
        WorkspaceView { root: self.root@, files: files_of(self.files@) }
    }
}

impl Clone for Workspace {
    fn clone(&self) -> (copy: Self)
        ensures
            copy@ == self@,
    {
        let copy = Workspace { root: self.root.clone(), files: self.files.clone() };
        assert(files_of(copy.files@) =~= files_of(self.files@));
        copy
    }
}

impl Default for Workspace {
    fn default() -> (workspace: Self)
        ensures
            workspace@ == (WorkspaceView { root: Seq::empty(), files: Seq::empty() }),
    {
        let workspace = Workspace { root: String::new(), files: Vec::new() };
        assert(workspace@.files =~= Seq::empty());
        workspace
    }
}

/// Whether `file` belongs below `candidate`: the candidate lies one level
/// higher, and its stem is the name of the directory that holds `file`.
pub open spec fn is_parent(candidate: MetaFileView, file: MetaFileView) -> bool {
    candidate.depth == file.depth - 1 && Some(candidate.file_stem()) == file.directory_name()
}

/// The file at the place `at`: the indices of `at` lead to it from
/// `files` down through the sub-files. None where they lead nowhere.
pub open spec fn node_at(files: Seq<MetaFileView>, at: Seq<usize>) -> Option<MetaFileView>
    decreases at.len(),
{
    if at.len() == 0 || at[0] >= files.len() {
        None
    } else if at.len() == 1 {
        Some(files[at[0] as int])
    } else {
        node_at(files[at[0] as int].sub_files, at.drop_first())
    }
}

/// The files after `file` is added behind the sub-files of the file at the
/// place `at`; the files as they are where `at` leads nowhere.
pub open spec fn added_below(files: Seq<MetaFileView>, at: Seq<usize>, file: MetaFileView) -> Seq<
    MetaFileView,
>
    decreases at.len(),
{
    if at.len() == 0 || at[0] >= files.len() {
        files
    } else {
        let head = files[at[0] as int];
        let below = if at.len() == 1 {
            head.sub_files.push(file)
        } else {
            added_below(head.sub_files, at.drop_first(), file)
        };
        files.update(at[0] as int, MetaFileView { sub_files: below, ..head })
    }
}

/// The forest of a workspace without files.
pub open spec fn empty_forest() -> Forest {
    unplaced(Seq::empty())
}

/// The place among the top-level files, from `from` on, of the first that
/// `file` belongs below.
pub open spec fn top_parent(files: Seq<MetaFileView>, file: MetaFileView, from: int) -> Option<
    int,
>
    decreases files.len() - from,
{
    if from < 0 || from >= files.len() || from > usize::MAX {
        None
    } else if is_parent(files[from], file) {
        Some(from)
    } else {
        top_parent(files, file, from + 1)
    }
}

/// Whether the place `at` holds a file that `file` belongs below.
pub open spec fn holds_parent(
    files: Seq<MetaFileView>,
    at: Seq<usize>,
    file: MetaFileView,
) -> bool {
    match node_at(files, at) {
        Some(candidate) => is_parent(candidate, file),
        None => false,
    }
}

/// The place in the order of placing, from `from` on, of the first file
/// that `file` belongs below.
pub open spec fn parent_from(forest: Forest, file: MetaFileView, from: int) -> Option<int>
    decreases forest.order.len() - from,
{
    if from < 0 || from >= forest.order.len() {
        None
    } else if holds_parent(forest.files, forest.order[from], file) {
        Some(from)
    } else {
        parent_from(forest, file, from + 1)
    }
}

/// The place, in `files` from the file `from` on and in all that lies
/// below them, of the first file that `file` belongs below: the files are
/// gone through from the top down, a file before its sub-files and these
/// before the file that follows it.
pub open spec fn parent_below(files: Seq<MetaFileView>, file: MetaFileView, from: int) -> Option<
    Seq<usize>,
>
    decreases files, files.len() - from,
{
    if from < 0 || from >= files.len() || from > usize::MAX {
        None
    } else if is_parent(files[from], file) {
        Some(seq![from as usize])
    } else {
        match parent_below(files[from].sub_files, file, 0) {
            Some(below) => Some(seq![from as usize] + below),
            None => parent_below(files, file, from + 1),
        }
    }
}

/// The place of the file that `file` is to go below: the first of the
/// top-level files, in their order, that `file` belongs below. Where none
/// of them is such a file, the first such file below them: of the files
/// that were placed, in the order of their placing, and else as
/// `parent_below` finds it. No place where there is no such file at all.
pub open spec fn parent_place(forest: Forest, file: MetaFileView) -> Option<Seq<usize>> {
    match top_parent(forest.files, file, 0) {
        Some(top) => Some(seq![top as usize]),
        None => match parent_from(forest, file, 0) {
            Some(found) => Some(forest.order[found]),
            None => parent_below(forest.files, file, 0),
        },
    }
}

/// The forest with `file` at the top level, behind the other files.
pub open spec fn placed_on_top(forest: Forest, file: MetaFileView) -> Forest {
    Forest {
        files: forest.files.push(file),
        order: forest.order.push(seq![forest.files.len() as usize]),
    }
}

/// The forest with `file` behind the sub-files of the file at the place
/// `at`.
pub open spec fn placed_below(forest: Forest, at: Seq<usize>, file: MetaFileView) -> Forest {
    Forest {
        files: added_below(forest.files, at, file),
        order: forest.order.push(at.push(node_at(forest.files, at)->0.sub_files.len() as usize)),
    }
}

/// The forest after `file` is placed in it: at the top level where its
/// depth is 0; else below the first file that lies one level higher and
/// whose stem is the name of the directory of `file`, the top-level files
/// asked first, as `parent_place` finds it; and at the top level again
/// where it belongs below none.
pub open spec fn placed(forest: Forest, file: MetaFileView) -> Forest {
    if file.depth == 0 {
        placed_on_top(forest, file)
    } else {
        match parent_place(forest, file) {
            Some(at) => placed_below(forest, at, file),
            None => placed_on_top(forest, file),
        }
    }
}

/// The forest after each of `more` is placed, one after the other.
pub open spec fn placed_all(forest: Forest, more: Seq<MetaFileView>) -> Forest
    decreases more.len(),
{
    if more.len() == 0 {
        forest
    } else {
        placed(placed_all(forest, more.drop_last()), more.last())
    }
}

/// The file at the place `at`, where there is one.
fn node_ref<'a>(files: &'a Vec<MetaFile>, at: &Vec<usize>) -> (r: Option<&'a MetaFile>)
    ensures
        match node_at(files_of(files@), at@) {
            Some(node) => r matches Some(found) && found@ == node,
            None => r is None,
        },
{
    if at.len() == 0 {
        return None;
    }
    let mut level: &Vec<MetaFile> = files;
    let mut i: usize = 0;
    assert(at@.skip(0) =~= at@);
    while i + 1 < at.len()
        invariant
            i < at.len(),
            node_at(files_of(files@), at@) == node_at(files_of(level@), at@.skip(i as int)),
        decreases at.len() - i,
    {
        if at[i] >= level.len() {
            return None;
        }
        proof {
            lemma_meta_file_view(level@[at@[i as int] as int]);
            assert(at@.skip(i as int).drop_first() =~= at@.skip(i + 1));
        }
        level = &level[at[i]].sub_files;
        i += 1;
    }
    if at[i] >= level.len() {
        return None;
    }
    Some(&level[at[i]])
}

impl MetaFile {
    /// Adds `file` behind the sub-files of the file that the indices of
    /// `at`, from `from` on, lead to from the sub-files of this file; or
    /// behind the sub-files of this file where no index is left.
    fn add_below(&mut self, at: &Vec<usize>, from: usize, file: MetaFile)
        requires
            from <= at.len(),
            from < at.len() ==> node_at(old(self)@.sub_files, at@.skip(from as int)) is Some,
        ensures
            final(self)@.path == old(self)@.path,
            final(self)@.definitions == old(self)@.definitions,
            final(self)@.depth == old(self)@.depth,
            final(self)@.sub_files == if from < at.len() {
                added_below(old(self)@.sub_files, at@.skip(from as int), file@)
            } else {
                old(self)@.sub_files.push(file@)
            },
        decreases at.len() - from,
    {
        proof {
            lemma_meta_file_view(*self);
        }
        if from == at.len() {
            self.sub_files.push(file);
            proof {
                lemma_meta_file_view(*self);
                assert(files_of(self.sub_files@) =~= files_of(old(self).sub_files@).push(file@));
            }
        } else {
            let index = at[from];
            let ghost before = files_of(self.sub_files@);
            let ghost rest = at@.skip(from as int);
            proof {
                assert(rest[0] == index);
                assert(rest.drop_first() =~= at@.skip(from + 1));
                lemma_meta_file_view(self.sub_files@[index as int]);
            }
            self.sub_files[index].add_below(at, from + 1, file);
            proof {
                lemma_meta_file_view(*self);
                let head = before[index as int];
                let below = if rest.len() == 1 {
                    head.sub_files.push(file@)
                } else {
                    added_below(head.sub_files, rest.drop_first(), file@)
                };
                assert(files_of(self.sub_files@) =~= before.update(
                    index as int,
                    MetaFileView { sub_files: below, ..head },
                ));
            }
        }
    }
}

impl Workspace {
    /// The workspace of the folder `root`, with no files yet.
    pub fn new(root: &str) -> (workspace: Self)
        ensures
            workspace@ == (WorkspaceView { root: root@, files: Seq::empty() }),
    {
        let workspace = Workspace { root: root.to_owned(), files: Vec::new() };
        assert(workspace@.files =~= Seq::empty());
        workspace
    }

    /// The files of the workspace with `order` as the places of those
    /// that were placed.
    pub open spec fn forest(self, order: Seq<Seq<usize>>) -> Forest {
        Forest { files: self@.files, order }
    }

    /// Puts `file` at the top level, behind the other files.
    fn add_on_top(&mut self, order: &mut Vec<Vec<usize>>, file: MetaFile)
        ensures
            final(self)@.root == old(self)@.root,
            final(self).forest(views_of(final(order)@)) == placed_on_top(
                old(self).forest(views_of(old(order)@)),
                file@,
            ),
    {
        let ghost files = files_of(self.files@);
        let ghost places = views_of(order@);
        let mut place: Vec<usize> = Vec::new();
        place.push(self.files.len());
        order.push(place);
        self.files.push(file);
        assert(files_of(self.files@) =~= files.push(file@));
        assert(views_of(order@) =~= places.push(seq![files.len() as usize]));
    }

    /// The place of the first top-level file that `file` belongs below.
    fn top_level_parent(&self, file: &MetaFile, directory: &String) -> (r: Option<usize>)
        requires
            file.depth > 0,
            file@.directory_name() == Some(directory@),
        ensures
            match top_parent(self@.files, file@, 0) {
                Some(top) => r == Some(top as usize) && top <= usize::MAX,
                None => r is None,
            },
    {
        let ghost files = self@.files;
        let mut i: usize = 0;
        while i < self.files.len()
            invariant
                i <= self.files.len(),
                files == self@.files,
                file.depth > 0,
                file@.directory_name() == Some(directory@),
                top_parent(files, file@, 0) == top_parent(files, file@, i as int),
            decreases self.files.len() - i,
        {
            assert(files[i as int] == self.files@[i as int]@);
            if is_parent_of(&self.files[i], file.depth, directory) {
                return Some(i);
            }
            i += 1;
        }
        None
    }

    /// The place of the first file, of all that were placed and in the
    /// order of their placing, that `file` belongs below.
    fn placed_parent(
        &self,
        order: &Vec<Vec<usize>>,
        file: &MetaFile,
        directory: &String,
    ) -> (r: Option<Vec<usize>>)
        requires
            file.depth > 0,
            file@.directory_name() == Some(directory@),
        ensures
            match parent_from(self.forest(views_of(order@)), file@, 0) {
                Some(found) => r matches Some(at) && at@ == order@[found]@,
                None => r is None,
            },
    {
        let ghost forest = self.forest(views_of(order@));
        let mut i: usize = 0;
        while i < order.len()
            invariant
                i <= order.len(),
                forest == self.forest(views_of(order@)),
                file.depth > 0,
                file@.directory_name() == Some(directory@),
                parent_from(forest, file@, 0) == parent_from(forest, file@, i as int),
            decreases order.len() - i,
        {
            assert(forest.order[i as int] == order@[i as int]@);
            if let Some(candidate) = node_ref(&self.files, &order[i]) {
                if is_parent_of(candidate, file.depth, directory) {
                    return Some(order[i].clone());
                }
            }
            i += 1;
        }
        None
    }

    /// The place of the file that `file` is to go below.
    fn find_parent(
        &self,
        order: &Vec<Vec<usize>>,
        file: &MetaFile,
        directory: &String,
    ) -> (r: Option<Vec<usize>>)
        requires
            file.depth > 0,
            file@.directory_name() == Some(directory@),
        ensures
            match parent_place(self.forest(views_of(order@)), file@) {
                Some(place) => r matches Some(at) && at@ == place,
                None => r is None,
            },
    {
        if let Some(top) = self.top_level_parent(file, directory) {
            let mut at: Vec<usize> = Vec::new();
            at.push(top);
            assert(at@ =~= seq![top]);
            return Some(at);
        }
        proof {
            lemma_parent_from(self.forest(views_of(order@)), file@, 0);
        }
        match self.placed_parent(order, file, directory) {
            Some(at) => {
                let ghost found = parent_from(self.forest(views_of(order@)), file@, 0)->0;
                assert(views_of(order@)[found] == order@[found]@);
                Some(at)
            },
            None => find_below(&self.files, file.depth, directory, Ghost(file@)),
        }
    }

    /// Places `file` as one of the files of a loading, of which `order`
    /// holds the places of those placed so far.
    fn place(&mut self, order: &mut Vec<Vec<usize>>, file: MetaFile)
        ensures
            final(self)@.root == old(self)@.root,
            final(self).forest(views_of(final(order)@)) == placed(
                old(self).forest(views_of(old(order)@)),
                file@,
            ),
    {
        proof {
            lemma_meta_file_view(file);
        }
        // Top level files can be added directly to the workspace
        if file.depth == 0 {
            self.add_on_top(order, file);
            return;
        }
        // Otherwise we have to find the file's parent

        if file.path.len() >= 2 {
            let directory = file.path[file.path.len() - 2].clone();
            if let Some(mut at) = self.find_parent(order, &file, &directory) {
                proof {
                    lemma_parent_place(self.forest(views_of(order@)), file@);
                }
                let below = match node_ref(&self.files, &at) {
                    Some(parent) => {
                        proof {
                            lemma_meta_file_view(*parent);
                        }
                        parent.sub_files.len()
                    },
                    None => 0,
                };
                self.add_below_top(&at, file);
                let ghost parent_at = at@;
                at.push(below);
                let ghost places = views_of(order@);
                order.push(at);
                assert(views_of(order@) =~= places.push(parent_at.push(below)));
                return;
            }
        } else {
            proof {
                lemma_no_parent(self.forest(views_of(order@)), file@, 0);
                lemma_no_parent_below(self@.files, file@, 0);
                lemma_no_top_parent(self@.files, file@, 0);
            }
        }
        // It's possible for a file to not have a direct parent on disk:
        // such a file stays at the top level.
        self.add_on_top(order, file);
    }

    /// Places a file in the workspace: at the top level where its depth
    /// is 0; else below the first top-level file that lies one level
    /// higher and whose stem is the name of the file's directory. Where
    /// no top-level file is such a file, the file goes below the first
    /// such file below them, which are gone through from the top down, a
    /// file before its sub-files. A file that belongs below none is kept
    /// at the top level, where its depth tells it apart.
    pub fn add_file(&mut self, file: MetaFile)
        ensures
            final(self)@ == (WorkspaceView {
                root: old(self)@.root,
                files: placed(unplaced(old(self)@.files), file@).files,
            }),
    {
        let mut order: Vec<Vec<usize>> = Vec::new();
        assert(views_of(order@) =~= Seq::<Seq<usize>>::empty());
        self.place(&mut order, file);
    }

    /// Adds `file` behind the sub-files of the file at the place `at`.
    fn add_below_top(&mut self, at: &Vec<usize>, file: MetaFile)
        requires
            node_at(old(self)@.files, at@) is Some,
        ensures
            final(self)@.root == old(self)@.root,
            final(self)@.files == added_below(old(self)@.files, at@, file@),
    {
        let ghost before = files_of(self.files@);
        let index = at[0];
        proof {
            assert(at@.skip(1) =~= at@.drop_first());
            lemma_meta_file_view(self.files@[index as int]);
        }
        self.files[index].add_below(at, 1, file);
        proof {
            let head = before[index as int];
            let below = if at@.len() == 1 {
                head.sub_files.push(file@)
            } else {
                added_below(head.sub_files, at@.drop_first(), file@)
            };
            assert(files_of(self.files@) =~= before.update(
                index as int,
                MetaFileView { sub_files: below, ..head },
            ));
        }
    }
}

/// Where `top_parent` finds a file, it is the first of the top-level files
/// that `file` belongs below.
pub proof fn lemma_top_parent(files: Seq<MetaFileView>, file: MetaFileView, from: int)
    requires
        0 <= from,
        files.len() <= usize::MAX,
    ensures
        match top_parent(files, file, from) {
            Some(top) => {
                &&& from <= top < files.len()
                &&& is_parent(files[top], file)
                &&& forall|k: int| from <= k < top ==> !is_parent(#[trigger] files[k], file)
            },
            None => forall|k: int|
                from <= k < files.len() ==> !is_parent(#[trigger] files[k], file),
        },
    decreases files.len() - from,
{
    if from < files.len() && !is_parent(files[from], file) {
        lemma_top_parent(files, file, from + 1);
    }
}

/// A file whose path names no directory belongs below no top-level file.
proof fn lemma_no_top_parent(files: Seq<MetaFileView>, file: MetaFileView, from: int)
    requires
        file.directory_name() is None,
        0 <= from,
    ensures
        top_parent(files, file, from) is None,
    decreases files.len() - from,
{
    if from < files.len() && from <= usize::MAX {
        lemma_no_top_parent(files, file, from + 1);
    }
}

/// Whether `candidate` lies one level above `depth` and has the stem
/// `directory`.
fn is_parent_of(candidate: &MetaFile, depth: usize, directory: &String) -> (yes: bool)
    requires
        depth > 0,
    ensures
        yes == (candidate@.depth == depth - 1 && candidate@.file_stem() == directory@),
{
    proof {
        lemma_meta_file_view(*candidate);
    }
    if candidate.depth != depth - 1 {
        return false;
    }
    let stem = stem_of_name(candidate);
    str_eq(stem.as_str(), directory.as_str())
}

/// The place, in `files` and below, of the first file that lies one level
/// above `depth` and has the stem `directory`.
fn find_below(
    files: &Vec<MetaFile>,
    depth: usize,
    directory: &String,
    Ghost(file): Ghost<MetaFileView>,
) -> (r: Option<Vec<usize>>)
    requires
        depth > 0,
        file.depth == depth,
        file.directory_name() == Some(directory@),
    ensures
        match parent_below(files_of(files@), file, 0) {
            Some(at) => r matches Some(found) && found@ == at,
            None => r is None,
        },
    decreases files,
{
    let ghost all = files_of(files@);
    let mut i: usize = 0;
    while i < files.len()
        invariant
            i <= files.len(),
            all == files_of(files@),
            depth > 0,
            file.depth == depth,
            file.directory_name() == Some(directory@),
            parent_below(all, file, 0) == parent_below(all, file, i as int),
        decreases files.len() - i,
    {
        proof {
            lemma_meta_file_view(files@[i as int]);
            assert(all[i as int] == files@[i as int]@);
        }
        if is_parent_of(&files[i], depth, directory) {
            let mut at: Vec<usize> = Vec::new();
            at.push(i);
            assert(at@ =~= seq![i]);
            return Some(at);
        }
        match find_below(&files[i].sub_files, depth, directory, Ghost(file)) {
            Some(mut below) => {
                let ghost rest = below@;
                let mut at: Vec<usize> = Vec::new();
                at.push(i);
                at.append(&mut below);
                assert(at@ =~= seq![i] + rest);
                return Some(at);
            },
            None => {},
        }
        i += 1;
    }
    None
}

/// Where `parent_below` finds a place, the place holds a file that `file`
/// belongs below.
pub proof fn lemma_parent_below(files: Seq<MetaFileView>, file: MetaFileView, from: int)
    requires
        0 <= from,
    ensures
        parent_below(files, file, from) matches Some(at) ==> holds_parent(files, at, file),
    decreases files, files.len() - from,
{
    if from < files.len() && from <= usize::MAX && !is_parent(files[from], file) {
        lemma_parent_below(files[from].sub_files, file, 0);
        match parent_below(files[from].sub_files, file, 0) {
            Some(below) => {
                let at = seq![from as usize] + below;
                assert(at.drop_first() =~= below);
                assert(at[0] == from);
            },
            None => {
                lemma_parent_below(files, file, from + 1);
            },
        }
    }
}

/// Where `parent_place` finds a place, the place holds a file that `file`
/// belongs below.
pub proof fn lemma_parent_place(forest: Forest, file: MetaFileView)
    ensures
        parent_place(forest, file) matches Some(at) ==> holds_parent(forest.files, at, file),
{
    lemma_top_parent_found(forest.files, file, 0);
    lemma_parent_from(forest, file, 0);
    lemma_parent_below(forest.files, file, 0);
}

/// Where `top_parent` finds a place, it is a place among the files, and
/// holds a file that `file` belongs below.
proof fn lemma_top_parent_found(files: Seq<MetaFileView>, file: MetaFileView, from: int)
    requires
        0 <= from,
    ensures
        top_parent(files, file, from) matches Some(top) ==> from <= top < files.len() && top
            <= usize::MAX && is_parent(files[top], file),
    decreases files.len() - from,
{
    if from < files.len() && from <= usize::MAX && !is_parent(files[from], file) {
        lemma_top_parent_found(files, file, from + 1);
    }
}

/// Where `parent_from` finds a place, it is a place of the order of
/// placing, and it holds a file that `file` belongs below.
pub proof fn lemma_parent_from(forest: Forest, file: MetaFileView, from: int)
    requires
        0 <= from,
    ensures
        parent_from(forest, file, from) matches Some(found) ==> from <= found
            < forest.order.len() && holds_parent(forest.files, forest.order[found], file),
    decreases forest.order.len() - from,
{
    if from < forest.order.len() && !holds_parent(forest.files, forest.order[from], file) {
        lemma_parent_from(forest, file, from + 1);
    }
}

/// A file whose path names no directory belongs below no file of a
/// forest.
proof fn lemma_no_parent_below(files: Seq<MetaFileView>, file: MetaFileView, from: int)
    requires
        file.directory_name() is None,
        0 <= from,
    ensures
        parent_below(files, file, from) is None,
    decreases files, files.len() - from,
{
    if from < files.len() && from <= usize::MAX {
        lemma_no_parent_below(files[from].sub_files, file, 0);
        lemma_no_parent_below(files, file, from + 1);
    }
}

/// A file whose path names no directory belongs below no file.
proof fn lemma_no_parent(forest: Forest, file: MetaFileView, from: int)
    requires
        file.directory_name() is None,
        0 <= from,
    ensures
        parent_from(forest, file, from) is None,
    decreases forest.order.len() - from,
{
    if from < forest.order.len() {
        lemma_no_parent(forest, file, from + 1);
    }
}

/// The stem of the name of a file, the empty stem where its path is
/// empty.
fn stem_of_name(file: &MetaFile) -> (name: String)
    ensures
        name@ == file@.file_stem(),
{
    proof {
        lemma_meta_file_view(*file);
    }
    if file.path.len() > 0 {
        stem(file.path[file.path.len() - 1].as_str())
    } else {
        proof {
            assert(stem_of(Seq::<char>::empty()) =~= Seq::<char>::empty());
        }
        String::new()
    }
}

/// One place of definition with the file it lies in resolved: the
/// components of the file's path, the start offset, and the definition
/// that is defined there.
pub struct LocatedView {
    pub parts: Seq<Seq<char>>,
    pub start: u64,
    pub definition: DefinitionView,
}

/// A place of definition with its file resolved: the components of the
/// path of the file, the start offset, and the definition that is defined
/// there.
#[derive(Debug, PartialEq, Eq)]
pub struct Located {
    pub parts: Vec<String>,
    pub start: u64,
    pub definition: Definition,
}

impl View for Located {
    type V = LocatedView;

    open spec fn view(&self) -> LocatedView {
        LocatedView {
            parts: views_of(self.parts@),
            start: self.start,
            definition: self.definition@,
        }
    }
}

/// The definitions of one file, each with the start offset of the place
/// where the file defines it, in the order in which they were met.
pub struct GroupView {
    pub path: Seq<Seq<char>>,
    pub entries: Seq<(u64, DefinitionView)>,
}

/// The definitions of one file.
struct Group {
    path: Vec<String>,
    entries: Vec<(u64, Definition)>,
}

impl View for Group {
    type V = GroupView;

    closed spec fn view(&self) -> GroupView {
        GroupView { path: views_of(self.path@), entries: views_of(self.entries@) }
    }
}

/// The places among `defines` where `definition` is defined, files
/// resolved, in order; `None` where the file of one does not resolve.
pub open spec fn located_defines(definition: DefinitionView, defines: Seq<DefineView>) -> Option<
    Seq<LocatedView>,
>
    decreases defines.len(),
{
    if defines.len() == 0 {
        Some(Seq::empty())
    } else {
        match located_defines(definition, defines.drop_last()) {
            None => None,
            Some(done) => match file_parts(defines.last().file) {
                None => None,
                Some(parts) => Some(
                    done.push(LocatedView { parts, start: defines.last().start, definition }),
                ),
            },
        }
    }
}

/// Every place where one of `docs` is defined, files resolved, in the
/// order of `docs` and of the places of each; `None` where the file of
/// one does not resolve.
pub open spec fn located_all(docs: Seq<DefinitionView>) -> Option<Seq<LocatedView>>
    decreases docs.len(),
{
    if docs.len() == 0 {
        Some(Seq::empty())
    } else {
        match located_all(docs.drop_last()) {
            None => None,
            Some(done) => match located_defines(docs.last(), docs.last().defines) {
                None => None,
                Some(more) => Some(done + more),
            },
        }
    }
}

/// The place in `groups`, from `from` on, of the first group of the file
/// at `path`.
pub open spec fn group_from(groups: Seq<GroupView>, path: Seq<Seq<char>>, from: int) -> Option<
    int,
>
    decreases groups.len() - from,
{
    if from < 0 || from >= groups.len() {
        None
    } else if groups[from].path == path {
        Some(from)
    } else {
        group_from(groups, path, from + 1)
    }
}

/// The groups after `entry` is added for the file at `path`: behind the
/// entries of the file's group, or in a new last group where the file has
/// none yet.
pub open spec fn with_entry(
    groups: Seq<GroupView>,
    path: Seq<Seq<char>>,
    entry: (u64, DefinitionView),
) -> Seq<GroupView> {
    match group_from(groups, path, 0) {
        Some(at) => groups.update(
            at,
            GroupView { path, entries: groups[at].entries.push(entry) },
        ),
        None => groups.push(GroupView { path, entries: seq![entry] }),
    }
}

/// The places of definition that lie below `root`, grouped by file: the
/// files in the order in which they are first met, each by its path as
/// seen from `root`, and the entries of each in the order of `places`.
/// Places that do not lie below `root` leave no trace.
///
/// The groups stand in a list that is searched from its start, so that
/// the order of the files is the order of their first places, and does
/// not hang on how a map would hand out its keys.
pub open spec fn grouped(places: Seq<LocatedView>, root: Seq<Seq<char>>) -> Seq<GroupView>
    decreases places.len(),
{
    if places.len() == 0 {
        Seq::empty()
    } else {
        let done = grouped(places.drop_last(), root);
        let place = places.last();
        match relative_to(place.parts, root) {
            Some(path) => with_entry(done, path, (place.start, place.definition)),
            None => done,
        }
    }
}

/// The file of a group: its definitions in the order of their start
/// offsets, its depth by the length of its path, no sub-files.
pub open spec fn meta_of(group: GroupView) -> MetaFileView {
    MetaFileView {
        path: group.path,
        definitions: definitions_in(stable_sorted::<(u64, Definition)>(group.entries)),
        depth: (group.path.len() - 1) as nat,
        sub_files: Seq::empty(),
    }
}

/// The files of a sequence of groups, group by group.
pub open spec fn metas_of(groups: Seq<GroupView>) -> Seq<MetaFileView> {
    Seq::new(groups.len(), |i: int| meta_of(groups[i]))
}

/// The forest after the places of definition `places` are loaded into it:
/// the places below `root` are grouped by file, the files are put in the
/// order of their depths, and by name within one depth, and each is
/// placed in turn.
pub open spec fn loaded(forest: Forest, root: Seq<Seq<char>>, places: Seq<LocatedView>) -> Forest {
    placed_all(forest, stable_sorted::<MetaFile>(metas_of(grouped(places, root))))
}

/// Whether every group has a path with a component.
pub open spec fn groups_named(groups: Seq<GroupView>) -> bool {
    forall|i: int| 0 <= i < groups.len() ==> (#[trigger] groups[i]).path.len() > 0
}

/// Where `group_from` finds a group, it is the first group of the file
/// from `from` on.
pub proof fn lemma_group_from(groups: Seq<GroupView>, path: Seq<Seq<char>>, from: int)
    requires
        0 <= from,
    ensures
        match group_from(groups, path, from) {
            Some(at) => from <= at < groups.len() && groups[at].path == path && forall|k: int|
                from <= k < at ==> (#[trigger] groups[k]).path != path,
            None => forall|k: int| from <= k < groups.len() ==> (#[trigger] groups[k]).path != path,
        },
    decreases groups.len() - from,
{
    if from < groups.len() && groups[from].path != path {
        lemma_group_from(groups, path, from + 1);
    }
}

/// Every group of `grouped` has a path with at least one component.
pub proof fn lemma_grouped_named(places: Seq<LocatedView>, root: Seq<Seq<char>>)
    ensures
        groups_named(grouped(places, root)),
    decreases places.len(),
{
    if places.len() > 0 {
        let done = grouped(places.drop_last(), root);
        lemma_grouped_named(places.drop_last(), root);
        match relative_to(places.last().parts, root) {
            Some(path) => {
                lemma_group_from(done, path, 0);
            },
            None => {},
        }
    }
}

/// Finds the places where `definition` is defined, each with a copy of
/// the definition.
fn locate_defines(definition: &Definition) -> (r: Option<Vec<Located>>)
    ensures
        match located_defines(definition@, definition@.defines) {
            Some(places) => r matches Some(found) && views_of(found@) == places,
            None => r is None,
        },
{
    let ghost defines = definition@.defines;
    let mut out: Vec<Located> = Vec::new();
    let mut i: usize = 0;
    assert(defines.take(0) =~= Seq::<DefineView>::empty());
    assert(views_of(out@) =~= Seq::<LocatedView>::empty());
    while i < definition.defines.len()
        invariant
            i <= definition.defines.len(),
            defines == definition@.defines,
            defines == views_of(definition.defines@),
            located_defines(definition@, defines.take(i as int)) == Some(views_of(out@)),
        decreases definition.defines.len() - i,
    {
        let define = &definition.defines[i];
        proof {
            assert(defines.take(i + 1).drop_last() =~= defines.take(i as int));
            assert(defines.take(i + 1).last() == define@);
        }
        match locate(define.file.as_str()) {
            None => {
                proof {
                    lemma_located_defines_fails_on(definition@, defines, i + 1);
                }
                return None;
            },
            Some(parts) => {
                let ghost before = views_of(out@);
                let place = Located { parts, start: define.start, definition: definition.clone() };
                out.push(place);
                assert(views_of(out@) =~= before.push(place@));
            },
        }
        i += 1;
    }
    assert(defines.take(i as int) =~= defines);
    Some(out)
}

/// Once the places of a prefix of `defines` cannot be resolved, those of
/// all of `defines` cannot.
pub proof fn lemma_located_defines_fails_on(
    definition: DefinitionView,
    defines: Seq<DefineView>,
    n: int,
)
    requires
        0 <= n <= defines.len(),
        located_defines(definition, defines.take(n)) is None,
    ensures
        located_defines(definition, defines) is None,
    decreases defines.len(),
{
    if n == defines.len() {
        assert(defines.take(n) =~= defines);
    } else {
        assert(defines.drop_last().take(n) =~= defines.take(n));
        lemma_located_defines_fails_on(definition, defines.drop_last(), n);
    }
}

/// Once the places of a prefix of `docs` cannot be resolved, those of all
/// of `docs` cannot.
pub proof fn lemma_located_all_fails_on(docs: Seq<DefinitionView>, n: int)
    requires
        0 <= n <= docs.len(),
        located_all(docs.take(n)) is None,
    ensures
        located_all(docs) is None,
    decreases docs.len(),
{
    if n == docs.len() {
        assert(docs.take(n) =~= docs);
    } else {
        assert(docs.drop_last().take(n) =~= docs.take(n));
        lemma_located_all_fails_on(docs.drop_last(), n);
    }
}

/// Finds every place where one of `docs` is defined.
fn locate_all(docs: &Vec<Definition>) -> (r: Option<Vec<Located>>)
    ensures
        match located_all(views_of(docs@)) {
            Some(places) => r matches Some(found) && views_of(found@) == places,
            None => r is None,
        },
{
    let ghost all = views_of(docs@);
    let mut out: Vec<Located> = Vec::new();
    let mut i: usize = 0;
    assert(all.take(0) =~= Seq::<DefinitionView>::empty());
    assert(views_of(out@) =~= Seq::<LocatedView>::empty());
    while i < docs.len()
        invariant
            i <= docs.len(),
            all == views_of(docs@),
            located_all(all.take(i as int)) == Some(views_of(out@)),
        decreases docs.len() - i,
    {
        proof {
            assert(all.take(i + 1).drop_last() =~= all.take(i as int));
            assert(all.take(i + 1).last() == docs@[i as int]@);
        }
        match locate_defines(&docs[i]) {
            None => {
                proof {
                    lemma_located_all_fails_on(all, i + 1);
                }
                return None;
            },
            Some(mut more) => {
                let ghost before = views_of(out@);
                let ghost added = views_of(more@);
                out.append(&mut more);
                assert(views_of(out@) =~= before + added);
            },
        }
        i += 1;
    }
    assert(all.take(i as int) =~= all);
    Some(out)
}

/// Adds an entry for the file at `path` to the groups.
fn add_entry(groups: &mut Vec<Group>, path: Vec<String>, entry: (u64, Definition))
    ensures
        views_of(final(groups)@) == with_entry(views_of(old(groups)@), views_of(path@), entry@),
{
    let ghost before = views_of(groups@);
    let mut i: usize = 0;
    while i < groups.len()
        invariant
            i <= groups.len(),
            before == views_of(groups@),
            *groups == *old(groups),
            group_from(before, views_of(path@), 0) == group_from(before, views_of(path@), i as int),
        decreases groups.len() - i,
    {
        if same_path(&groups[i].path, &path) {
            let ghost entries = views_of(groups@[i as int].entries@);
            groups[i].entries.push(entry);
            assert(views_of(groups@[i as int].entries@) =~= entries.push(entry@));
            assert(views_of(groups@) =~= before.update(
                i as int,
                GroupView { path: views_of(path@), entries: entries.push(entry@) },
            ));
            return;
        }
        i += 1;
    }
    let mut entries: Vec<(u64, Definition)> = Vec::new();
    entries.push(entry);
    assert(views_of(entries@) =~= seq![entry@]);
    let group = Group { path, entries };
    groups.push(group);
    assert(views_of(groups@) =~= before.push(group@));
}

/// Groups the places that lie below `root` by file.
fn group_places(places: Vec<Located>, root: &Vec<String>) -> (groups: Vec<Group>)
    ensures
        views_of(groups@) == grouped(views_of(places@), views_of(root@)),
{
    let ghost all = views_of(places@);
    let mut groups: Vec<Group> = Vec::new();
    assert(all.take(0) =~= Seq::<LocatedView>::empty());
    assert(views_of(groups@) =~= Seq::<GroupView>::empty());
    for place in it: places
        invariant
            it.seq() == places@,
            all == views_of(places@),
            views_of(groups@) == grouped(all.take(it.index() as int), views_of(root@)),
    {
        proof {
            assert(all.take(it.index() + 1).drop_last() =~= all.take(it.index() as int));
            assert(all.take(it.index() + 1).last() == place@);
        }
        match strip_root(&place.parts, root) {
            Some(path) => {
                add_entry(&mut groups, path, (place.start, place.definition));
            },
            None => {},
        }
    }
    assert(all.take(places@.len() as int) =~= all);
    groups
}

/// Makes the file of each group.
fn files_of_groups(groups: Vec<Group>) -> (files: Vec<MetaFile>)
    requires
        groups_named(views_of(groups@)),
    ensures
        files_of(files@) == metas_of(views_of(groups@)),
{
    let ghost all = views_of(groups@);
    let mut files: Vec<MetaFile> = Vec::new();
    for group in it: groups
        invariant
            it.seq() == groups@,
            all == views_of(groups@),
            groups_named(all),
            files@.len() == it.index(),
            forall|k: int| 0 <= k < it.index() ==> (#[trigger] files@[k])@ == meta_of(all[k]),
    {
        assert(all[it.index() as int] == group@);
        let file = MetaFile::from((group.path, group.entries));
        files.push(file);
    }
    assert(files_of(files@) =~= metas_of(all));
    files
}

impl Workspace {
    /// Load the workspace from the given doc definitions.
    ///
    /// Every place of definition is resolved to a file. Where one names
    /// its file by a URI that gives no file path, nothing is loaded and
    /// the outcome is `Error::InvalidLocation`. Else the files below the
    /// root are placed in the workspace, parents before their children
    /// and the files of one depth in the order of their names.
    pub fn load(&mut self, docs: Vec<Definition>) -> (r: Result<(), Error>)
        ensures
            match located_all(views_of(docs@)) {
                Some(places) => r is Ok && final(self)@ == (WorkspaceView {
                    root: old(self)@.root,
                    files: loaded(
                        unplaced(old(self)@.files),
                        path_parts(old(self)@.root),
                        places,
                    ).files,
                }),
                None => r matches Err(Error::InvalidLocation) && final(self)@ == old(self)@,
            },
    {
        // Index definitions by their file in the order they were defined
        let places = match locate_all(&docs) {
            Some(places) => places,
            None => {
                return Err(Error::InvalidLocation);
            },
        };
        let root = components_of(self.root.as_str());
        self.place_located(&root, places);
        Ok(())
    }

    /// Places the files of resolved places of definition in the
    /// workspace: the places that lie below the path with the components
    /// `root` are grouped by file, in the order in which the files are
    /// first met; the files are put in the order of their depths, and by
    /// name within one depth; and each is placed in turn. A file goes
    /// below the first top-level file that it belongs below; where there
    /// is none, below the first such file among those that this call
    /// placed before it, in the order of their placing; and where there
    /// is none again, below the first such file among all others, gone
    /// through from the top down.
    pub fn place_located(&mut self, root: &Vec<String>, places: Vec<Located>)
        ensures
            final(self)@ == (WorkspaceView {
                root: old(self)@.root,
                files: loaded(
                    unplaced(old(self)@.files),
                    views_of(root@),
                    views_of(places@),
                ).files,
            }),
    {
        let groups = group_places(places, root);
        proof {
            lemma_grouped_named(views_of(places@), views_of(root@));
        }
        let meta_files = stable_sort(files_of_groups(groups));
        let ghost sorted = files_of(meta_files@);
        let ghost start = unplaced(self@.files);
        let mut order: Vec<Vec<usize>> = Vec::new();
        assert(sorted.take(0) =~= Seq::<MetaFileView>::empty());
        assert(files_of(meta_files@) =~= views_of(meta_files@));
        assert(views_of(order@) =~= Seq::<Seq<usize>>::empty());
        for file in it: meta_files
            invariant
                it.seq() == meta_files@,
                sorted == files_of(meta_files@),
                self@.root == old(self)@.root,
                self.forest(views_of(order@)) == placed_all(
                    start,
                    sorted.take(it.index() as int),
                ),
        {
            proof {
                assert(sorted.take(it.index() + 1).drop_last() =~= sorted.take(it.index() as int));
                assert(sorted.take(it.index() + 1).last() == file@);
            }
            self.place(&mut order, file);
        }
        assert(sorted.take(meta_files@.len() as int) =~= sorted);
    }
}

} // verus!
