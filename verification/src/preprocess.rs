//! The mdbook preprocessor: its configuration, and the chapters it adds
//! to a book.

use vstd::prelude::*;
use vstd::string::*;
use crate::lua_cats::{opt_text, views_of};
use crate::paths::{stem, stem_of};
use crate::print::{MarkdownOptions, MarkdownPrinter, joined, rendered_each};
use crate::text::str_eq;
use crate::workspace::{MetaFile, MetaFileView, Workspace, files_of, lemma_meta_file_view};

verus! {

/// `toml::map::Map`, of which a TOML table is one: a value of it is
/// carried through, and read only by `table_get`.
#[verifier::external_type_specification]
#[verifier::external_body]
#[verifier::reject_recursive_types(K)]
#[verifier::reject_recursive_types(V)]
pub struct ExTomlMap<K, V>(toml::map::Map<K, V>);

/// `toml::Value`: a value of it is carried through, and read only by
/// `value_as_str` and `value_as_integer`.
#[verifier::external_type_specification]
#[verifier::external_body]
pub struct ExTomlValue(toml::Value);

/// The members that a TOML table holds, by their keys.
pub uninterp spec fn table_members(table: toml::value::Table) -> Map<Seq<char>, toml::Value>;

/// The text of a TOML value that is a string; `None` for any other value.
pub uninterp spec fn toml_text(value: toml::Value) -> Option<Seq<char>>;

/// The number of a TOML value that is an integer; `None` for any other
/// value.
pub uninterp spec fn toml_integer(value: toml::Value) -> Option<i64>;

/// `toml::map::Map::get`: the member that the table holds for `key`, and
/// none where it holds none.
#[verifier::external_body]
fn table_get<'a>(table: &'a toml::value::Table, key: &str) -> (r: Option<&'a toml::Value>)
    ensures
        r is Some <==> table_members(*table).contains_key(key@),
        r matches Some(value) ==> table_members(*table)[key@] == *value,
{
    table.get(key)
}

/// `toml::Value::as_str`: the text of a value that is a string.
#[verifier::external_body]
fn value_as_str<'a>(value: &'a toml::Value) -> (r: Option<&'a str>)
    ensures
        r is Some <==> toml_text(*value) is Some,
        r matches Some(text) ==> toml_text(*value) == Some(text@),
{
    value.as_str()
}

/// `toml::Value::as_integer`: the number of a value that is an integer.
#[verifier::external_body]
fn value_as_integer(value: &toml::Value) -> (r: Option<i64>)
    ensures
        r == toml_integer(*value),
{
    value.as_integer()
}

/// The text that the table holds for `key`, where it holds a string.
pub open spec fn text_setting(table: toml::value::Table, key: Seq<char>) -> Option<Seq<char>> {
    if table_members(table).contains_key(key) {
        toml_text(table_members(table)[key])
    } else {
        None
    }
}

/// The number that the table holds for `key`, where it holds an integer.
pub open spec fn integer_setting(table: toml::value::Table, key: Seq<char>) -> Option<i64> {
    if table_members(table).contains_key(key) {
        toml_integer(table_members(table)[key])
    } else {
        None
    }
}

/// Whether the table's `nav-depth`, where it has one, fits a `u8`.
pub open spec fn nav_depth_fits(table: Option<&toml::value::Table>) -> bool {
    match table {
        Some(table) => match integer_setting(*table, "nav-depth"@) {
            Some(depth) => 0 <= depth <= u8::MAX,
            None => true,
        },
        None => true,
    }
}

/// The configuration that a table of settings spells; all unset where
/// there is no table.
pub open spec fn config_of(table: Option<&toml::value::Table>) -> ConfigView {
    match table {
        Some(table) => ConfigView {
            definitions_path: text_setting(*table, "definitions-path"@),
            part_title: text_setting(*table, "part-title"@),
            nav_depth: match integer_setting(*table, "nav-depth"@) {
                Some(depth) => Some(depth as u8),
                None => None,
            },
        },
        None => ConfigView { definitions_path: None, part_title: None, nav_depth: None },
    }
}

/// A `Config` as a mathematical value.
pub struct ConfigView {
    pub definitions_path: Option<Seq<char>>,
    pub part_title: Option<Seq<char>>,
    pub nav_depth: Option<u8>,
}

/// Configuration for the preprocessor.
#[derive(Debug, PartialEq, Eq)]
pub struct Config {
    pub definitions_path: Option<String>,
    pub part_title: Option<String>,
    pub nav_depth: Option<u8>,
}

impl View for Config {
    type V = ConfigView;

    open spec fn view(&self) -> ConfigView {
        ConfigView {
            definitions_path: opt_text(self.definitions_path),
            part_title: opt_text(self.part_title),
            nav_depth: self.nav_depth,
        }
    }
}

impl Default for Config {
    fn default() -> (config: Self)
        ensures
            config@ == (ConfigView { definitions_path: None, part_title: None, nav_depth: None }),
    {
        Config { definitions_path: None, part_title: None, nav_depth: None }
    }
}

/// Reads the text that the table holds for `key`.
fn text_of(table: &toml::value::Table, key: &str) -> (r: Option<String>)
    ensures
        opt_text(r) == text_setting(*table, key@),
{
    match table_get(table, key) {
        Some(value) => match value_as_str(value) {
            Some(text) => Some(text.to_owned()),
            None => None,
        },
        None => None,
    }
}

/// Reads the number that the table holds for `key`.
fn integer_of(table: &toml::value::Table, key: &str) -> (r: Option<i64>)
    ensures
        r == integer_setting(*table, key@),
{
    match table_get(table, key) {
        Some(value) => value_as_integer(value),
        None => None,
    }
}

impl Config {
    /// The directory of the definitions where the configuration names
    /// none.
    pub open spec fn default_definitions_path() -> Seq<char> {
        "library"@
    }

    /// The title of the part where the configuration names none.
    pub open spec fn default_part_title() -> Seq<char> {
        "API Reference"@
    }

    /// Reads the configuration from the preprocessor's table of settings:
    /// `definitions-path` and `part-title` where they are strings,
    /// `nav-depth` where it is an integer.
    pub fn from(table: Option<&toml::value::Table>) -> (config: Config)
        requires
            nav_depth_fits(table),
        ensures
            config@ == config_of(table),
    {
        let mut config = Config::default();
        if let Some(table) = table {
            config.definitions_path = text_of(table, "definitions-path");
            config.part_title = text_of(table, "part-title");
            config.nav_depth = match integer_of(table, "nav-depth") {
                Some(depth) => Some(depth as u8),
                None => None,
            };
        }
        config
    }

    /// Reads the configuration as `from` does; `None` where `nav-depth`
    /// is an integer that does not fit a `u8`.
    pub fn try_from(table: Option<&toml::value::Table>) -> (r: Option<Config>)
        ensures
            match r {
                Some(config) => nav_depth_fits(table) && config@ == config_of(table),
                None => !nav_depth_fits(table),
            },
    {
        if let Some(settings) = table {
            if let Some(depth) = integer_of(settings, "nav-depth") {
                if depth < 0 || depth > 255 {
                    return None;
                }
            }
        }
        Some(Config::from(table))
    }

    /// The directory of the definitions: `library` where none is set.
    pub fn definitions_path_or_default(&self) -> (path: String)
        ensures
            path@ == match self@.definitions_path {
                Some(set) => set,
                None => Config::default_definitions_path(),
            },
    {
        match &self.definitions_path {
            Some(set) => set.clone(),
            None => "library".to_owned(),
        }
    }

    /// The title of the part that holds the chapters: `API Reference`
    /// where none is set.
    pub fn part_title_or_default(&self) -> (title: String)
        ensures
            title@ == match self@.part_title {
                Some(set) => set,
                None => Config::default_part_title(),
            },
    {
        match &self.part_title {
            Some(set) => set.clone(),
            None => "API Reference".to_owned(),
        }
    }
}

/// A mdbook preprocessor that generates LuaCATS API docs.
#[derive(Clone, Copy, Debug, PartialEq, Eq, Structural)]
pub struct LuaCats;

impl Default for LuaCats {
    fn default() -> (preprocessor: Self)
        ensures
            preprocessor == LuaCats,
    {
        Self
    }
}

impl LuaCats {
    /// The preprocessor: there is one, and it holds no state.
    pub fn new() -> (preprocessor: Self)
        ensures
            preprocessor == LuaCats,
    {
        Self
    }

    /// The name under which a book configures the preprocessor.
    pub fn name(&self) -> (name: &'static str)
        ensures
            name@ == "luacats-preprocessor"@,
    {
        "luacats-preprocessor"
    }

    /// Whether the preprocessor serves a renderer: it serves `html` and
    /// `epub`.
    pub fn supports_renderer(&self, renderer: &str) -> (yes: bool)
        ensures
            yes == (renderer@ == "html"@ || renderer@ == "epub"@),
    {
        str_eq(renderer, "html") || str_eq(renderer, "epub")
    }
}

/// A `Chapter` as a mathematical value.
pub struct ChapterView {
    pub name: Seq<char>,
    pub content: Seq<char>,
    pub number: Seq<u32>,
    pub sub_items: Seq<ChapterView>,
    pub path: Seq<Seq<char>>,
    pub parent_names: Seq<Seq<char>>,
}

/// A chapter of the book, with the chapters below it.
#[derive(Debug, PartialEq, Eq)]
pub struct Chapter {
    /// The chapter's name.
    pub name: String,
    /// The chapter's Markdown.
    pub content: String,
    /// The chapter's section number: the place of each of its ancestors
    /// among their siblings, and its own, each counted from one.
    pub number: Vec<u32>,
    /// The chapters below this one.
    pub sub_items: Vec<Chapter>,
    /// The path of the chapter's file in the book, component by
    /// component.
    pub path: Vec<String>,
    /// The names of the chapter's ancestors, the outermost first.
    pub parent_names: Vec<String>,
}

/// The views of a sequence of chapters, chapter by chapter.
pub open spec fn chapters_of(chapters: Seq<Chapter>) -> Seq<ChapterView> {
    Seq::new(chapters.len(), |i: int| chapters[i]@)
}

impl Chapter {
    /// The chapter as a mathematical value, the chapters below with it.
    pub open spec fn model(self) -> ChapterView
        decreases self,
    {
        ChapterView {
            name: self.name@,
            content: self.content@,
            number: self.number@,
            sub_items: Seq::new(
                self.sub_items@.len(),
                |i: int|
                    if 0 <= i < self.sub_items@.len() {
                        self.sub_items@[i].model()
                    } else {
                        arbitrary()
                    },
            ),
            path: views_of(self.path@),
            parent_names: views_of(self.parent_names@),
        }
    }
}

impl View for Chapter {
    type V = ChapterView;

    open spec fn view(&self) -> ChapterView {
        self.model()
    }
}

/// The chapters below a chapter's view are the views of the chapters
/// below it.
pub proof fn lemma_chapter_view(chapter: Chapter)
    ensures
        chapter@.sub_items == chapters_of(chapter.sub_items@),
        chapter@.name == chapter.name@,
        chapter@.content == chapter.content@,
        chapter@.number == chapter.number@,
        chapter@.path == views_of(chapter.path@),
        chapter@.parent_names == views_of(chapter.parent_names@),
{
    assert(chapter@.sub_items =~= chapters_of(chapter.sub_items@));
}

/// The path of the Markdown file of the chapter for the file at `path`:
/// the same path, the file's extension replaced by `md`.
pub open spec fn md_path(path: Seq<Seq<char>>) -> Seq<Seq<char>> {
    if path.len() == 0 {
        path
    } else {
        path.drop_last().push(stem_of(path.last()) + ".md"@)
    }
}

/// The section number of the chapter at place `index` among its siblings,
/// below a chapter numbered `above`.
pub open spec fn numbered(above: Seq<u32>, index: nat) -> Seq<u32> {
    above.push((index + 1) as u32)
}

/// The chapter of a file: named by the file's stem, holding the Markdown
/// of the file's definitions, numbered by its place `index` below the
/// number `above`, with one chapter below it for each sub-file.
pub open spec fn chapter_of(
    file: MetaFileView,
    index: nat,
    above: Seq<u32>,
    parent_names: Seq<Seq<char>>,
) -> ChapterView
    decreases file,
{
    ChapterView {
        name: file.file_stem(),
        content: joined(
            rendered_each(MarkdownOptions { heading_level: None }.level(), file.definitions),
            "\n"@,
        ),
        number: numbered(above, index),
        sub_items: Seq::new(
            file.sub_files.len(),
            |i: int|
                if 0 <= i < file.sub_files.len() {
                    chapter_of(
                        file.sub_files[i],
                        i as nat,
                        numbered(above, index),
                        parent_names.push(file.file_stem()),
                    )
                } else {
                    arbitrary()
                },
        ),
        path: md_path(file.path),
        parent_names,
    }
}

/// Whether a chapter can be made of the file and of each file below it:
/// each has a path that names it, and no more sub-files than a section
/// number can count.
pub open spec fn chapterable(file: MetaFileView) -> bool
    decreases file,
{
    &&& file.path.len() > 0
    &&& file.sub_files.len() <= u32::MAX
    &&& forall|i: int| 0 <= i < file.sub_files.len() ==> chapterable(#[trigger] file.sub_files[i])
}

/// The section number of the chapter above: none where there is no such
/// chapter.
pub open spec fn number_above(parent: Option<&Chapter>) -> Seq<u32> {
    match parent {
        Some(parent) => parent@.number,
        None => Seq::empty(),
    }
}

/// The names of the chapters above, the outermost first.
pub open spec fn names_above(parent: Option<&Chapter>) -> Seq<Seq<char>> {
    match parent {
        Some(parent) => parent@.parent_names.push(parent@.name),
        None => Seq::empty(),
    }
}

/// The path of the Markdown file of the chapter for the file at `path`.
fn md_path_of(path: &Vec<String>) -> (out: Vec<String>)
    ensures
        views_of(out@) == md_path(views_of(path@)),
{
    let mut out = path.clone();
    assert(views_of(out@) =~= views_of(path@));
    match out.pop() {
        None => {
            assert(views_of(out@) =~= views_of(path@));
        },
        Some(name) => {
            let ghost rest = views_of(out@);
            assert(rest =~= views_of(path@).drop_last());
            let mut renamed = stem(name.as_str());
            renamed.append(".md");
            out.push(renamed);
            assert(views_of(out@) =~= rest.push(renamed@));
        },
    }
    out
}

/// Makes the chapter of a file, with a chapter below it for each
/// sub-file. `index` is the place of the file among its siblings, and
/// `parent` the chapter above. Never fails.
pub fn build_chapter(file: &MetaFile, index: usize, parent: Option<&Chapter>) -> (r: Result<
    Chapter,
    std::fmt::Error,
>)
    requires
        chapterable(file@),
        index < u32::MAX,
    ensures
        r matches Ok(chapter) && chapter@ == chapter_of(
            file@,
            index as nat,
            number_above(parent),
            names_above(parent),
        ),
    decreases file,
{
    proof {
        lemma_meta_file_view(*file);
    }
    let name = file.file_stem();
    let content = MarkdownPrinter::new(MarkdownOptions::default()).print(
        file.definitions.as_slice(),
    )?;
    let md_path = md_path_of(&file.path);
    let number = match parent {
        Some(parent) => {
            proof {
                lemma_chapter_view(*parent);
            }
            let mut number = parent.number.clone();
            number.push(index as u32 + 1);
            number
        },
        None => {
            let mut number: Vec<u32> = Vec::new();
            number.push(index as u32 + 1);
            number
        },
    };
    assert(number@ =~= numbered(number_above(parent), index as nat));
    let parent_names = match parent {
        Some(parent) => {
            proof {
                lemma_chapter_view(*parent);
            }
            let mut names = parent.parent_names.clone();
            assert(views_of(names@) =~= views_of(parent.parent_names@));
            names.push(parent.name.clone());
            assert(views_of(names@) =~= views_of(parent.parent_names@).push(parent.name@));
            names
        },
        None => {
            let names: Vec<String> = Vec::new();
            assert(views_of(names@) =~= Seq::<Seq<char>>::empty());
            names
        },
    };
    let mut chapter = Chapter {
        name,
        content,
        number,
        sub_items: Vec::new(),
        path: md_path,
        parent_names,
    };
    proof {
        lemma_chapter_view(chapter);
    }
    let ghost expected = chapter_of(
        file@,
        index as nat,
        number_above(parent),
        names_above(parent),
    );
    let mut sub_items: Vec<Chapter> = Vec::new();
    let mut i: usize = 0;
    while i < file.sub_files.len()
        invariant
            i <= file.sub_files.len(),
            chapterable(file@),
            file@.sub_files == files_of(file.sub_files@),
            chapter@.number == numbered(number_above(parent), index as nat),
            chapter@.parent_names == names_above(parent),
            chapter@.name == file@.file_stem(),
            expected == chapter_of(file@, index as nat, number_above(parent), names_above(parent)),
            sub_items@.len() == i,
            forall|k: int| 0 <= k < i ==> (#[trigger] sub_items@[k])@ == expected.sub_items[k],
        decreases file.sub_files.len() - i,
    {
        assert(file@.sub_files[i as int] == file.sub_files@[i as int]@);
        assert(chapterable(file@.sub_files[i as int]));
        let sub_item = build_chapter(&file.sub_files[i], i, Some(&chapter))?;
        sub_items.push(sub_item);
        i += 1;
    }
    chapter.sub_items = sub_items;
    proof {
        lemma_chapter_view(chapter);
        assert(chapter@.sub_items =~= expected.sub_items);
    }
    Ok(chapter)
}

/// Whether a chapter can be made of the file and of each file below it.
pub fn is_chapterable(file: &MetaFile) -> (yes: bool)
    ensures
        yes == chapterable(file@),
    decreases file,
{
    proof {
        lemma_meta_file_view(*file);
    }
    if file.path.len() == 0 || file.sub_files.len() > u32::MAX as usize {
        return false;
    }
    let mut i: usize = 0;
    while i < file.sub_files.len()
        invariant
            i <= file.sub_files.len(),
            file@.sub_files == files_of(file.sub_files@),
            forall|k: int| 0 <= k < i ==> chapterable(#[trigger] file@.sub_files[k]),
        decreases file.sub_files.len() - i,
    {
        assert(file@.sub_files[i as int] == file.sub_files@[i as int]@);
        if !is_chapterable(&file.sub_files[i]) {
            return false;
        }
        i += 1;
    }
    true
}

/// The chapters of the top-level files, chapter `i` for file `i`.
pub open spec fn book_chapters_of(files: Seq<MetaFileView>) -> Seq<ChapterView> {
    Seq::new(
        files.len(),
        |i: int| chapter_of(files[i], i as nat, Seq::empty(), Seq::empty()),
    )
}

/// Whether a chapter can be made of each of the files, and they are no
/// more than a section number can count.
pub open spec fn all_chapterable(files: Seq<MetaFileView>) -> bool {
    &&& files.len() <= u32::MAX
    &&& forall|i: int| 0 <= i < files.len() ==> chapterable(#[trigger] files[i])
}

/// Makes the chapters that the preprocessor adds to a book: one for each
/// top-level file of the workspace, numbered from one. Never fails.
pub fn book_chapters(workspace: &Workspace) -> (r: Result<Vec<Chapter>, std::fmt::Error>)
    requires
        all_chapterable(workspace@.files),
    ensures
        r matches Ok(chapters) && chapters_of(chapters@) == book_chapters_of(workspace@.files),
{
    let mut chapters: Vec<Chapter> = Vec::new();
    let mut i: usize = 0;
    while i < workspace.files.len()
        invariant
            i <= workspace.files.len(),
            all_chapterable(workspace@.files),
            chapters@.len() == i,
            forall|k: int|
                0 <= k < i ==> (#[trigger] chapters@[k])@ == chapter_of(
                    workspace@.files[k],
                    k as nat,
                    Seq::empty(),
                    Seq::empty(),
                ),
        decreases workspace.files.len() - i,
    {
        assert(workspace@.files[i as int] == workspace.files@[i as int]@);
        let chapter = build_chapter(&workspace.files[i], i, None)?;
        chapters.push(chapter);
        i += 1;
    }
    assert(chapters_of(chapters@) =~= book_chapters_of(workspace@.files));
    Ok(chapters)
}

} // verus!
