use mdbook_luacats::lua_cats::{Define, Definition, DefinitionType, Extend};
use mdbook_luacats::preprocess::{
    book_chapters, build_chapter, is_chapterable, Chapter, Config, LuaCats,
};
use mdbook_luacats::workspace::{MetaFile, Workspace};

fn table(text: &str) -> toml::value::Table {
    match text.parse::<toml::Value>().unwrap() {
        toml::Value::Table(table) => table,
        _ => unreachable!(),
    }
}

#[test]
fn the_configuration_is_read_from_a_table() {
    let settings = table(
        "definitions-path = \"defs\"\npart-title = \"Lua API\"\nnav-depth = 3\ncommand = \"x\"",
    );
    let config = Config::from(Some(&settings));
    assert_eq!(
        config,
        Config {
            definitions_path: Some("defs".into()),
            part_title: Some("Lua API".into()),
            nav_depth: Some(3),
        }
    );
    assert_eq!(Config::try_from(Some(&settings)), Some(config));
}

#[test]
fn settings_of_the_wrong_type_are_unset() {
    let settings = table("definitions-path = 3\npart-title = [\"x\"]\nnav-depth = \"3\"");
    let unset = Config { definitions_path: None, part_title: None, nav_depth: None };
    assert_eq!(Config::from(Some(&settings)), unset);
    assert_eq!(Config::from(Some(&table(""))), unset);
    assert_eq!(Config::from(None), unset);
    assert_eq!(Config::try_from(None), Some(Config::default()));
    assert_eq!(Config::default(), unset);
}

#[test]
fn a_nav_depth_that_does_not_fit_is_refused() {
    assert_eq!(Config::try_from(Some(&table("nav-depth = 256"))), None);
    assert_eq!(Config::try_from(Some(&table("nav-depth = -1"))), None);
    assert_eq!(Config::try_from(Some(&table("nav-depth = 255"))).unwrap().nav_depth, Some(255));
    assert_eq!(Config::try_from(Some(&table("nav-depth = 0"))).unwrap().nav_depth, Some(0));
}

#[test]
fn unset_settings_have_defaults() {
    let unset = Config::default();
    assert_eq!(unset.definitions_path_or_default(), "library");
    assert_eq!(unset.part_title_or_default(), "API Reference");
    let set = Config::from(Some(&table("definitions-path = \"defs\"\npart-title = \"Lua\"")));
    assert_eq!(set.definitions_path_or_default(), "defs");
    assert_eq!(set.part_title_or_default(), "Lua");
}

#[test]
fn the_preprocessor_serves_html_and_epub() {
    let preprocessor = LuaCats::new();
    assert_eq!(preprocessor, LuaCats::default());
    assert_eq!(preprocessor.name(), "luacats-preprocessor");
    assert!(preprocessor.supports_renderer("html"));
    assert!(preprocessor.supports_renderer("epub"));
    assert!(!preprocessor.supports_renderer("pdf"));
    assert!(!preprocessor.supports_renderer("HTML"));
    assert!(!preprocessor.supports_renderer(""));
}

fn definition(name: &str, file: &str) -> Definition {
    Definition {
        desc: Some(format!("About {}", name)),
        rawdesc: None,
        name: name.into(),
        lua_type: DefinitionType::Function,
        defines: vec![Define {
            start: 0,
            finish: 10,
            lua_type: DefinitionType::SetGlobal,
            file: file.into(),
            extends: vec![Extend {
                start: 0,
                finish: 10,
                lua_type: DefinitionType::Function,
                view: format!("function {}()", name),
                desc: None,
                rawdesc: None,
                args: Vec::new(),
                returns: Vec::new(),
            }],
        }],
        fields: Vec::new(),
    }
}

fn path(parts: &[&str]) -> Vec<String> {
    parts.iter().map(|part| part.to_string()).collect()
}

fn loaded() -> Workspace {
    let mut ws = Workspace::new("/root");
    ws.load(vec![
        definition("note_on", "file:///root/renoise/midi.lua"),
        definition("band", "file:///root/bit.lua"),
        definition("song", "file:///root/renoise.lua"),
        definition("bor", "file:///root/bit.lua"),
        definition("osc", "file:///root/renoise/osc.client.lua"),
    ]).unwrap();
    ws
}

#[test]
fn the_book_gets_a_chapter_for_every_file() {
    let chapters = book_chapters(&loaded()).unwrap();
    assert_eq!(chapters.len(), 2);

    let bit = &chapters[0];
    assert_eq!(bit.name, "bit");
    assert_eq!(bit.number, vec![1]);
    assert_eq!(bit.path, path(&["bit.md"]));
    assert!(bit.parent_names.is_empty());
    assert!(bit.sub_items.is_empty());
    assert_eq!(
        bit.content,
        "## band\n\nAbout band\n\n```lua\nfunction band()\n```\n\n\n\
         ## bor\n\nAbout bor\n\n```lua\nfunction bor()\n```\n\n"
    );

    let renoise = &chapters[1];
    assert_eq!(renoise.name, "renoise");
    assert_eq!(renoise.number, vec![2]);
    assert_eq!(renoise.path, path(&["renoise.md"]));
    assert_eq!(renoise.sub_items.len(), 2);

    let midi = &renoise.sub_items[0];
    assert_eq!(midi.name, "midi");
    assert_eq!(midi.number, vec![2, 1]);
    assert_eq!(midi.path, path(&["renoise", "midi.md"]));
    assert_eq!(midi.parent_names, vec!["renoise"]);
    assert_eq!(midi.content, "## note_on\n\nAbout note_on\n\n```lua\nfunction note_on()\n```\n\n");

    let osc = &renoise.sub_items[1];
    assert_eq!(osc.name, "osc.client");
    assert_eq!(osc.number, vec![2, 2]);
    assert_eq!(osc.path, path(&["renoise", "osc.client.md"]));
}

#[test]
fn a_chapter_is_numbered_below_its_parent() {
    let parent = Chapter {
        name: "parent".into(),
        content: String::new(),
        number: vec![4, 2],
        sub_items: Vec::new(),
        path: path(&["x", "parent.md"]),
        parent_names: vec!["x".into()],
    };
    let mut file = MetaFile::from((path(&["x", "parent", "noext"]), Vec::new()));
    file.add_sub_file(MetaFile::from((path(&["x", "parent", "noext", ".hidden"]), Vec::new())));
    let chapter = build_chapter(&file, 6, Some(&parent)).unwrap();
    assert_eq!(chapter.name, "noext");
    assert_eq!(chapter.content, "");
    assert_eq!(chapter.number, vec![4, 2, 7]);
    assert_eq!(chapter.path, path(&["x", "parent", "noext.md"]));
    assert_eq!(chapter.parent_names, vec!["x", "parent"]);
    let below = &chapter.sub_items[0];
    assert_eq!(below.name, ".hidden");
    assert_eq!(below.number, vec![4, 2, 7, 1]);
    assert_eq!(below.path, path(&["x", "parent", "noext", ".hidden.md"]));
    assert_eq!(below.parent_names, vec!["x", "parent", "noext"]);

    let alone = build_chapter(&file, 0, None).unwrap();
    assert_eq!(alone.number, vec![1]);
    assert!(alone.parent_names.is_empty());
    assert_eq!(alone.sub_items[0].number, vec![1, 1]);
    assert_eq!(alone.sub_items[0].parent_names, vec!["noext"]);
}

#[test]
fn a_file_without_a_path_gets_no_chapter() {
    assert!(!is_chapterable(&MetaFile::new()));
    let mut file = MetaFile::from((path(&["a.lua"]), Vec::new()));
    assert!(is_chapterable(&file));
    file.add_sub_file(MetaFile::new());
    assert!(!is_chapterable(&file));
}
