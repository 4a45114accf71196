use mdbook_luacats::error::Error;
use mdbook_luacats::lua_cats::{Define, Definition, DefinitionType};
use mdbook_luacats::workspace::{Located, MetaFile, Workspace};

fn define(file: &str, start: u64) -> Define {
    Define {
        start,
        finish: start + 10,
        lua_type: DefinitionType::Nil,
        file: file.into(),
        extends: Vec::new(),
    }
}

fn named_definition(name: &str, defines: Vec<Define>) -> Definition {
    Definition {
        desc: None,
        rawdesc: None,
        name: name.into(),
        lua_type: DefinitionType::Nil,
        fields: Vec::new(),
        defines,
    }
}

fn test_definition(file: &str) -> Definition {
    Definition {
        desc: None,
        rawdesc: None,
        name: "test".into(),
        lua_type: DefinitionType::Nil,
        fields: Vec::new(),
        defines: vec![Define {
            start: 0,
            finish: 10,
            lua_type: DefinitionType::Nil,
            file: file.into(),
            extends: Vec::new(),
        }],
    }
}

fn path(parts: &[&str]) -> Vec<String> {
    parts.iter().map(|part| part.to_string()).collect()
}

fn names(files: &[MetaFile]) -> Vec<String> {
    files.iter().map(|f| f.file_name()).collect()
}

fn definition_names(file: &MetaFile) -> Vec<&str> {
    file.definitions.iter().map(|d| d.name.as_str()).collect()
}

#[test]
fn load_workspace() {
    let file_urls = vec![
        "file:///my/definitions/path/standard.lua",
        "file:///my/definitions/path/renoise.lua",
        "file:///my/definitions/path/renoise/midi.lua",
        "file:///my/definitions/path/bit.lua",
    ];

    let docs: Vec<Definition> = file_urls.iter().map(|&file| test_definition(file)).collect();

    let mut ws = Workspace::new("/my/definitions/path");

    ws.load(docs).unwrap();

    let root_files: Vec<String> = ws.files.iter().map(|f| f.file_name()).collect();

    assert_eq!(root_files, vec!["bit.lua", "renoise.lua", "standard.lua"]);

    assert_eq!(ws.files.get(1).unwrap().sub_files.get(0).unwrap().file_name(), "midi.lua");
}

#[test]
fn a_loaded_workspace_has_the_shape_of_the_folder() {
    let docs: Vec<Definition> = [
        "file:///my/definitions/path/standard.lua",
        "file:///my/definitions/path/renoise.lua",
        "file:///my/definitions/path/renoise/midi.lua",
        "file:///my/definitions/path/bit.lua",
    ].iter().map(|&file| test_definition(file)).collect();
    let mut ws = Workspace::new("/my/definitions/path");
    ws.load(docs).unwrap();

    assert_eq!(ws.root, "/my/definitions/path");
    assert_eq!(ws.files.len(), 3);
    let renoise = &ws.files[1];
    assert_eq!(renoise.path, path(&["renoise.lua"]));
    assert_eq!(renoise.depth, 0);
    assert_eq!(renoise.sub_files.len(), 1);
    let midi = &renoise.sub_files[0];
    assert_eq!(midi.path, path(&["renoise", "midi.lua"]));
    assert_eq!(midi.depth, 1);
    assert_eq!(midi.directory_name().as_deref(), Some("renoise"));
    assert!(midi.sub_files.is_empty());
    assert_eq!(midi.definitions, vec![test_definition("file:///my/definitions/path/renoise/midi.lua")]);
    assert!(ws.files[0].sub_files.is_empty());
    assert!(ws.files[2].sub_files.is_empty());
}

#[test]
fn nothing_to_load_leaves_the_workspace_empty() {
    let mut ws = Workspace::new("/my/definitions/path");
    assert_eq!(ws.load(Vec::new()).unwrap(), ());
    assert!(ws.files.is_empty());
    ws.load(vec![named_definition("nowhere", Vec::new())]).unwrap();
    assert!(ws.files.is_empty());
}

#[test]
fn an_orphan_stays_at_the_top_level() {
    let docs = vec![
        test_definition("file:///root/deep/down/file.lua"),
        test_definition("file:///root/top.lua"),
    ];
    let mut ws = Workspace::new("/root");
    ws.load(docs).unwrap();
    assert_eq!(names(&ws.files), vec!["top.lua", "file.lua"]);
    assert_eq!(ws.files[1].depth, 2);
    assert_eq!(ws.files[1].path, path(&["deep", "down", "file.lua"]));
    assert_eq!(ws.files[1].directory_name().as_deref(), Some("down"));
}

#[test]
fn an_orphan_takes_the_files_of_its_directory() {
    // `a/b.lua` has no `a.lua` and stays at the top; `a/b/c.lua` belongs
    // below it, as it lies one level deeper in the directory `b`.
    let docs = vec![
        test_definition("file:///root/a/b/c.lua"),
        test_definition("file:///root/a/b.lua"),
    ];
    let mut ws = Workspace::new("/root");
    ws.load(docs).unwrap();
    assert_eq!(names(&ws.files), vec!["b.lua"]);
    assert_eq!(names(&ws.files[0].sub_files), vec!["c.lua"]);
}

#[test]
fn a_file_goes_below_a_file_that_lies_below_another() {
    let docs = vec![
        test_definition("file:///ws/renoise/midi/device.lua"),
        test_definition("file:///ws/renoise/midi.lua"),
        test_definition("file:///ws/renoise.lua"),
    ];
    let mut ws = Workspace::new("/ws");
    assert!(matches!(ws.load(docs), Ok(())));
    assert_eq!(ws.files.len(), 1);
    let renoise = &ws.files[0];
    assert_eq!(renoise.path, path(&["renoise.lua"]));
    assert_eq!(renoise.depth, 0);
    assert_eq!(renoise.sub_files.len(), 1);
    let midi = &renoise.sub_files[0];
    assert_eq!(midi.path, path(&["renoise", "midi.lua"]));
    assert_eq!(midi.depth, 1);
    assert_eq!(midi.sub_files.len(), 1);
    let device = &midi.sub_files[0];
    assert_eq!(device.path, path(&["renoise", "midi", "device.lua"]));
    assert_eq!(device.depth, 2);
    assert!(device.sub_files.is_empty());
}

#[test]
fn files_at_every_level_are_asked_for_a_parent() {
    // `a/b.lua` goes below `a.lua`, and `a/b/c.lua` below `a/b.lua`.
    let docs = vec![
        test_definition("file:///root/a/b/c.lua"),
        test_definition("file:///root/a/b.lua"),
        test_definition("file:///root/a.lua"),
        test_definition("file:///root/a/b/d/e.lua"),
    ];
    let mut ws = Workspace::new("/root");
    ws.load(docs).unwrap();
    assert_eq!(names(&ws.files), vec!["a.lua", "e.lua"]);
    assert_eq!(names(&ws.files[0].sub_files), vec!["b.lua"]);
    assert_eq!(names(&ws.files[0].sub_files[0].sub_files), vec!["c.lua"]);
    assert!(ws.files[0].sub_files[0].sub_files[0].sub_files.is_empty());
    // `a/b/d/e.lua` has no `a/b/d.lua` to go below.
    assert_eq!(ws.files[1].depth, 3);
}

#[test]
fn the_first_file_in_the_order_of_placing_is_the_parent() {
    // Of the files at one depth, `x.lua` is placed before `x.txt`,
    // whatever lies above them.
    let docs = vec![
        test_definition("file:///root/a/x.txt"),
        test_definition("file:///root/b/x.lua"),
        test_definition("file:///root/a.lua"),
        test_definition("file:///root/b.lua"),
        test_definition("file:///root/a/x/c.lua"),
    ];
    let mut ws = Workspace::new("/root");
    ws.load(docs).unwrap();
    assert_eq!(names(&ws.files), vec!["a.lua", "b.lua"]);
    assert_eq!(names(&ws.files[0].sub_files), vec!["x.txt"]);
    assert_eq!(names(&ws.files[1].sub_files), vec!["x.lua"]);
    assert_eq!(names(&ws.files[1].sub_files[0].sub_files), vec!["c.lua"]);
    assert!(ws.files[0].sub_files[0].sub_files.is_empty());
}

#[test]
fn files_of_one_name_are_placed_as_they_are_met() {
    let docs = vec![
        test_definition("file:///root/b/x.lua"),
        test_definition("file:///root/a/x.lua"),
        test_definition("file:///root/a.lua"),
        test_definition("file:///root/b.lua"),
        test_definition("file:///root/a/x/c.lua"),
    ];
    let mut ws = Workspace::new("/root");
    ws.load(docs).unwrap();
    // `b/x.lua` was met first, so it is placed first and asked first.
    assert_eq!(names(&ws.files[1].sub_files[0].sub_files), vec!["c.lua"]);
    assert!(ws.files[0].sub_files[0].sub_files.is_empty());
}

#[test]
fn the_first_file_of_a_stem_is_the_parent() {
    let docs = vec![
        test_definition("file:///root/x/child.lua"),
        test_definition("file:///root/x.txt"),
        test_definition("file:///root/x.lua"),
    ];
    let mut ws = Workspace::new("/root");
    ws.load(docs).unwrap();
    assert_eq!(names(&ws.files), vec!["x.lua", "x.txt"]);
    assert_eq!(names(&ws.files[0].sub_files), vec!["child.lua"]);
    assert!(ws.files[1].sub_files.is_empty());
}

#[test]
fn definitions_outside_the_root_are_left_out() {
    let docs = vec![
        named_definition("system", vec![define("file:///usr/share/lua/meta/string.lua", 5)]),
        named_definition("sibling", vec![define("file:///my/definitions/pathology/x.lua", 5)]),
        named_definition("root", vec![define("file:///my/definitions/path", 5)]),
        named_definition("local", vec![define("file:///my/definitions/path/x.lua", 5)]),
    ];
    let mut ws = Workspace::new("/my/definitions/path");
    ws.load(docs).unwrap();
    assert_eq!(names(&ws.files), vec!["x.lua"]);
    assert_eq!(definition_names(&ws.files[0]), vec!["local"]);
}

#[test]
fn a_definition_is_listed_in_every_file_that_defines_it() {
    let docs = vec![
        named_definition(
            "split",
            vec![
                define("file:///elsewhere/a.lua", 1),
                define("file:///root/b.lua", 20),
                define("file:///root/a.lua", 3),
                define("file:///root/b.lua", 4),
            ],
        ),
        named_definition("other", vec![define("file:///root/b.lua", 10)]),
    ];
    let mut ws = Workspace::new("/root");
    ws.load(docs).unwrap();
    assert_eq!(names(&ws.files), vec!["a.lua", "b.lua"]);
    assert_eq!(definition_names(&ws.files[0]), vec!["split"]);
    assert_eq!(definition_names(&ws.files[1]), vec!["split", "other", "split"]);
}

#[test]
fn the_definitions_of_a_file_are_in_the_order_of_their_offsets() {
    let file = "file:///root/a.lua";
    let docs = vec![
        named_definition("third", vec![define(file, 300)]),
        named_definition("first", vec![define(file, 1)]),
        named_definition("second", vec![define(file, 20)]),
        named_definition("also second", vec![define(file, 20)]),
        named_definition("zeroth", vec![define(file, 0)]),
    ];
    let mut ws = Workspace::new("/root");
    ws.load(docs).unwrap();
    assert_eq!(
        definition_names(&ws.files[0]),
        vec!["zeroth", "first", "second", "also second", "third"]
    );
}

#[test]
fn files_of_one_depth_are_in_the_order_of_their_names() {
    let docs: Vec<Definition> = [
        "file:///root/b.lua",
        "file:///root/a/z.lua",
        "file:///root/B.lua",
        "file:///root/%C3%A9.lua",
        "file:///root/a.lua",
        "file:///root/a/y.lua",
        "file:///root/ab.lua",
        "file:///root/a",
    ].iter().map(|&file| test_definition(file)).collect();
    let mut ws = Workspace::new("/root");
    ws.load(docs).unwrap();
    assert_eq!(names(&ws.files), vec!["B.lua", "a", "a.lua", "ab.lua", "b.lua", "\u{e9}.lua"]);
    // `a` comes before `a.lua` and has the same stem: it is the parent.
    assert_eq!(names(&ws.files[1].sub_files), vec!["y.lua", "z.lua"]);
    assert!(ws.files[2].sub_files.is_empty());
}

#[test]
fn a_location_that_is_no_file_uri_is_an_error() {
    for bad in ["not a url", "/plain/path.lua", "file://remote.example/share/a.lua", "http:x"] {
        let docs = vec![
            test_definition("file:///root/a.lua"),
            named_definition("bad", vec![define("file:///root/b.lua", 1), define(bad, 2)]),
        ];
        let mut ws = Workspace::new("/root");
        assert!(matches!(ws.load(docs), Err(Error::InvalidLocation)), "{}", bad);
        assert!(ws.files.is_empty());
        assert_eq!(ws.root, "/root");
    }
}

#[test]
fn a_location_is_resolved_as_a_url() {
    let docs = vec![
        test_definition("file:///root/with%20space.lua"),
        test_definition("file:///root/./sub/../dotted.lua"),
        test_definition("file://localhost/root/local.lua"),
    ];
    let mut ws = Workspace::new("/root/");
    ws.load(docs).unwrap();
    assert_eq!(names(&ws.files), vec!["dotted.lua", "local.lua", "with space.lua"]);
}

#[test]
fn loading_twice_adds_to_what_is_there() {
    let mut ws = Workspace::new("/root");
    ws.load(vec![test_definition("file:///root/b.lua")]).unwrap();
    ws.load(vec![test_definition("file:///root/a.lua"), test_definition("file:///root/b/c.lua")])
        .unwrap();
    assert_eq!(names(&ws.files), vec!["b.lua", "a.lua"]);
    assert_eq!(names(&ws.files[0].sub_files), vec!["c.lua"]);
}

#[test]
fn a_new_workspace_is_empty() {
    let ws = Workspace::new("/my/definitions/path");
    assert_eq!(ws.root, "/my/definitions/path");
    assert!(ws.files.is_empty());
    assert_eq!(Workspace::default().root, "");
    assert_eq!(ws.clone(), ws);
}

fn located(parts: &[&str], start: u64, name: &str) -> Located {
    Located { parts: path(parts), start, definition: named_definition(name, Vec::new()) }
}

#[test]
fn resolved_places_are_grouped_and_placed() {
    let root = path(&["/", "ws"]);
    let places = vec![
        located(&["/", "ws", "renoise", "midi", "device.lua"], 7, "device"),
        located(&["/", "ws", "renoise", "midi.lua"], 9, "late"),
        located(&["/", "elsewhere", "x.lua"], 0, "foreign"),
        located(&["/", "ws"], 0, "the folder"),
        located(&["/", "ws", "renoise.lua"], 1, "song"),
        located(&["/", "ws", "renoise", "midi.lua"], 2, "early"),
        located(&["/", "wsx", "y.lua"], 0, "sibling"),
    ];
    let mut ws = Workspace::new("/ws");
    ws.place_located(&root, places);
    assert_eq!(names(&ws.files), vec!["renoise.lua"]);
    assert_eq!(definition_names(&ws.files[0]), vec!["song"]);
    let midi = &ws.files[0].sub_files[0];
    assert_eq!(midi.path, path(&["renoise", "midi.lua"]));
    assert_eq!(definition_names(midi), vec!["early", "late"]);
    assert_eq!(names(&midi.sub_files), vec!["device.lua"]);
    assert_eq!(definition_names(&midi.sub_files[0]), vec!["device"]);
    assert_eq!(ws.root, "/ws");

    let mut empty = Workspace::new("/ws");
    empty.place_located(&root, Vec::new());
    assert!(empty.files.is_empty());
}

#[test]
fn a_new_file_is_empty() {
    let file = MetaFile::new();
    assert!(file.path.is_empty());
    assert!(file.definitions.is_empty());
    assert_eq!(file.depth, 0);
    assert!(file.sub_files.is_empty());
    assert_eq!(file, MetaFile::default());
    assert_eq!(file.directory_name(), None);
}

#[test]
fn a_file_is_made_of_a_path_and_entries() {
    let entries = vec![
        (9, named_definition("nine", Vec::new())),
        (2, named_definition("two", Vec::new())),
        (9, named_definition("nine again", Vec::new())),
        (0, named_definition("zero", Vec::new())),
    ];
    let file = MetaFile::from((path(&["a", "b", "c.d.lua"]), entries));
    assert_eq!(file.path, path(&["a", "b", "c.d.lua"]));
    assert_eq!(file.depth, 2);
    assert!(file.sub_files.is_empty());
    assert_eq!(definition_names(&file), vec!["zero", "two", "nine", "nine again"]);
    assert_eq!(file.file_name(), "c.d.lua");
    assert_eq!(file.file_stem(), "c.d");
    assert_eq!(file.directory_name().as_deref(), Some("b"));
}

#[test]
fn the_stem_is_the_name_without_its_extension() {
    for (name, stem) in [
        ("midi.lua", "midi"),
        ("archive.tar.gz", "archive.tar"),
        ("noext", "noext"),
        (".hidden", ".hidden"),
        (".hidden.lua", ".hidden"),
        ("trailing.", "trailing"),
        ("a.b", "a"),
        ("é.lua", "é"),
    ] {
        let file = MetaFile::from((path(&[name]), Vec::new()));
        assert_eq!(file.file_stem(), stem, "{}", name);
        assert_eq!(file.file_name(), name);
        assert_eq!(file.directory_name(), None);
    }
}

#[test]
fn a_sub_file_is_added_behind_the_others() {
    let mut parent = MetaFile::from((path(&["a.lua"]), Vec::new()));
    parent.add_sub_file(MetaFile::from((path(&["a", "z.lua"]), Vec::new())));
    parent.add_sub_file(MetaFile::from((path(&["a", "b.lua"]), Vec::new())));
    assert_eq!(names(&parent.sub_files), vec!["z.lua", "b.lua"]);
    assert_eq!(parent.path, path(&["a.lua"]));
    assert_eq!(parent.depth, 0);
}

#[test]
fn add_file_places_one_file() {
    let mut ws = Workspace::new("/root");
    ws.add_file(MetaFile::from((path(&["x", "orphan.lua"]), Vec::new())));
    ws.add_file(MetaFile::from((path(&["x.lua"]), Vec::new())));
    ws.add_file(MetaFile::from((path(&["x", "child.lua"]), Vec::new())));
    ws.add_file(MetaFile::from((path(&["orphan", "grandchild.lua"]), Vec::new())));
    assert_eq!(names(&ws.files), vec!["orphan.lua", "x.lua", "grandchild.lua"]);
    assert_eq!(names(&ws.files[1].sub_files), vec!["child.lua"]);
    assert!(ws.files[0].sub_files.is_empty());
    ws.add_file(MetaFile::from((path(&["x", "child", "deep.lua"]), Vec::new())));
    assert_eq!(names(&ws.files[1].sub_files[0].sub_files), vec!["deep.lua"]);
}

#[test]
fn a_top_level_file_is_asked_before_the_files_below() {
    // `z/b.lua` has no `z.lua` and stands at the top; `a/b.lua` lies below
    // `a.lua`. Both are one level above `a/b/c.lua` and have the stem of
    // its directory: the one at the top level gets it.
    let mut ws = Workspace::new("/root");
    ws.add_file(MetaFile::from((path(&["a.lua"]), Vec::new())));
    ws.add_file(MetaFile::from((path(&["a", "b.lua"]), Vec::new())));
    ws.add_file(MetaFile::from((path(&["z", "b.lua"]), Vec::new())));
    ws.add_file(MetaFile::from((path(&["a", "b", "c.lua"]), Vec::new())));
    assert_eq!(names(&ws.files), vec!["a.lua", "b.lua"]);
    assert_eq!(ws.files[1].path, path(&["z", "b.lua"]));
    assert_eq!(names(&ws.files[1].sub_files), vec!["c.lua"]);
    assert_eq!(names(&ws.files[0].sub_files), vec!["b.lua"]);
    assert!(ws.files[0].sub_files[0].sub_files.is_empty());

    let docs = vec![
        test_definition("file:///root/a.lua"),
        test_definition("file:///root/a/b.lua"),
        test_definition("file:///root/z/b.lua"),
        test_definition("file:///root/a/b/c.lua"),
    ];
    let mut loaded = Workspace::new("/root");
    loaded.load(docs).unwrap();
    assert_eq!(names(&loaded.files), vec!["a.lua", "b.lua"]);
    assert_eq!(loaded.files[1].path, path(&["z", "b.lua"]));
    assert_eq!(names(&loaded.files[1].sub_files), vec!["c.lua"]);
    assert_eq!(names(&loaded.files[0].sub_files), vec!["b.lua"]);
    assert!(loaded.files[0].sub_files[0].sub_files.is_empty());
}

#[test]
fn the_first_top_level_file_is_the_parent() {
    let mut ws = Workspace::new("/root");
    ws.add_file(MetaFile::from((path(&["x", "b.txt"]), Vec::new())));
    ws.add_file(MetaFile::from((path(&["y", "b.lua"]), Vec::new())));
    ws.add_file(MetaFile::from((path(&["y", "b", "c.lua"]), Vec::new())));
    assert_eq!(names(&ws.files), vec!["b.txt", "b.lua"]);
    assert_eq!(names(&ws.files[0].sub_files), vec!["c.lua"]);
    assert!(ws.files[1].sub_files.is_empty());
}

#[test]
fn files_below_are_gone_through_from_the_top_down() {
    let mut ws = Workspace::new("/root");
    ws.add_file(MetaFile::from((path(&["a.lua"]), Vec::new())));
    ws.add_file(MetaFile::from((path(&["b.lua"]), Vec::new())));
    ws.add_file(MetaFile::from((path(&["b", "x.lua"]), Vec::new())));
    ws.add_file(MetaFile::from((path(&["a", "x.txt"]), Vec::new())));
    // Both files below have the stem `x`: `a/x.txt` lies below the first
    // top-level file and is met first.
    ws.add_file(MetaFile::from((path(&["b", "x", "c.lua"]), Vec::new())));
    assert_eq!(names(&ws.files[0].sub_files[0].sub_files), vec!["c.lua"]);
    assert!(ws.files[1].sub_files[0].sub_files.is_empty());
}
