use mdbook_luacats::clean_docs;
use mdbook_luacats::lua_cats::{Define, Definition, DefinitionType};

fn define(file: &str, start: u64) -> Define {
    Define {
        start,
        finish: start,
        lua_type: DefinitionType::Local,
        file: file.into(),
        extends: Vec::new(),
    }
}

fn definition(name: &str, defines: Vec<Define>) -> Definition {
    Definition {
        desc: None,
        rawdesc: None,
        name: name.into(),
        lua_type: DefinitionType::Local,
        defines,
        fields: Vec::new(),
    }
}

fn names(docs: &[Definition]) -> Vec<&str> {
    docs.iter().map(|d| d.name.as_str()).collect()
}

#[test]
fn definitions_from_elsewhere_are_dropped() {
    let docs = vec![
        definition("system", vec![define("file:///usr/share/meta/string.lua", 1)]),
        definition("local", vec![define("file:///lib/defs/a.lua", 1)]),
        definition("nowhere", Vec::new()),
        definition("sibling", vec![define("file:///lib/defs2/a.lua", 1)]),
        definition("partly", vec![define("file:///other/a.lua", 1), define("/lib/defs/z.lua", 1)]),
        definition("the folder", vec![define("file:///lib/defs", 1)]),
    ];
    let kept = clean_docs("/lib/defs", docs);
    // In the order of the first location of each, wherever that lies.
    assert_eq!(names(&kept), vec!["the folder", "local", "partly"]);
}

#[test]
fn definitions_are_put_in_the_order_of_file_and_offset() {
    let docs = vec![
        definition("b9", vec![define("file:///lib/b.lua", 9)]),
        definition("a5", vec![define("file:///lib/a.lua", 5)]),
        definition("b1", vec![define("file:///lib/b.lua", 1)]),
        definition("a5 again", vec![define("file:///lib/a.lua", 5)]),
        definition("ab0", vec![define("file:///lib/ab.lua", 0), define("file:///lib/a.lua", 0)]),
        definition("a0", vec![define("file:///lib/a.lua", 0)]),
        definition("B7", vec![define("file:///lib/B.lua", 7)]),
    ];
    let kept = clean_docs("/lib", docs);
    assert_eq!(names(&kept), vec!["B7", "a0", "a5", "a5 again", "ab0", "b1", "b9"]);
}

#[test]
fn the_location_is_read_as_a_plain_path() {
    // Nothing is decoded: the text behind `file://` is the path.
    let docs = vec![
        definition("encoded", vec![define("file:///lib/my%20defs/a.lua", 1)]),
        definition("spaced", vec![define("file:///lib/my defs/a.lua", 1)]),
        definition("short", vec![define("file:/lib/my defs/a.lua", 1)]),
        definition("dotted", vec![define("file:///lib/./my defs//b.lua", 1)]),
    ];
    let kept = clean_docs("/lib/my defs/", docs);
    assert_eq!(names(&kept), vec!["dotted", "spaced"]);
}

#[test]
fn nothing_stays_nothing() {
    assert_eq!(clean_docs("/lib", Vec::new()), Vec::new());
}
