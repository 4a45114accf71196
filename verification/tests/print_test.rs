use mdbook_luacats::lua_cats::{Define, Definition, DefinitionType, Extend};
use mdbook_luacats::print::{MarkdownOptions, MarkdownPrinter};

fn extend(view: &str) -> Extend {
    Extend {
        start: 0,
        finish: 0,
        lua_type: DefinitionType::Function,
        view: view.into(),
        desc: Some("not rendered".into()),
        rawdesc: None,
        args: Vec::new(),
        returns: Vec::new(),
    }
}

fn define(views: &[&str]) -> Define {
    Define {
        start: 0,
        finish: 0,
        lua_type: DefinitionType::SetGlobal,
        file: "file:///a.lua".into(),
        extends: views.iter().map(|view| extend(view)).collect(),
    }
}

fn definition(name: &str, desc: Option<&str>, defines: Vec<Define>) -> Definition {
    Definition {
        desc: desc.map(|text| text.to_string()),
        rawdesc: Some("raw, not rendered".into()),
        name: name.into(),
        lua_type: DefinitionType::Variable,
        defines,
        fields: Vec::new(),
    }
}

fn printer(level: u8) -> MarkdownPrinter {
    MarkdownPrinter::new(MarkdownOptions { heading_level: Some(level) })
}

#[test]
fn the_default_heading_level_is_two() {
    let hello = definition("hello", Some("Say hello"), vec![define(&["function hello()"])]);
    let want = "## hello\n\nSay hello\n\n```lua\nfunction hello()\n```\n\n";
    assert_eq!(MarkdownPrinter::default().print_definition(&hello).unwrap(), want);
    assert_eq!(
        MarkdownPrinter::new(MarkdownOptions::default()).print_definition(&hello).unwrap(),
        want
    );
    assert_eq!(printer(2).print_definition(&hello).unwrap(), want);
    assert_eq!(MarkdownOptions::default(), MarkdownOptions { heading_level: None });
}

#[test]
fn the_heading_has_as_many_marks_as_the_level() {
    let bare = definition("x", None, Vec::new());
    assert_eq!(printer(1).print_definition(&bare).unwrap(), "# x\n\n");
    assert_eq!(printer(3).print_definition(&bare).unwrap(), "### x\n\n");
    assert_eq!(printer(0).print_definition(&bare).unwrap(), " x\n\n");
    let deep = printer(255).print_definition(&bare).unwrap();
    assert_eq!(deep, format!("{} x\n\n", "#".repeat(255)));
}

#[test]
fn a_missing_description_leaves_no_paragraph() {
    let bare = definition("hello", None, vec![define(&["function hello()"])]);
    assert_eq!(
        printer(2).print_definition(&bare).unwrap(),
        "## hello\n\n```lua\nfunction hello()\n```\n\n"
    );
    let empty = definition("hello", Some(""), Vec::new());
    assert_eq!(printer(2).print_definition(&empty).unwrap(), "## hello\n\n\n\n");
}

#[test]
fn every_refinement_of_every_place_gets_a_block() {
    let many = definition(
        "f",
        Some("d"),
        vec![define(&["one", "two"]), define(&[]), define(&["three\n  -> x"])],
    );
    assert_eq!(
        printer(2).print_definition(&many).unwrap(),
        "## f\n\nd\n\n```lua\none\n```\n\n```lua\ntwo\n```\n\n```lua\nthree\n  -> x\n```\n\n"
    );
}

#[test]
fn definitions_are_joined_by_a_line_feed() {
    let docs = vec![
        definition("a", None, Vec::new()),
        definition("b", Some("B"), vec![define(&["b()"])]),
        definition("c", None, Vec::new()),
    ];
    assert_eq!(
        printer(1).print(&docs).unwrap(),
        "# a\n\n\n# b\n\nB\n\n```lua\nb()\n```\n\n\n# c\n\n"
    );
    assert_eq!(printer(1).print(&docs[..1]).unwrap(), "# a\n\n");
    assert_eq!(printer(1).print(&[]).unwrap(), "");
}
