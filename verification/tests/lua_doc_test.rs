use mdbook_luacats::decode::{decode_all, DecodeError, Record};
use mdbook_luacats::json::Json;
use mdbook_luacats::lua_doc::{
    Define, DocNode, Extend, FuncArg, FuncReturn, LuaType, MarkdownOptions,
};
use mdbook_luacats::luals::parse_docs;
use mdbook_luacats::types::Definition;

/// What the language server writes for a file that defines one global
/// function.
const DOC_JSON: &str = r##"[
    {
        "defines": [
            {
                "extends": {
                    "args": [
                        {
                            "finish": 30018,
                            "name": "name",
                            "start": 30014,
                            "type": "local",
                            "view": "string"
                        },
                        {
                            "finish": 30023,
                            "start": 30020,
                            "type": "...",
                            "view": "any"
                        }
                    ],
                    "desc": "Say hello",
                    "finish": 50003,
                    "rawdesc": "Say hello",
                    "returns": [
                        {
                            "type": "function.return",
                            "view": "string"
                        }
                    ],
                    "start": 30000,
                    "type": "function",
                    "view": "function hello(name: string, ...any)\n  -> string"
                },
                "file": "file:///Users/matt/Code/luacats-doc/./test_doc/hello/hello.lua",
                "finish": 30014,
                "start": 30009,
                "type": "setglobal"
            }
        ],
        "desc": "Say hello",
        "name": "hello",
        "rawdesc": "Say hello",
        "type": "variable"
    }
]"##;

/// A class with a field, as the language server writes it.
const CLASS_JSON: &str = r##"[
    {
        "defines": [
            {
                "file": "file:///Users/matt/Code/luacats-doc/./test_doc/hello/hello.lua",
                "finish": 100020,
                "start": 100010,
                "type": "doc.class"
            }
        ],
        "desc": "A greeter",
        "fields": [
            {
                "desc": "Whom to greet",
                "extends": {
                    "finish": 110025,
                    "start": 110019,
                    "type": "doc.type",
                    "view": "string"
                },
                "file": "file:///Users/matt/Code/luacats-doc/./test_doc/hello/hello.lua",
                "finish": 110025,
                "name": "target",
                "rawdesc": "Whom to greet",
                "start": 110010,
                "type": "doc.field"
            }
        ],
        "name": "Greeter",
        "rawdesc": "A greeter",
        "type": "type"
    }
]"##;

#[test]
fn lua_doc_test_parse_json() {
    let input_json = DOC_JSON;

    let nodes: Vec<Definition> = parse_docs(input_json).unwrap();

    assert_eq!(nodes.len(), 1);
    assert_eq!(nodes[0].name, "hello");
    assert_eq!(nodes[0].defines[0].extends.len(), 1);
    assert_eq!(nodes[0].defines[0].extends[0].args.len(), 2);
    assert_eq!(nodes[0].defines[0].extends[0].args[1].name, None);
    assert_eq!(nodes[0].defines[0].extends[0].returns.len(), 1);
    assert!(nodes[0].fields.is_empty());
}

#[test]
fn a_class_with_a_field_is_read() {
    // The field is of a kind outside the closed set.
    assert!(parse_docs(CLASS_JSON).is_err());

    let known = CLASS_JSON.replace("doc.field", "setfield");
    let nodes: Vec<Definition> = parse_docs(&known).unwrap();
    assert_eq!(nodes.len(), 1);
    assert_eq!(nodes[0].defines[0].extends.len(), 0);
    assert_eq!(nodes[0].fields.len(), 1);
    assert_eq!(nodes[0].fields[0].extends[0].view, "string");
}

#[test]
fn lua_doc_parse_json() {
    let input_json = DOC_JSON;

    let Json::Array(items) = Json::parse(input_json).unwrap() else {
        panic!("the document is an array");
    };
    let nodes: Vec<DocNode> = decode_all(&items).unwrap();

    assert_eq!(nodes.len(), 1);
    let extends = &nodes[0].defines[0].extends;
    assert_eq!(
        extends.args,
        Some(vec![
            FuncArg {
                name: Some("name".into()),
                lua_type: LuaType::Local,
                view: "string".into(),
                start: 30014,
                finish: 30018,
            },
            FuncArg {
                name: None,
                lua_type: LuaType::VarArg,
                view: "any".into(),
                start: 30020,
                finish: 30023,
            },
        ])
    );
    assert_eq!(
        extends.returns,
        Some(vec![FuncReturn {
            name: None,
            lua_type: LuaType::FunctionReturn,
            view: "string".into(),
        }])
    );
}

#[test]
fn a_node_of_another_kind_is_not_read() {
    let Json::Array(items) = Json::parse(CLASS_JSON).unwrap() else {
        panic!("the document is an array");
    };
    // A class is of a kind that no node has.
    assert_eq!(decode_all::<DocNode>(&items), Err(DecodeError::UnknownKind));
}

fn hello_node() -> DocNode {
    DocNode {
        desc: Some("Say hello".into()),
        rawdesc: Some("Say hello".into()),
        name: "hello".into(),
        lua_type: LuaType::Variable,
        defines: vec![Define {
            start: 30009,
            finish: 30014,
            lua_type: LuaType::SetGlobal,
            file: "file:///Users/matt/Code/luacats-doc/./test_doc/hello/hello.lua".into(),
            extends: Extend {
                start: 30000,
                finish: 30020,
                lua_type: LuaType::Function,
                view: "function hello()".into(),
                desc: Some("Say hello".into()),
                rawdesc: Some("Say hello".into()),
                args: Some(Vec::new()),
                returns: None,
            },
        }],
    }
}

const HELLO_JSON: &str = r##"{
            "defines": [
                {
                    "extends": {
                        "args": [],
                        "desc": "Say hello",
                        "finish": 30020,
                        "rawdesc": "Say hello",
                        "start": 30000,
                        "type": "function",
                        "view": "function hello()"
                    },
                    "file": "file:///Users/matt/Code/luacats-doc/./test_doc/hello/hello.lua",
                    "finish": 30014,
                    "start": 30009,
                    "type": "setglobal"
                }
            ],
            "desc": "Say hello",
            "name": "hello",
            "rawdesc": "Say hello",
            "type": "variable"
        }"##;

#[test]
fn markdown() {
    let input_json = HELLO_JSON;

    let node: DocNode = DocNode::from_json(&Json::parse(input_json).unwrap()).unwrap();
    assert_eq!(node, hello_node());

    let md = node.markdown(None).unwrap();

    let want = r##"## hello

Say hello

```lua
function hello()
```

"##;

    assert_eq!(md, want);
}

#[test]
fn a_node_is_written_and_read_back() {
    let node = hello_node();
    let written = node.to_json();
    assert_eq!(DocNode::from_json(&written), Ok(hello_node()));
    assert_eq!(written.get("type"), Some(&Json::Text("variable".into())));
    let Some(Json::Array(defines)) = written.get("defines") else {
        panic!("defines is written as an array");
    };
    let extends = defines[0].get("extends").unwrap();
    assert_eq!(extends.get("args"), Some(&Json::Array(Vec::new())));
    assert_eq!(extends.get("returns"), Some(&Json::Null));
}

#[test]
fn a_node_has_a_kind_of_its_own() {
    for (spelling, kind) in [
        ("function", LuaType::Function),
        ("function.return", LuaType::FunctionReturn),
        ("local", LuaType::Local),
        ("setfield", LuaType::SetField),
        ("setglobal", LuaType::SetGlobal),
        ("string", LuaType::String),
        ("table", LuaType::Table),
        ("variable", LuaType::Variable),
        ("...", LuaType::VarArg),
    ] {
        assert_eq!(kind.name(), spelling);
        let text = format!(r#"{{"type": "{}", "view": "x"}}"#, spelling);
        let read = FuncReturn::from_json(&Json::parse(&text).unwrap()).unwrap();
        assert_eq!(read.lua_type, kind);
    }
    // A kind of definition that is no kind of node.
    let text = r#"{"type": "doc.class", "view": "x"}"#;
    assert_eq!(
        FuncReturn::from_json(&Json::parse(text).unwrap()),
        Err(DecodeError::UnknownKind)
    );
    let text = r#"{"type": "mystery", "view": "x"}"#;
    assert_eq!(
        FuncReturn::from_json(&Json::parse(text).unwrap()),
        Err(DecodeError::UnknownKind)
    );
}

#[test]
fn a_place_of_a_node_needs_its_refinement() {
    let text = r#"{"start": 1, "finish": 2, "type": "local", "file": "file:///a.lua"}"#;
    assert_eq!(Define::from_json(&Json::parse(text).unwrap()), Err(DecodeError::MissingField));
    let text = r#"{"start": 1, "finish": 2, "type": "local", "file": "file:///a.lua",
        "extends": []}"#;
    assert_eq!(Define::from_json(&Json::parse(text).unwrap()), Err(DecodeError::NotAnObject));
    let text = r#"{"start": 1, "finish": 2, "type": "local", "view": "v", "args": 3}"#;
    assert_eq!(Extend::from_json(&Json::parse(text).unwrap()), Err(DecodeError::WrongType));
    let text = r#"{"start": 1, "finish": 2, "type": "local", "view": "v", "args": null}"#;
    assert_eq!(Extend::from_json(&Json::parse(text).unwrap()).unwrap().args, None);
}

#[test]
fn markdown_at_a_given_level() {
    let mut node = hello_node();
    node.desc = None;
    let options = MarkdownOptions { heading_level: Some(4) };
    let md = node.markdown(Some(options)).unwrap();
    assert_eq!(md, "#### hello\n\n```lua\nfunction hello()\n```\n\n");
    let unset = MarkdownOptions { heading_level: None };
    assert_eq!(node.markdown(Some(unset)).unwrap(), node.markdown(None).unwrap());
}

#[test]
fn markdown_without_places_of_definition() {
    let mut node = hello_node();
    node.defines.clear();
    assert_eq!(node.markdown(None).unwrap(), "## hello\n\nSay hello\n\n");
}
