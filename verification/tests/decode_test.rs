use mdbook_luacats::decode::{
    decode_definitions, deserialize_extends, DecodeError, Record,
};
use mdbook_luacats::error::Error;
use mdbook_luacats::json::Json;
use mdbook_luacats::lua_cats::{
    Define, Definition, DefinitionType, Extend, Field, FuncArg, FuncReturn,
};
use mdbook_luacats::luals::{docs_of_run, parse_docs};

fn json(text: &str) -> Json {
    Json::parse(text).unwrap()
}

const EXTEND: &str = r#"{"start": 1, "finish": 2, "type": "function", "view": "function f()"}"#;

fn expected_extend() -> Extend {
    Extend {
        start: 1,
        finish: 2,
        lua_type: DefinitionType::Function,
        view: "function f()".into(),
        desc: None,
        rawdesc: None,
        args: Vec::new(),
        returns: Vec::new(),
    }
}

#[test]
fn json_text_is_read_into_a_document() {
    let doc = json(r#"[1, -1, 1.5, 18446744073709551615, "a", null, true, {"b": [], "a": {}}]"#);
    assert_eq!(
        doc,
        Json::Array(vec![
            Json::Number(Some(1)),
            Json::Number(None),
            Json::Number(None),
            Json::Number(Some(u64::MAX)),
            Json::Text("a".into()),
            Json::Null,
            Json::Bool(true),
            Json::Object(vec![
                ("a".into(), Json::Object(Vec::new())),
                ("b".into(), Json::Array(Vec::new())),
            ]),
        ])
    );
}

#[test]
fn malformed_json_text_is_refused() {
    assert!(Json::parse("{").is_err());
    assert!(Json::parse("").is_err());
    assert!(matches!(parse_docs("[{]"), Err(Error::JsonParse(_))));
}

#[test]
fn get_finds_the_first_member_of_that_name() {
    let doc = Json::Object(vec![
        ("a".into(), Json::Number(Some(1))),
        ("b".into(), Json::Null),
        ("a".into(), Json::Number(Some(2))),
    ]);
    assert_eq!(doc.get("a"), Some(&Json::Number(Some(1))));
    assert_eq!(doc.get("b"), Some(&Json::Null));
    assert_eq!(doc.get("c"), None);
    assert_eq!(Json::Array(Vec::new()).get("a"), None);
    assert!(doc.is_object());
    assert!(!Json::Null.is_object());
}

#[test]
fn extends_is_the_same_list_in_every_shape() {
    assert_eq!(deserialize_extends(None), Ok(Vec::new()));
    assert_eq!(deserialize_extends(Some(&Json::Null)), Ok(Vec::new()));
    assert_eq!(deserialize_extends(Some(&json("[]"))), Ok(Vec::new()));

    let single = deserialize_extends(Some(&json(EXTEND)));
    let listed = deserialize_extends(Some(&json(&format!("[{}]", EXTEND))));
    assert_eq!(single, Ok(vec![expected_extend()]));
    assert_eq!(single, listed);

    let two = deserialize_extends(Some(&json(&format!("[{}, {}]", EXTEND, EXTEND))));
    assert_eq!(two, Ok(vec![expected_extend(), expected_extend()]));
}

#[test]
fn extends_of_another_shape_is_refused() {
    assert_eq!(deserialize_extends(Some(&json("3"))), Err(DecodeError::WrongType));
    assert_eq!(deserialize_extends(Some(&json("\"x\""))), Err(DecodeError::WrongType));
    assert_eq!(deserialize_extends(Some(&json("true"))), Err(DecodeError::WrongType));
}

#[test]
fn a_malformed_extend_fails_the_whole_list() {
    let bad = r#"{"start": 1, "finish": 2, "type": "function"}"#;
    assert_eq!(deserialize_extends(Some(&json(bad))), Err(DecodeError::MissingField));
    let listed = format!("[{}, {}]", EXTEND, bad);
    assert_eq!(deserialize_extends(Some(&json(&listed))), Err(DecodeError::MissingField));
    let nested = format!("[{}, [{}]]", EXTEND, EXTEND);
    assert_eq!(deserialize_extends(Some(&json(&nested))), Err(DecodeError::NotAnObject));
}

#[test]
fn extends_is_read_alike_on_defines_and_fields() {
    let define = format!(
        r#"{{"start": 3, "finish": 4, "type": "setglobal", "file": "file:///a.lua", "extends": {}}}"#,
        EXTEND
    );
    let field = format!(
        r#"{{"name": "x", "start": 3, "finish": 4, "type": "setfield", "file": "file:///a.lua", "extends": {}}}"#,
        EXTEND
    );
    assert_eq!(Define::from_json(&json(&define)).unwrap().extends, vec![expected_extend()]);
    assert_eq!(Field::from_json(&json(&field)).unwrap().extends, vec![expected_extend()]);

    let bare_define = r#"{"start": 3, "finish": 4, "type": "setglobal", "file": "file:///a.lua"}"#;
    assert_eq!(Define::from_json(&json(bare_define)).unwrap().extends, Vec::new());
    let null_field = r#"{"name": "x", "start": 3, "finish": 4, "type": "setfield",
        "file": "file:///a.lua", "extends": null}"#;
    assert_eq!(Field::from_json(&json(null_field)).unwrap().extends, Vec::new());
}

#[test]
fn every_kind_is_read_from_its_spelling() {
    let spellings = [
        ("binary", DefinitionType::Binary),
        ("doc.alias", DefinitionType::DocAlias),
        ("doc.class", DefinitionType::DocClass),
        ("doc.extends.name", DefinitionType::DocExtendsName),
        ("doc.enum", DefinitionType::DocEnum),
        ("doc.type", DefinitionType::DocType),
        ("function", DefinitionType::Function),
        ("function.return", DefinitionType::FunctionReturn),
        ("integer", DefinitionType::Integer),
        ("local", DefinitionType::Local),
        ("nil", DefinitionType::Nil),
        ("number", DefinitionType::Number),
        ("self", DefinitionType::SelfType),
        ("setfield", DefinitionType::SetField),
        ("setglobal", DefinitionType::SetGlobal),
        ("setmethod", DefinitionType::SetMethod),
        ("string", DefinitionType::String),
        ("table", DefinitionType::Table),
        ("tablefield", DefinitionType::TableField),
        ("type", DefinitionType::Type),
        ("variable", DefinitionType::Variable),
        ("...", DefinitionType::VarArg),
    ];
    for (spelling, kind) in spellings {
        assert_eq!(DefinitionType::parse(spelling), Some(kind));
        assert_eq!(kind.name(), spelling);
    }
    assert_eq!(DefinitionType::parse("Function"), None);
    assert_eq!(DefinitionType::parse("doc.field"), None);
    assert_eq!(DefinitionType::parse(""), None);
}

#[test]
fn an_unknown_kind_is_a_decode_error() {
    let text = r#"{"type": "doc.field", "view": "x"}"#;
    assert_eq!(FuncReturn::from_json(&json(text)), Err(DecodeError::UnknownKind));
    let docs = r#"[{"name": "x", "type": "mystery", "defines": []}]"#;
    assert!(matches!(parse_docs(docs), Err(Error::Schema(DecodeError::UnknownKind))));
}

#[test]
fn a_missing_member_is_a_decode_error() {
    let no_view = r#"{"type": "string"}"#;
    assert_eq!(FuncReturn::from_json(&json(no_view)), Err(DecodeError::MissingField));
    let no_type = r#"{"view": "x"}"#;
    assert_eq!(FuncReturn::from_json(&json(no_type)), Err(DecodeError::MissingField));
    let no_defines = r#"{"name": "x", "type": "variable"}"#;
    assert_eq!(Definition::from_json(&json(no_defines)), Err(DecodeError::MissingField));
    let no_start = r#"{"name": "x", "type": "local", "view": "x", "finish": 1}"#;
    assert_eq!(FuncArg::from_json(&json(no_start)), Err(DecodeError::MissingField));
}

#[test]
fn a_member_of_the_wrong_shape_is_a_decode_error() {
    let view = r#"{"type": "string", "view": 3}"#;
    assert_eq!(FuncReturn::from_json(&json(view)), Err(DecodeError::WrongType));
    let kind = r#"{"type": 3, "view": "x"}"#;
    assert_eq!(FuncReturn::from_json(&json(kind)), Err(DecodeError::WrongType));
    let name = r#"{"type": "string", "view": "x", "name": []}"#;
    assert_eq!(FuncReturn::from_json(&json(name)), Err(DecodeError::WrongType));
    let negative = r#"{"type": "local", "view": "x", "start": -1, "finish": 1}"#;
    assert_eq!(FuncArg::from_json(&json(negative)), Err(DecodeError::WrongType));
    let fraction = r#"{"type": "local", "view": "x", "start": 1.5, "finish": 1}"#;
    assert_eq!(FuncArg::from_json(&json(fraction)), Err(DecodeError::WrongType));
    let fields = r#"{"name": "x", "type": "variable", "defines": [], "fields": null}"#;
    assert_eq!(Definition::from_json(&json(fields)), Err(DecodeError::WrongType));
    let defines = r#"{"name": "x", "type": "variable", "defines": {}}"#;
    assert_eq!(Definition::from_json(&json(defines)), Err(DecodeError::WrongType));
}

#[test]
fn a_document_that_is_no_object_is_no_record() {
    assert_eq!(FuncReturn::from_json(&json("[]")), Err(DecodeError::NotAnObject));
    assert_eq!(Definition::from_json(&json("null")), Err(DecodeError::NotAnObject));
    assert_eq!(Extend::from_json(&json("\"x\"")), Err(DecodeError::NotAnObject));
}

#[test]
fn the_first_fault_in_member_order_is_reported() {
    // `name` is read before `type`, and `type` before `view`.
    let text = r#"{"name": 1, "type": "mystery"}"#;
    assert_eq!(FuncReturn::from_json(&json(text)), Err(DecodeError::WrongType));
    let text = r#"{"type": "mystery"}"#;
    assert_eq!(FuncReturn::from_json(&json(text)), Err(DecodeError::UnknownKind));
}

#[test]
fn optional_members_may_be_missing_or_null() {
    let text = r#"{"type": "string", "view": "x", "name": null}"#;
    let read = FuncReturn::from_json(&json(text)).unwrap();
    assert_eq!(
        read,
        FuncReturn {
            name: None,
            lua_type: DefinitionType::String,
            view: "x".into(),
            desc: None,
            rawdesc: None,
        }
    );
    let text = r#"{"type": "string", "view": "x", "name": "n", "desc": "d", "rawdesc": "r",
        "more": [1, 2]}"#;
    let read = FuncReturn::from_json(&json(text)).unwrap();
    assert_eq!(read.name.as_deref(), Some("n"));
    assert_eq!(read.desc.as_deref(), Some("d"));
    assert_eq!(read.rawdesc.as_deref(), Some("r"));
}

fn sample_definition() -> Definition {
    Definition {
        desc: Some("Say hello".into()),
        rawdesc: None,
        name: "hello".into(),
        lua_type: DefinitionType::Variable,
        defines: vec![
            Define {
                start: 30009,
                finish: 30014,
                lua_type: DefinitionType::SetGlobal,
                file: "file:///lib/hello.lua".into(),
                extends: vec![Extend {
                    start: 30000,
                    finish: 50003,
                    lua_type: DefinitionType::Function,
                    view: "function hello(name: string, ...any)\n  -> string".into(),
                    desc: Some("Say hello".into()),
                    rawdesc: Some("Say hello".into()),
                    args: vec![
                        FuncArg {
                            name: Some("name".into()),
                            lua_type: DefinitionType::Local,
                            desc: None,
                            rawdesc: None,
                            view: "string".into(),
                            start: 30014,
                            finish: 30018,
                        },
                        FuncArg {
                            name: None,
                            lua_type: DefinitionType::VarArg,
                            desc: Some("the rest".into()),
                            rawdesc: Some("the rest".into()),
                            view: "any".into(),
                            start: 30020,
                            finish: 30023,
                        },
                    ],
                    returns: vec![FuncReturn {
                        name: None,
                        lua_type: DefinitionType::FunctionReturn,
                        view: "string".into(),
                        desc: None,
                        rawdesc: None,
                    }],
                }],
            },
            Define {
                start: 7,
                finish: 9,
                lua_type: DefinitionType::DocExtendsName,
                file: "file:///lib/other.lua".into(),
                extends: Vec::new(),
            },
        ],
        fields: vec![Field {
            name: "target".into(),
            desc: None,
            rawdesc: Some("raw".into()),
            start: 1,
            finish: u64::MAX,
            lua_type: DefinitionType::SelfType,
            file: "file:///lib/hello.lua".into(),
            extends: vec![expected_extend()],
        }],
    }
}

#[test]
fn writing_and_reading_back_keeps_every_member() {
    let definition = sample_definition();
    let written = definition.to_json();
    assert_eq!(Definition::from_json(&written), Ok(sample_definition()));

    // The kinds are written in the spelling of the language server.
    assert_eq!(written.get("type"), Some(&Json::Text("variable".into())));
    let Some(Json::Array(defines)) = written.get("defines") else {
        panic!("defines is written as an array");
    };
    assert_eq!(defines[1].get("type"), Some(&Json::Text("doc.extends.name".into())));
    assert_eq!(defines[1].get("extends"), Some(&Json::Array(Vec::new())));
    assert_eq!(written.get("rawdesc"), Some(&Json::Null));
}

#[test]
fn reading_and_writing_back_reads_the_same() {
    let text = r#"{"name": "x", "type": "doc.class", "desc": "d", "extra": 1, "defines": [
        {"start": 3, "finish": 4, "type": "doc.class", "file": "file:///a.lua",
         "extends": {"start": 1, "finish": 2, "type": "doc.type", "view": "v"}}]}"#;
    let read = Definition::from_json(&json(text)).unwrap();
    let again = Definition::from_json(&read.to_json()).unwrap();
    assert_eq!(read, again);
    assert_eq!(again.lua_type.name(), "doc.class");
}

#[test]
fn definitions_are_read_from_an_array() {
    let docs = r#"[{"name": "a", "type": "nil", "defines": []},
                   {"name": "b", "type": "table", "defines": []}]"#;
    let read = decode_definitions(&json(docs)).unwrap();
    assert_eq!(read.len(), 2);
    assert_eq!(read[0].name, "a");
    assert_eq!(read[1].lua_type, DefinitionType::Table);
    assert_eq!(decode_definitions(&json("[]")), Ok(Vec::new()));
    assert_eq!(decode_definitions(&json("{}")), Err(DecodeError::WrongType));
    assert_eq!(decode_definitions(&json("[3]")), Err(DecodeError::NotAnObject));
    assert!(matches!(parse_docs("{}"), Err(Error::Schema(DecodeError::WrongType))));
    assert_eq!(parse_docs("[]").unwrap(), Vec::new());
}

#[test]
fn a_copy_equals_what_was_copied() {
    let definition = sample_definition();
    assert_eq!(definition.clone(), definition);
}

#[test]
fn a_failed_run_of_the_tool_is_an_error() {
    assert!(matches!(docs_of_run(false, Some(3), "[]"), Err(Error::Exec(Some(3)))));
    assert!(matches!(docs_of_run(false, None, ""), Err(Error::Exec(None))));
    assert!(matches!(docs_of_run(false, Some(0), "{"), Err(Error::Exec(Some(0)))));
    assert_eq!(docs_of_run(true, Some(0), "[]").unwrap(), Vec::new());
    assert!(matches!(docs_of_run(true, Some(0), "{"), Err(Error::JsonParse(_))));
    assert!(matches!(
        docs_of_run(true, None, "{}"),
        Err(Error::Schema(DecodeError::WrongType))
    ));
}
