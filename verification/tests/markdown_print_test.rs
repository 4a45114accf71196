use mdbook_luacats::decode::Record;
use mdbook_luacats::json::Json;
use mdbook_luacats::{print::MarkdownPrinter, types::Definition};

#[test]
fn print_definition() {
    // A subset of doc.json
    let input_json = r##"{
        "defines": [
            {
                "extends": {
                    "args": [],
                    "desc": "Say hello",
                    "finish": 30020,
                    "rawdesc": "Say hello",
                    "start": 30000,
                    "type": "function",
                    "view": "function hello()"
                },
                "file": "file:///Users/matt/Code/luacats-doc/./test_doc/hello/hello.lua",
                "finish": 30014,
                "start": 30009,
                "type": "setglobal"
            }
        ],
        "desc": "Say hello",
        "name": "hello",
        "rawdesc": "Say hello",
        "type": "variable"
    }"##;

    let json = Json::parse(input_json).unwrap();
    let def: Definition = Definition::from_json(&json).unwrap();

    let printer = MarkdownPrinter::default();

    let md = printer.print_definition(&def).unwrap();

    let want = r##"## hello

Say hello

```lua
function hello()
```

"##;

    assert_eq!(md, want);
}
