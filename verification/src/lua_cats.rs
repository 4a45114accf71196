//! LuaCATS documentation records.

use vstd::prelude::*;
use crate::text::str_eq;

verus! {

/// The kind of a definition, of a place where it is defined, or of a
/// refinement: a closed set, each member with the spelling the language
/// server gives it.
#[derive(Clone, Copy, Debug, PartialEq, Eq, PartialOrd, Ord, Hash, Structural)]
pub enum DefinitionType {
    Binary,
    DocAlias,
    DocClass,
    DocExtendsName,
    DocEnum,
    DocType,
    Function,
    FunctionReturn,
    Integer,
    Local,
    Nil,
    Number,
    SelfType,
    SetField,
    SetGlobal,
    SetMethod,
    String,
    Table,
    TableField,
    Type,
    Variable,
    VarArg,
}

impl DefinitionType {
    /// The spelling of this kind in a document.
    pub open spec fn tag(self) -> Seq<char> {
        match self {
            DefinitionType::Binary => "binary"@,
            DefinitionType::DocAlias => "doc.alias"@,
            DefinitionType::DocClass => "doc.class"@,
            DefinitionType::DocExtendsName => "doc.extends.name"@,
            DefinitionType::DocEnum => "doc.enum"@,
            DefinitionType::DocType => "doc.type"@,
            DefinitionType::Function => "function"@,
            DefinitionType::FunctionReturn => "function.return"@,
            DefinitionType::Integer => "integer"@,
            DefinitionType::Local => "local"@,
            DefinitionType::Nil => "nil"@,
            DefinitionType::Number => "number"@,
            DefinitionType::SelfType => "self"@,
            DefinitionType::SetField => "setfield"@,
            DefinitionType::SetGlobal => "setglobal"@,
            DefinitionType::SetMethod => "setmethod"@,
            DefinitionType::String => "string"@,
            DefinitionType::Table => "table"@,
            DefinitionType::TableField => "tablefield"@,
            DefinitionType::Type => "type"@,
            DefinitionType::Variable => "variable"@,
            DefinitionType::VarArg => "..."@,
        }
    }

    /// The kind that `tag` spells, if any.
    pub open spec fn from_tag(tag: Seq<char>) -> Option<DefinitionType> {
        if tag == "binary"@ {
            Some(DefinitionType::Binary)
        } else if tag == "doc.alias"@ {
            Some(DefinitionType::DocAlias)
        } else if tag == "doc.class"@ {
            Some(DefinitionType::DocClass)
        } else if tag == "doc.extends.name"@ {
            Some(DefinitionType::DocExtendsName)
        } else if tag == "doc.enum"@ {
            Some(DefinitionType::DocEnum)
        } else if tag == "doc.type"@ {
            Some(DefinitionType::DocType)
        } else if tag == "function"@ {
            Some(DefinitionType::Function)
        } else if tag == "function.return"@ {
            Some(DefinitionType::FunctionReturn)
        } else if tag == "integer"@ {
            Some(DefinitionType::Integer)
        } else if tag == "local"@ {
            Some(DefinitionType::Local)
        } else if tag == "nil"@ {
            Some(DefinitionType::Nil)
        } else if tag == "number"@ {
            Some(DefinitionType::Number)
        } else if tag == "self"@ {
            Some(DefinitionType::SelfType)
        } else if tag == "setfield"@ {
            Some(DefinitionType::SetField)
        } else if tag == "setglobal"@ {
            Some(DefinitionType::SetGlobal)
        } else if tag == "setmethod"@ {
            Some(DefinitionType::SetMethod)
        } else if tag == "string"@ {
            Some(DefinitionType::String)
        } else if tag == "table"@ {
            Some(DefinitionType::Table)
        } else if tag == "tablefield"@ {
            Some(DefinitionType::TableField)
        } else if tag == "type"@ {
            Some(DefinitionType::Type)
        } else if tag == "variable"@ {
            Some(DefinitionType::Variable)
        } else if tag == "..."@ {
            Some(DefinitionType::VarArg)
        } else {
            None
        }
    }

    /// The spelling of this kind in a document.
    pub fn name(self) -> (spelling: &'static str)
        ensures
            spelling@ == self.tag(),
    {
        match self {
            DefinitionType::Binary => "binary",
            DefinitionType::DocAlias => "doc.alias",
            DefinitionType::DocClass => "doc.class",
            DefinitionType::DocExtendsName => "doc.extends.name",
            DefinitionType::DocEnum => "doc.enum",
            DefinitionType::DocType => "doc.type",
            DefinitionType::Function => "function",
            DefinitionType::FunctionReturn => "function.return",
            DefinitionType::Integer => "integer",
            DefinitionType::Local => "local",
            DefinitionType::Nil => "nil",
            DefinitionType::Number => "number",
            DefinitionType::SelfType => "self",
            DefinitionType::SetField => "setfield",
            DefinitionType::SetGlobal => "setglobal",
            DefinitionType::SetMethod => "setmethod",
            DefinitionType::String => "string",
            DefinitionType::Table => "table",
            DefinitionType::TableField => "tablefield",
            DefinitionType::Type => "type",
            DefinitionType::Variable => "variable",
            DefinitionType::VarArg => "...",
        }
    }

    /// Reads a kind from its spelling; `None` for a spelling that names
    /// no kind.
    pub fn parse(tag: &str) -> (kind: Option<DefinitionType>)
        ensures
            kind == DefinitionType::from_tag(tag@),
    {
        if str_eq(tag, "binary") {
            Some(DefinitionType::Binary)
        } else if str_eq(tag, "doc.alias") {
            Some(DefinitionType::DocAlias)
        } else if str_eq(tag, "doc.class") {
            Some(DefinitionType::DocClass)
        } else if str_eq(tag, "doc.extends.name") {
            Some(DefinitionType::DocExtendsName)
        } else if str_eq(tag, "doc.enum") {
            Some(DefinitionType::DocEnum)
        } else if str_eq(tag, "doc.type") {
            Some(DefinitionType::DocType)
        } else if str_eq(tag, "function") {
            Some(DefinitionType::Function)
        } else if str_eq(tag, "function.return") {
            Some(DefinitionType::FunctionReturn)
        } else if str_eq(tag, "integer") {
            Some(DefinitionType::Integer)
        } else if str_eq(tag, "local") {
            Some(DefinitionType::Local)
        } else if str_eq(tag, "nil") {
            Some(DefinitionType::Nil)
        } else if str_eq(tag, "number") {
            Some(DefinitionType::Number)
        } else if str_eq(tag, "self") {
            Some(DefinitionType::SelfType)
        } else if str_eq(tag, "setfield") {
            Some(DefinitionType::SetField)
        } else if str_eq(tag, "setglobal") {
            Some(DefinitionType::SetGlobal)
        } else if str_eq(tag, "setmethod") {
            Some(DefinitionType::SetMethod)
        } else if str_eq(tag, "string") {
            Some(DefinitionType::String)
        } else if str_eq(tag, "table") {
            Some(DefinitionType::Table)
        } else if str_eq(tag, "tablefield") {
            Some(DefinitionType::TableField)
        } else if str_eq(tag, "type") {
            Some(DefinitionType::Type)
        } else if str_eq(tag, "variable") {
            Some(DefinitionType::Variable)
        } else if str_eq(tag, "...") {
            Some(DefinitionType::VarArg)
        } else {
            None
        }
    }
}

/// What the spellings of the kinds hold, character by character.
pub proof fn lemma_tags_revealed()
    ensures
        "binary"@ == seq!['b', 'i', 'n', 'a', 'r', 'y'],
        "doc.alias"@ == seq!['d', 'o', 'c', '.', 'a', 'l', 'i', 'a', 's'],
        "doc.class"@ == seq!['d', 'o', 'c', '.', 'c', 'l', 'a', 's', 's'],
        "doc.extends.name"@ == seq![
            'd', 'o', 'c', '.', 'e', 'x', 't', 'e', 'n', 'd', 's', '.', 'n', 'a', 'm', 'e',
        ],
        "doc.enum"@ == seq!['d', 'o', 'c', '.', 'e', 'n', 'u', 'm'],
        "doc.type"@ == seq!['d', 'o', 'c', '.', 't', 'y', 'p', 'e'],
        "function"@ == seq!['f', 'u', 'n', 'c', 't', 'i', 'o', 'n'],
        "function.return"@ == seq![
            'f', 'u', 'n', 'c', 't', 'i', 'o', 'n', '.', 'r', 'e', 't', 'u', 'r', 'n',
        ],
        "integer"@ == seq!['i', 'n', 't', 'e', 'g', 'e', 'r'],
        "local"@ == seq!['l', 'o', 'c', 'a', 'l'],
        "nil"@ == seq!['n', 'i', 'l'],
        "number"@ == seq!['n', 'u', 'm', 'b', 'e', 'r'],
        "self"@ == seq!['s', 'e', 'l', 'f'],
        "setfield"@ == seq!['s', 'e', 't', 'f', 'i', 'e', 'l', 'd'],
        "setglobal"@ == seq!['s', 'e', 't', 'g', 'l', 'o', 'b', 'a', 'l'],
        "setmethod"@ == seq!['s', 'e', 't', 'm', 'e', 't', 'h', 'o', 'd'],
        "string"@ == seq!['s', 't', 'r', 'i', 'n', 'g'],
        "table"@ == seq!['t', 'a', 'b', 'l', 'e'],
        "tablefield"@ == seq!['t', 'a', 'b', 'l', 'e', 'f', 'i', 'e', 'l', 'd'],
        "type"@ == seq!['t', 'y', 'p', 'e'],
        "variable"@ == seq!['v', 'a', 'r', 'i', 'a', 'b', 'l', 'e'],
        "..."@ == seq!['.', '.', '.'],
{
    reveal_strlit("binary");
    reveal_strlit("doc.alias");
    reveal_strlit("doc.class");
    reveal_strlit("doc.extends.name");
    reveal_strlit("doc.enum");
    reveal_strlit("doc.type");
    reveal_strlit("function");
    reveal_strlit("function.return");
    reveal_strlit("integer");
    reveal_strlit("local");
    reveal_strlit("nil");
    reveal_strlit("number");
    reveal_strlit("self");
    reveal_strlit("setfield");
    reveal_strlit("setglobal");
    reveal_strlit("setmethod");
    reveal_strlit("string");
    reveal_strlit("table");
    reveal_strlit("tablefield");
    reveal_strlit("type");
    reveal_strlit("variable");
    reveal_strlit("...");
    assert("binary"@ =~= seq!['b', 'i', 'n', 'a', 'r', 'y']);
    assert("doc.alias"@ =~= seq!['d', 'o', 'c', '.', 'a', 'l', 'i', 'a', 's']);
    assert("doc.class"@ =~= seq!['d', 'o', 'c', '.', 'c', 'l', 'a', 's', 's']);
    assert("doc.extends.name"@ =~= seq![
        'd', 'o', 'c', '.', 'e', 'x', 't', 'e', 'n', 'd', 's', '.', 'n', 'a', 'm', 'e',
    ]);
    assert("doc.enum"@ =~= seq!['d', 'o', 'c', '.', 'e', 'n', 'u', 'm']);
    assert("doc.type"@ =~= seq!['d', 'o', 'c', '.', 't', 'y', 'p', 'e']);
    assert("function"@ =~= seq!['f', 'u', 'n', 'c', 't', 'i', 'o', 'n']);
    assert("function.return"@ =~= seq![
        'f', 'u', 'n', 'c', 't', 'i', 'o', 'n', '.', 'r', 'e', 't', 'u', 'r', 'n',
    ]);
    assert("integer"@ =~= seq!['i', 'n', 't', 'e', 'g', 'e', 'r']);
    assert("local"@ =~= seq!['l', 'o', 'c', 'a', 'l']);
    assert("nil"@ =~= seq!['n', 'i', 'l']);
    assert("number"@ =~= seq!['n', 'u', 'm', 'b', 'e', 'r']);
    assert("self"@ =~= seq!['s', 'e', 'l', 'f']);
    assert("setfield"@ =~= seq!['s', 'e', 't', 'f', 'i', 'e', 'l', 'd']);
    assert("setglobal"@ =~= seq!['s', 'e', 't', 'g', 'l', 'o', 'b', 'a', 'l']);
    assert("setmethod"@ =~= seq!['s', 'e', 't', 'm', 'e', 't', 'h', 'o', 'd']);
    assert("string"@ =~= seq!['s', 't', 'r', 'i', 'n', 'g']);
    assert("table"@ =~= seq!['t', 'a', 'b', 'l', 'e']);
    assert("tablefield"@ =~= seq!['t', 'a', 'b', 'l', 'e', 'f', 'i', 'e', 'l', 'd']);
    assert("type"@ =~= seq!['t', 'y', 'p', 'e']);
    assert("variable"@ =~= seq!['v', 'a', 'r', 'i', 'a', 'b', 'l', 'e']);
    assert("..."@ =~= seq!['.', '.', '.']);
}

/// Every kind is read back from its own spelling: no two kinds share one.
pub proof fn lemma_tag_round_trip(kind: DefinitionType)
    ensures
        DefinitionType::from_tag(kind.tag()) == Some(kind),
{
    lemma_tags_revealed();
    // Spellings of different lengths differ.
    assert("binary"@.len() == 6);
    assert("doc.alias"@.len() == 9);
    assert("doc.class"@.len() == 9);
    assert("doc.extends.name"@.len() == 16);
    assert("doc.enum"@.len() == 8);
    assert("doc.type"@.len() == 8);
    assert("function"@.len() == 8);
    assert("function.return"@.len() == 15);
    assert("integer"@.len() == 7);
    assert("local"@.len() == 5);
    assert("nil"@.len() == 3);
    assert("number"@.len() == 6);
    assert("self"@.len() == 4);
    assert("setfield"@.len() == 8);
    assert("setglobal"@.len() == 9);
    assert("setmethod"@.len() == 9);
    assert("string"@.len() == 6);
    assert("table"@.len() == 5);
    assert("tablefield"@.len() == 10);
    assert("type"@.len() == 4);
    assert("variable"@.len() == 8);
    assert("..."@.len() == 3);
    // Spellings of one length differ in a character.
    assert("doc.alias"@[4] != "doc.class"@[4]);
    assert("doc.enum"@[4] != "doc.type"@[4]);
    assert("doc.enum"@[0] != "function"@[0]);
    assert("doc.type"@[0] != "function"@[0]);
    assert("binary"@[0] != "number"@[0]);
    assert("doc.enum"@[0] != "setfield"@[0]);
    assert("doc.type"@[0] != "setfield"@[0]);
    assert("function"@[0] != "setfield"@[0]);
    assert("doc.alias"@[0] != "setglobal"@[0]);
    assert("doc.class"@[0] != "setglobal"@[0]);
    assert("doc.alias"@[0] != "setmethod"@[0]);
    assert("doc.class"@[0] != "setmethod"@[0]);
    assert("setglobal"@[3] != "setmethod"@[3]);
    assert("binary"@[0] != "string"@[0]);
    assert("number"@[0] != "string"@[0]);
    assert("local"@[0] != "table"@[0]);
    assert("self"@[0] != "type"@[0]);
    assert("doc.enum"@[0] != "variable"@[0]);
    assert("doc.type"@[0] != "variable"@[0]);
    assert("function"@[0] != "variable"@[0]);
    assert("setfield"@[0] != "variable"@[0]);
    assert("nil"@[0] != "..."@[0]);
}

/// A spelling that is read as a kind is that kind's spelling.
pub proof fn lemma_from_tag_spelling(tag: Seq<char>)
    ensures
        DefinitionType::from_tag(tag) matches Some(kind) ==> kind.tag() == tag,
{
}

/// The characters of an optional text.
pub open spec fn opt_text(text: Option<String>) -> Option<Seq<char>> {
    match text {
        Some(s) => Some(s@),
        None => None,
    }
}

/// The views of a sequence of values, item by item.
pub open spec fn views_of<T: View>(items: Seq<T>) -> Seq<T::V> {
    Seq::new(items.len(), |i: int| items[i]@)
}

/// One argument of a function signature.
#[derive(Debug, PartialEq, Eq, PartialOrd, Ord)]
pub struct FuncArg {
    /// The name is missing for varargs ("...")
    pub name: Option<String>,
    pub lua_type: DefinitionType,
    pub desc: Option<String>,
    pub rawdesc: Option<String>,
    pub view: String,
    pub start: u64,
    pub finish: u64,
}

/// A `FuncArg` as a mathematical value.
pub struct FuncArgView {
    pub name: Option<Seq<char>>,
    pub lua_type: DefinitionType,
    pub desc: Option<Seq<char>>,
    pub rawdesc: Option<Seq<char>>,
    pub view: Seq<char>,
    pub start: u64,
    pub finish: u64,
}

impl View for FuncArg {
    type V = FuncArgView;

    open spec fn view(&self) -> FuncArgView {
        FuncArgView {
            name: opt_text(self.name),
            lua_type: self.lua_type,
            desc: opt_text(self.desc),
            rawdesc: opt_text(self.rawdesc),
            view: self.view@,
            start: self.start,
            finish: self.finish,
        }
    }
}

impl Clone for FuncArg {
    fn clone(&self) -> (copy: Self)
        ensures
            copy@ == self@,
    {
        FuncArg {
            name: self.name.clone(),
            lua_type: self.lua_type,
            desc: self.desc.clone(),
            rawdesc: self.rawdesc.clone(),
            view: self.view.clone(),
            start: self.start,
            finish: self.finish,
        }
    }
}

/// One value that a function returns.
#[derive(Debug, PartialEq, Eq, PartialOrd, Ord)]
pub struct FuncReturn {
    pub name: Option<String>,
    pub lua_type: DefinitionType,
    pub view: String,
    pub desc: Option<String>,
    pub rawdesc: Option<String>,
}

/// A `FuncReturn` as a mathematical value.
pub struct FuncReturnView {
    pub name: Option<Seq<char>>,
    pub lua_type: DefinitionType,
    pub view: Seq<char>,
    pub desc: Option<Seq<char>>,
    pub rawdesc: Option<Seq<char>>,
}

impl View for FuncReturn {
    type V = FuncReturnView;

    open spec fn view(&self) -> FuncReturnView {
        FuncReturnView {
            name: opt_text(self.name),
            lua_type: self.lua_type,
            view: self.view@,
            desc: opt_text(self.desc),
            rawdesc: opt_text(self.rawdesc),
        }
    }
}

impl Clone for FuncReturn {
    fn clone(&self) -> (copy: Self)
        ensures
            copy@ == self@,
    {
        FuncReturn {
            name: self.name.clone(),
            lua_type: self.lua_type,
            view: self.view.clone(),
            desc: self.desc.clone(),
            rawdesc: self.rawdesc.clone(),
        }
    }
}

/// Refined type information attached to a place of definition or to a
/// field, such as the signature of a function.
#[derive(Debug, PartialEq, Eq, PartialOrd, Ord)]
pub struct Extend {
    pub start: u64,
    pub finish: u64,
    pub lua_type: DefinitionType,
    pub view: String,
    pub desc: Option<String>,
    pub rawdesc: Option<String>,
    /// Only present for functions (type = "function") with args
    pub args: Vec<FuncArg>,
    /// Only present for functions (type = "function") with returns
    pub returns: Vec<FuncReturn>,
}

/// An `Extend` as a mathematical value.
pub struct ExtendView {
    pub start: u64,
    pub finish: u64,
    pub lua_type: DefinitionType,
    pub view: Seq<char>,
    pub desc: Option<Seq<char>>,
    pub rawdesc: Option<Seq<char>>,
    pub args: Seq<FuncArgView>,
    pub returns: Seq<FuncReturnView>,
}

impl View for Extend {
    type V = ExtendView;

    open spec fn view(&self) -> ExtendView {
        ExtendView {
            start: self.start,
            finish: self.finish,
            lua_type: self.lua_type,
            view: self.view@,
            desc: opt_text(self.desc),
            rawdesc: opt_text(self.rawdesc),
            args: views_of(self.args@),
            returns: views_of(self.returns@),
        }
    }
}

impl Clone for Extend {
    fn clone(&self) -> (copy: Self)
        ensures
            copy@ == self@,
    {
        let copy = Extend {
            start: self.start,
            finish: self.finish,
            lua_type: self.lua_type,
            view: self.view.clone(),
            desc: self.desc.clone(),
            rawdesc: self.rawdesc.clone(),
            args: self.args.clone(),
            returns: self.returns.clone(),
        };
        assert(views_of(copy.args@) =~= views_of(self.args@));
        assert(views_of(copy.returns@) =~= views_of(self.returns@));
        copy
    }
}

/// One place in a source file where a name is defined.
#[derive(Debug, PartialEq, Eq, PartialOrd, Ord)]
pub struct Define {
    pub start: u64,
    pub finish: u64,
    pub lua_type: DefinitionType,
    /// The `file://` URI of the source file.
    pub file: String,
    pub extends: Vec<Extend>,
}

/// A `Define` as a mathematical value.
pub struct DefineView {
    pub start: u64,
    pub finish: u64,
    pub lua_type: DefinitionType,
    pub file: Seq<char>,
    pub extends: Seq<ExtendView>,
}

impl View for Define {
    type V = DefineView;

    open spec fn view(&self) -> DefineView {
        DefineView {
            start: self.start,
            finish: self.finish,
            lua_type: self.lua_type,
            file: self.file@,
            extends: views_of(self.extends@),
        }
    }
}

impl Clone for Define {
    fn clone(&self) -> (copy: Self)
        ensures
            copy@ == self@,
    {
        let copy = Define {
            start: self.start,
            finish: self.finish,
            lua_type: self.lua_type,
            file: self.file.clone(),
            extends: self.extends.clone(),
        };
        assert(views_of(copy.extends@) =~= views_of(self.extends@));
        copy
    }
}

/// A member of a table or class.
#[derive(Debug, PartialEq, Eq, PartialOrd, Ord)]
pub struct Field {
    pub name: String,
    pub desc: Option<String>,
    pub rawdesc: Option<String>,
    pub start: u64,
    pub finish: u64,
    pub lua_type: DefinitionType,
    pub file: String,
    pub extends: Vec<Extend>,
}

/// A `Field` as a mathematical value.
pub struct FieldView {
    pub name: Seq<char>,
    pub desc: Option<Seq<char>>,
    pub rawdesc: Option<Seq<char>>,
    pub start: u64,
    pub finish: u64,
    pub lua_type: DefinitionType,
    pub file: Seq<char>,
    pub extends: Seq<ExtendView>,
}

impl View for Field {
    type V = FieldView;

    open spec fn view(&self) -> FieldView {
        FieldView {
            name: self.name@,
            desc: opt_text(self.desc),
            rawdesc: opt_text(self.rawdesc),
            start: self.start,
            finish: self.finish,
            lua_type: self.lua_type,
            file: self.file@,
            extends: views_of(self.extends@),
        }
    }
}

impl Clone for Field {
    fn clone(&self) -> (copy: Self)
        ensures
            copy@ == self@,
    {
        let copy = Field {
            name: self.name.clone(),
            desc: self.desc.clone(),
            rawdesc: self.rawdesc.clone(),
            start: self.start,
            finish: self.finish,
            lua_type: self.lua_type,
            file: self.file.clone(),
            extends: self.extends.clone(),
        };
        assert(views_of(copy.extends@) =~= views_of(self.extends@));
        copy
    }
}

/// One documented name with every place where it is defined.
#[derive(Debug, PartialEq, Eq, PartialOrd, Ord)]
pub struct Definition {
    pub desc: Option<String>,
    pub rawdesc: Option<String>,
    pub name: String,
    pub lua_type: DefinitionType,
    pub defines: Vec<Define>,
    pub fields: Vec<Field>,
}

/// A `Definition` as a mathematical value.
pub struct DefinitionView {
    pub desc: Option<Seq<char>>,
    pub rawdesc: Option<Seq<char>>,
    pub name: Seq<char>,
    pub lua_type: DefinitionType,
    pub defines: Seq<DefineView>,
    pub fields: Seq<FieldView>,
}

impl View for Definition {
    type V = DefinitionView;

    open spec fn view(&self) -> DefinitionView {
        DefinitionView {
            desc: opt_text(self.desc),
            rawdesc: opt_text(self.rawdesc),
            name: self.name@,
            lua_type: self.lua_type,
            defines: views_of(self.defines@),
            fields: views_of(self.fields@),
        }
    }
}

impl Clone for Definition {
    fn clone(&self) -> (copy: Self)
        ensures
            copy@ == self@,
    {
        let copy = Definition {
            desc: self.desc.clone(),
            rawdesc: self.rawdesc.clone(),
            name: self.name.clone(),
            lua_type: self.lua_type,
            defines: self.defines.clone(),
            fields: self.fields.clone(),
        };
        assert(views_of(copy.defines@) =~= views_of(self.defines@));
        assert(views_of(copy.fields@) =~= views_of(self.fields@));
        copy
    }
}

} // verus!
