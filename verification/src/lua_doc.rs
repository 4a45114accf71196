//! Documentation nodes in their plain form, where every place of
//! definition carries exactly one refinement.

use vstd::prelude::*;
use vstd::string::*;
use crate::decode::{
    DecodeError, Record, encode_all, encoded_all, kind_at, kind_member, lemma_member_names,
    lemma_round_trip_all, list_at, list_member, offset_at, offset_member, opt_records_at,
    opt_records_json, opt_records_member, opt_records_tree, opt_text_at, opt_text_json,
    opt_text_member, opt_text_tree, opt_views_of, record_at, record_member, text_at,
    text_member,
};
use crate::json::{Json, JsonTree, entries_of, entry_of, lemma_json_view};
use crate::lua_cats::{DefinitionType, lemma_tag_round_trip, opt_text, views_of};
use crate::print::{code_block, description_block, heading_marks};

verus! {

/// The kind of a node, of a place where it is defined, or of a refinement.
#[derive(Clone, Copy, Debug, PartialEq, Eq, PartialOrd, Ord, Hash, Structural)]
pub enum LuaType {
    Function,
    FunctionReturn,
    Local,
    SetField,
    SetGlobal,
    String,
    Table,
    Variable,
    VarArg,
}

impl LuaType {
    /// The kind of definition that this kind is.
    pub open spec fn kind(self) -> DefinitionType {
        match self {
            LuaType::Function => DefinitionType::Function,
            LuaType::FunctionReturn => DefinitionType::FunctionReturn,
            LuaType::Local => DefinitionType::Local,
            LuaType::SetField => DefinitionType::SetField,
            LuaType::SetGlobal => DefinitionType::SetGlobal,
            LuaType::String => DefinitionType::String,
            LuaType::Table => DefinitionType::Table,
            LuaType::Variable => DefinitionType::Variable,
            LuaType::VarArg => DefinitionType::VarArg,
        }
    }

    /// The kind of node that a kind of definition is, where it is one.
    pub open spec fn of_kind(kind: DefinitionType) -> Option<LuaType> {
        match kind {
            DefinitionType::Function => Some(LuaType::Function),
            DefinitionType::FunctionReturn => Some(LuaType::FunctionReturn),
            DefinitionType::Local => Some(LuaType::Local),
            DefinitionType::SetField => Some(LuaType::SetField),
            DefinitionType::SetGlobal => Some(LuaType::SetGlobal),
            DefinitionType::String => Some(LuaType::String),
            DefinitionType::Table => Some(LuaType::Table),
            DefinitionType::Variable => Some(LuaType::Variable),
            DefinitionType::VarArg => Some(LuaType::VarArg),
            _ => None,
        }
    }

    /// The spelling of this kind in a document.
    pub open spec fn tag(self) -> Seq<char> {
        self.kind().tag()
    }

    /// The kind that `tag` spells, if any.
    pub open spec fn from_tag(tag: Seq<char>) -> Option<LuaType> {
        match DefinitionType::from_tag(tag) {
            Some(kind) => LuaType::of_kind(kind),
            None => None,
        }
    }

    /// The spelling of this kind in a document.
    pub fn name(self) -> (spelling: &'static str)
        ensures
            spelling@ == self.tag(),
    {
        match self {
            LuaType::Function => DefinitionType::Function.name(),
            LuaType::FunctionReturn => DefinitionType::FunctionReturn.name(),
            LuaType::Local => DefinitionType::Local.name(),
            LuaType::SetField => DefinitionType::SetField.name(),
            LuaType::SetGlobal => DefinitionType::SetGlobal.name(),
            LuaType::String => DefinitionType::String.name(),
            LuaType::Table => DefinitionType::Table.name(),
            LuaType::Variable => DefinitionType::Variable.name(),
            LuaType::VarArg => DefinitionType::VarArg.name(),
        }
    }

    /// The kind of node that a kind of definition is, where it is one.
    pub fn narrow(kind: DefinitionType) -> (r: Option<LuaType>)
        ensures
            r == LuaType::of_kind(kind),
    {
        match kind {
            DefinitionType::Function => Some(LuaType::Function),
            DefinitionType::FunctionReturn => Some(LuaType::FunctionReturn),
            DefinitionType::Local => Some(LuaType::Local),
            DefinitionType::SetField => Some(LuaType::SetField),
            DefinitionType::SetGlobal => Some(LuaType::SetGlobal),
            DefinitionType::String => Some(LuaType::String),
            DefinitionType::Table => Some(LuaType::Table),
            DefinitionType::Variable => Some(LuaType::Variable),
            DefinitionType::VarArg => Some(LuaType::VarArg),
            _ => None,
        }
    }
}

/// Every kind of node is read back from its own spelling.
pub proof fn lemma_lua_type_round_trip(kind: LuaType)
    ensures
        LuaType::from_tag(kind.tag()) == Some(kind),
{
    lemma_tag_round_trip(kind.kind());
}

/// The kind of node that the required member `type` of `tree` spells.
pub open spec fn lua_type_at(tree: JsonTree) -> Result<LuaType, DecodeError> {
    match kind_at(tree) {
        Err(e) => Err(e),
        Ok(kind) => match LuaType::of_kind(kind) {
            Some(found) => Ok(found),
            None => Err(DecodeError::UnknownKind),
        },
    }
}

/// Reads the kind of node that the member `type` spells.
pub fn lua_type_member(json: &Json) -> (r: Result<LuaType, DecodeError>)
    ensures
        r == lua_type_at(json@),
{
    match LuaType::narrow(kind_member(json)?) {
        Some(found) => Ok(found),
        None => Err(DecodeError::UnknownKind),
    }
}

/// How a node is rendered.
#[derive(Clone, Copy, Debug, PartialEq, Eq, PartialOrd, Ord, Structural)]
pub struct MarkdownOptions {
    /// Starting heading level
    pub heading_level: Option<u8>,
}

impl Default for MarkdownOptions {
    fn default() -> (options: Self)
        ensures
            options.heading_level is None,
    {
        MarkdownOptions { heading_level: None }
    }
}

/// The heading level that the options ask for: 2 where they are missing
/// or name none.
pub open spec fn level_of(options: Option<MarkdownOptions>) -> nat {
    match options {
        Some(MarkdownOptions { heading_level: Some(level) }) => level as nat,
        _ => 2,
    }
}

/// One argument of a function signature.
#[derive(Clone, Debug, PartialEq, Eq, PartialOrd, Ord)]
pub struct FuncArg {
    /// The name is missing for varargs ("...")
    pub name: Option<String>,
    pub lua_type: LuaType,
    pub view: String,
    pub start: u64,
    pub finish: u64,
}

/// A `FuncArg` as a mathematical value.
pub struct FuncArgView {
    pub name: Option<Seq<char>>,
    pub lua_type: LuaType,
    pub view: Seq<char>,
    pub start: u64,
    pub finish: u64,
}

impl View for FuncArg {
    type V = FuncArgView;

    open spec fn view(&self) -> FuncArgView {
        FuncArgView {
            name: opt_text(self.name),
            lua_type: self.lua_type,
            view: self.view@,
            start: self.start,
            finish: self.finish,
        }
    }
}


/// One value that a function returns.
#[derive(Clone, Debug, PartialEq, Eq, PartialOrd, Ord)]
pub struct FuncReturn {
    pub name: Option<String>,
    pub lua_type: LuaType,
    pub view: String,
}

/// A `FuncReturn` as a mathematical value.
pub struct FuncReturnView {
    pub name: Option<Seq<char>>,
    pub lua_type: LuaType,
    pub view: Seq<char>,
}

impl View for FuncReturn {
    type V = FuncReturnView;

    open spec fn view(&self) -> FuncReturnView {
        FuncReturnView {
            name: opt_text(self.name),
            lua_type: self.lua_type,
            view: self.view@,
        }
    }
}


/// The refinement of a place of definition.
#[derive(Clone, Debug, PartialEq, Eq, PartialOrd, Ord)]
pub struct Extend {
    pub start: u64,
    pub finish: u64,
    pub lua_type: LuaType,
    pub view: String,
    pub desc: Option<String>,
    pub rawdesc: Option<String>,
    /// Only present for functions (type = "function") with args
    pub args: Option<Vec<FuncArg>>,
    /// Only present for functions (type = "function") with returns
    pub returns: Option<Vec<FuncReturn>>,
}

/// An `Extend` as a mathematical value.
pub struct ExtendView {
    pub start: u64,
    pub finish: u64,
    pub lua_type: LuaType,
    pub view: Seq<char>,
    pub desc: Option<Seq<char>>,
    pub rawdesc: Option<Seq<char>>,
    pub args: Option<Seq<FuncArgView>>,
    pub returns: Option<Seq<FuncReturnView>>,
}

impl View for Extend {
    type V = ExtendView;

    open spec fn view(&self) -> ExtendView {
        ExtendView {
            start: self.start,
            finish: self.finish,
            lua_type: self.lua_type,
            view: self.view@,
            desc: opt_text(self.desc),
            rawdesc: opt_text(self.rawdesc),
            args: opt_views_of(self.args),
            returns: opt_views_of(self.returns),
        }
    }
}


/// One place in a source file where a name is defined.
#[derive(Clone, Debug, PartialEq, Eq, PartialOrd, Ord)]
pub struct Define {
    pub start: u64,
    pub finish: u64,
    pub lua_type: LuaType,
    pub file: String,
    pub extends: Extend,
}

/// A `Define` as a mathematical value.
pub struct DefineView {
    pub start: u64,
    pub finish: u64,
    pub lua_type: LuaType,
    pub file: Seq<char>,
    pub extends: ExtendView,
}

impl View for Define {
    type V = DefineView;

    open spec fn view(&self) -> DefineView {
        DefineView {
            start: self.start,
            finish: self.finish,
            lua_type: self.lua_type,
            file: self.file@,
            extends: self.extends@,
        }
    }
}


/// One documented name.
#[derive(Clone, Debug, PartialEq, Eq, PartialOrd, Ord)]
pub struct DocNode {
    pub desc: Option<String>,
    pub rawdesc: Option<String>,
    pub name: String,
    pub lua_type: LuaType,
    pub defines: Vec<Define>,
}

/// A `DocNode` as a mathematical value.
pub struct DocNodeView {
    pub desc: Option<Seq<char>>,
    pub rawdesc: Option<Seq<char>>,
    pub name: Seq<char>,
    pub lua_type: LuaType,
    pub defines: Seq<DefineView>,
}

impl View for DocNode {
    type V = DocNodeView;

    open spec fn view(&self) -> DocNodeView {
        DocNodeView {
            desc: opt_text(self.desc),
            rawdesc: opt_text(self.rawdesc),
            name: self.name@,
            lua_type: self.lua_type,
            defines: views_of(self.defines@),
        }
    }
}


/// One code block for the signature of each place of definition, in
/// order.
pub open spec fn signature_blocks(defines: Seq<DefineView>) -> Seq<char>
    decreases defines.len(),
{
    if defines.len() == 0 {
        Seq::empty()
    } else {
        signature_blocks(defines.drop_last()) + code_block(defines.last().extends.view)
    }
}

/// The Markdown of a node: the heading with the name, a blank line, the
/// description if there is one, and a code block for each place of
/// definition.
pub open spec fn node_markdown(level: nat, node: DocNodeView) -> Seq<char> {
    heading_marks(level) + " "@ + node.name + "\n\n"@ + description_block(node.desc)
        + signature_blocks(node.defines)
}

impl DocNode {
    /// Render the node to a markdown string. Never fails.
    pub fn markdown(&self, options: Option<MarkdownOptions>) -> (r: Result<
        String,
        std::fmt::Error,
    >)
        ensures
            r matches Ok(text) && text@ == node_markdown(level_of(options), self@),
    {
        let heading_level: u8 = match options {
            Some(MarkdownOptions { heading_level: Some(level) }) => level,
            _ => 2,
        };
        let mut out = String::new();
        let mut marks: u8 = 0;
        assert(heading_marks(0) =~= Seq::<char>::empty());
        while marks < heading_level
            invariant
                marks <= heading_level,
                out@ == heading_marks(marks as nat),
            decreases heading_level - marks,
        {
            proof {
                reveal_strlit("#");
                assert(heading_marks(marks as nat) + "#"@ =~= heading_marks((marks + 1) as nat));
            }
            out.append("#");
            marks += 1;
        }
        out.append(" ");
        out.append(self.name.as_str());
        out.append("\n\n");
        if let Some(desc) = &self.desc {
            out.append(desc.as_str());
            out.append("\n\n");
        }
        let ghost head = out@;
        let ghost all = views_of(self.defines@);
        let mut i: usize = 0;
        assert(all.take(0) =~= Seq::<DefineView>::empty());
        while i < self.defines.len()
            invariant
                i <= self.defines.len(),
                all == views_of(self.defines@),
                out@ == head + signature_blocks(all.take(i as int)),
            decreases self.defines.len() - i,
        {
            proof {
                assert(all.take(i + 1).drop_last() =~= all.take(i as int));
                assert(all.take(i + 1).last() == self.defines@[i as int]@);
            }
            out.append("```lua\n");
            out.append(self.defines[i].extends.view.as_str());
            out.append("\n```\n\n");
            i += 1;
        }
        assert(all.take(i as int) =~= all);
        Ok(out)
    }
}

/// An argument is an object with the members `name`, `type`, `view`,
/// `start` and `finish`, read in this order; `name` may be missing.
impl Record for FuncArg {
    open spec fn decoded(tree: JsonTree) -> Result<FuncArgView, DecodeError> {
        let name = opt_text_at(tree, "name"@);
        let lua_type = lua_type_at(tree);
        let view = text_at(tree, "view"@);
        let start = offset_at(tree, "start"@);
        let finish = offset_at(tree, "finish"@);
        if !(tree is Object) {
            Err(DecodeError::NotAnObject)
        } else if name is Err {
            Err(name->Err_0)
        } else if lua_type is Err {
            Err(lua_type->Err_0)
        } else if view is Err {
            Err(view->Err_0)
        } else if start is Err {
            Err(start->Err_0)
        } else if finish is Err {
            Err(finish->Err_0)
        } else {
            Ok(
                FuncArgView {
                    name: name->Ok_0,
                    lua_type: lua_type->Ok_0,
                    view: view->Ok_0,
                    start: start->Ok_0,
                    finish: finish->Ok_0,
                },
            )
        }
    }

    open spec fn encoded(value: FuncArgView) -> JsonTree {
        JsonTree::Object(
            seq![
                ("name"@, opt_text_tree(value.name)),
                ("type"@, JsonTree::Text(value.lua_type.tag())),
                ("view"@, JsonTree::Text(value.view)),
                ("start"@, JsonTree::Number(Some(value.start))),
                ("finish"@, JsonTree::Number(Some(value.finish))),
            ],
        )
    }

    fn from_json(json: &Json) -> (r: Result<Self, DecodeError>) {
        if !json.is_object() {
            return Err(DecodeError::NotAnObject);
        }
        let name = opt_text_member(json, "name")?;
        let lua_type = lua_type_member(json)?;
        let view = text_member(json, "view")?;
        let start = offset_member(json, "start")?;
        let finish = offset_member(json, "finish")?;
        Ok(FuncArg { name, lua_type, view, start, finish })
    }

    fn to_json(&self) -> (json: Json) {
        let mut members: Vec<(String, Json)> = Vec::new();
        members.push(("name".to_owned(), opt_text_json(&self.name)));
        members.push(("type".to_owned(), Json::Text(self.lua_type.name().to_owned())));
        members.push(("view".to_owned(), Json::Text(self.view.clone())));
        members.push(("start".to_owned(), Json::Number(Some(self.start))));
        members.push(("finish".to_owned(), Json::Number(Some(self.finish))));
        let json = Json::Object(members);
        proof {
            lemma_json_view(json);
            assert(entries_of(members@) =~= Self::encoded(self@)->Object_0);
        }
        json
    }

    proof fn lemma_round_trip(value: FuncArgView) {
        lemma_member_names();
        reveal_with_fuel(entry_of, 6);
        lemma_lua_type_round_trip(value.lua_type);
    }
}


/// A returned value is an object with the members `name`, `type` and
/// `view`, read in this order; `name` may be missing.
impl Record for FuncReturn {
    open spec fn decoded(tree: JsonTree) -> Result<FuncReturnView, DecodeError> {
        let name = opt_text_at(tree, "name"@);
        let lua_type = lua_type_at(tree);
        let view = text_at(tree, "view"@);
        if !(tree is Object) {
            Err(DecodeError::NotAnObject)
        } else if name is Err {
            Err(name->Err_0)
        } else if lua_type is Err {
            Err(lua_type->Err_0)
        } else if view is Err {
            Err(view->Err_0)
        } else {
            Ok(
                FuncReturnView {
                    name: name->Ok_0,
                    lua_type: lua_type->Ok_0,
                    view: view->Ok_0,
                },
            )
        }
    }

    open spec fn encoded(value: FuncReturnView) -> JsonTree {
        JsonTree::Object(
            seq![
                ("name"@, opt_text_tree(value.name)),
                ("type"@, JsonTree::Text(value.lua_type.tag())),
                ("view"@, JsonTree::Text(value.view)),
            ],
        )
    }

    fn from_json(json: &Json) -> (r: Result<Self, DecodeError>) {
        if !json.is_object() {
            return Err(DecodeError::NotAnObject);
        }
        let name = opt_text_member(json, "name")?;
        let lua_type = lua_type_member(json)?;
        let view = text_member(json, "view")?;
        Ok(FuncReturn { name, lua_type, view })
    }

    fn to_json(&self) -> (json: Json) {
        let mut members: Vec<(String, Json)> = Vec::new();
        members.push(("name".to_owned(), opt_text_json(&self.name)));
        members.push(("type".to_owned(), Json::Text(self.lua_type.name().to_owned())));
        members.push(("view".to_owned(), Json::Text(self.view.clone())));
        let json = Json::Object(members);
        proof {
            lemma_json_view(json);
            assert(entries_of(members@) =~= Self::encoded(self@)->Object_0);
        }
        json
    }

    proof fn lemma_round_trip(value: FuncReturnView) {
        lemma_member_names();
        reveal_with_fuel(entry_of, 4);
        lemma_lua_type_round_trip(value.lua_type);
    }
}


/// A refinement is an object with the members `start`, `finish`, `type`,
/// `view`, `desc`, `rawdesc`, `args` and `returns`, read in this order; the
/// last four may be missing.
impl Record for Extend {
    open spec fn decoded(tree: JsonTree) -> Result<ExtendView, DecodeError> {
        let start = offset_at(tree, "start"@);
        let finish = offset_at(tree, "finish"@);
        let lua_type = lua_type_at(tree);
        let view = text_at(tree, "view"@);
        let desc = opt_text_at(tree, "desc"@);
        let rawdesc = opt_text_at(tree, "rawdesc"@);
        let args = opt_records_at::<FuncArg>(tree, "args"@);
        let results = opt_records_at::<FuncReturn>(tree, "returns"@);
        if !(tree is Object) {
            Err(DecodeError::NotAnObject)
        } else if start is Err {
            Err(start->Err_0)
        } else if finish is Err {
            Err(finish->Err_0)
        } else if lua_type is Err {
            Err(lua_type->Err_0)
        } else if view is Err {
            Err(view->Err_0)
        } else if desc is Err {
            Err(desc->Err_0)
        } else if rawdesc is Err {
            Err(rawdesc->Err_0)
        } else if args is Err {
            Err(args->Err_0)
        } else if results is Err {
            Err(results->Err_0)
        } else {
            Ok(
                ExtendView {
                    start: start->Ok_0,
                    finish: finish->Ok_0,
                    lua_type: lua_type->Ok_0,
                    view: view->Ok_0,
                    desc: desc->Ok_0,
                    rawdesc: rawdesc->Ok_0,
                    args: args->Ok_0,
                    returns: results->Ok_0,
                },
            )
        }
    }

    open spec fn encoded(value: ExtendView) -> JsonTree {
        JsonTree::Object(
            seq![
                ("start"@, JsonTree::Number(Some(value.start))),
                ("finish"@, JsonTree::Number(Some(value.finish))),
                ("type"@, JsonTree::Text(value.lua_type.tag())),
                ("view"@, JsonTree::Text(value.view)),
                ("desc"@, opt_text_tree(value.desc)),
                ("rawdesc"@, opt_text_tree(value.rawdesc)),
                ("args"@, opt_records_tree::<FuncArg>(value.args)),
                ("returns"@, opt_records_tree::<FuncReturn>(value.returns)),
            ],
        )
    }

    fn from_json(json: &Json) -> (r: Result<Self, DecodeError>) {
        if !json.is_object() {
            return Err(DecodeError::NotAnObject);
        }
        let start = offset_member(json, "start")?;
        let finish = offset_member(json, "finish")?;
        let lua_type = lua_type_member(json)?;
        let view = text_member(json, "view")?;
        let desc = opt_text_member(json, "desc")?;
        let rawdesc = opt_text_member(json, "rawdesc")?;
        let args = opt_records_member::<FuncArg>(json, "args")?;
        let results = opt_records_member::<FuncReturn>(json, "returns")?;
        Ok(Extend { start, finish, lua_type, view, desc, rawdesc, args, returns: results })
    }

    fn to_json(&self) -> (json: Json) {
        let mut members: Vec<(String, Json)> = Vec::new();
        members.push(("start".to_owned(), Json::Number(Some(self.start))));
        members.push(("finish".to_owned(), Json::Number(Some(self.finish))));
        members.push(("type".to_owned(), Json::Text(self.lua_type.name().to_owned())));
        members.push(("view".to_owned(), Json::Text(self.view.clone())));
        members.push(("desc".to_owned(), opt_text_json(&self.desc)));
        members.push(("rawdesc".to_owned(), opt_text_json(&self.rawdesc)));
        members.push(("args".to_owned(), opt_records_json::<FuncArg>(&self.args)));
        members.push(("returns".to_owned(), opt_records_json::<FuncReturn>(&self.returns)));
        let json = Json::Object(members);
        proof {
            lemma_json_view(json);
            assert(entries_of(members@) =~= Self::encoded(self@)->Object_0);
        }
        json
    }

    proof fn lemma_round_trip(value: ExtendView) {
        lemma_member_names();
        reveal_with_fuel(entry_of, 9);
        lemma_lua_type_round_trip(value.lua_type);
        if value.args is Some {
            lemma_round_trip_all::<FuncArg>(value.args->0);
        }
        if value.returns is Some {
            lemma_round_trip_all::<FuncReturn>(value.returns->0);
        }
    }
}


/// A place of definition is an object with the members `start`,
/// `finish`, `type`, `file` and `extends`, read in this order; `extends`
/// is one refinement.
impl Record for Define {
    open spec fn decoded(tree: JsonTree) -> Result<DefineView, DecodeError> {
        let start = offset_at(tree, "start"@);
        let finish = offset_at(tree, "finish"@);
        let lua_type = lua_type_at(tree);
        let file = text_at(tree, "file"@);
        let extends = record_at::<Extend>(tree, "extends"@);
        if !(tree is Object) {
            Err(DecodeError::NotAnObject)
        } else if start is Err {
            Err(start->Err_0)
        } else if finish is Err {
            Err(finish->Err_0)
        } else if lua_type is Err {
            Err(lua_type->Err_0)
        } else if file is Err {
            Err(file->Err_0)
        } else if extends is Err {
            Err(extends->Err_0)
        } else {
            Ok(
                DefineView {
                    start: start->Ok_0,
                    finish: finish->Ok_0,
                    lua_type: lua_type->Ok_0,
                    file: file->Ok_0,
                    extends: extends->Ok_0,
                },
            )
        }
    }

    open spec fn encoded(value: DefineView) -> JsonTree {
        JsonTree::Object(
            seq![
                ("start"@, JsonTree::Number(Some(value.start))),
                ("finish"@, JsonTree::Number(Some(value.finish))),
                ("type"@, JsonTree::Text(value.lua_type.tag())),
                ("file"@, JsonTree::Text(value.file)),
                ("extends"@, Extend::encoded(value.extends)),
            ],
        )
    }

    fn from_json(json: &Json) -> (r: Result<Self, DecodeError>) {
        if !json.is_object() {
            return Err(DecodeError::NotAnObject);
        }
        let start = offset_member(json, "start")?;
        let finish = offset_member(json, "finish")?;
        let lua_type = lua_type_member(json)?;
        let file = text_member(json, "file")?;
        let extends = record_member::<Extend>(json, "extends")?;
        Ok(Define { start, finish, lua_type, file, extends })
    }

    fn to_json(&self) -> (json: Json) {
        let mut members: Vec<(String, Json)> = Vec::new();
        members.push(("start".to_owned(), Json::Number(Some(self.start))));
        members.push(("finish".to_owned(), Json::Number(Some(self.finish))));
        members.push(("type".to_owned(), Json::Text(self.lua_type.name().to_owned())));
        members.push(("file".to_owned(), Json::Text(self.file.clone())));
        members.push(("extends".to_owned(), self.extends.to_json()));
        let json = Json::Object(members);
        proof {
            lemma_json_view(json);
            assert(entries_of(members@) =~= Self::encoded(self@)->Object_0);
        }
        json
    }

    proof fn lemma_round_trip(value: DefineView) {
        lemma_member_names();
        reveal_with_fuel(entry_of, 6);
        lemma_lua_type_round_trip(value.lua_type);
        Extend::lemma_round_trip(value.extends);
    }
}


/// A node is an object with the members `desc`, `rawdesc`, `name`, `type`
/// and `defines`, read in this order; `desc` and `rawdesc` may be missing.
impl Record for DocNode {
    open spec fn decoded(tree: JsonTree) -> Result<DocNodeView, DecodeError> {
        let desc = opt_text_at(tree, "desc"@);
        let rawdesc = opt_text_at(tree, "rawdesc"@);
        let name = text_at(tree, "name"@);
        let lua_type = lua_type_at(tree);
        let defines = list_at::<Define>(tree, "defines"@);
        if !(tree is Object) {
            Err(DecodeError::NotAnObject)
        } else if desc is Err {
            Err(desc->Err_0)
        } else if rawdesc is Err {
            Err(rawdesc->Err_0)
        } else if name is Err {
            Err(name->Err_0)
        } else if lua_type is Err {
            Err(lua_type->Err_0)
        } else if defines is Err {
            Err(defines->Err_0)
        } else {
            Ok(
                DocNodeView {
                    desc: desc->Ok_0,
                    rawdesc: rawdesc->Ok_0,
                    name: name->Ok_0,
                    lua_type: lua_type->Ok_0,
                    defines: defines->Ok_0,
                },
            )
        }
    }

    open spec fn encoded(value: DocNodeView) -> JsonTree {
        JsonTree::Object(
            seq![
                ("desc"@, opt_text_tree(value.desc)),
                ("rawdesc"@, opt_text_tree(value.rawdesc)),
                ("name"@, JsonTree::Text(value.name)),
                ("type"@, JsonTree::Text(value.lua_type.tag())),
                ("defines"@, JsonTree::Array(encoded_all::<Define>(value.defines))),
            ],
        )
    }

    fn from_json(json: &Json) -> (r: Result<Self, DecodeError>) {
        if !json.is_object() {
            return Err(DecodeError::NotAnObject);
        }
        let desc = opt_text_member(json, "desc")?;
        let rawdesc = opt_text_member(json, "rawdesc")?;
        let name = text_member(json, "name")?;
        let lua_type = lua_type_member(json)?;
        let defines = list_member::<Define>(json, "defines")?;
        Ok(DocNode { desc, rawdesc, name, lua_type, defines })
    }

    fn to_json(&self) -> (json: Json) {
        let mut members: Vec<(String, Json)> = Vec::new();
        members.push(("desc".to_owned(), opt_text_json(&self.desc)));
        members.push(("rawdesc".to_owned(), opt_text_json(&self.rawdesc)));
        members.push(("name".to_owned(), Json::Text(self.name.clone())));
        members.push(("type".to_owned(), Json::Text(self.lua_type.name().to_owned())));
        members.push(("defines".to_owned(), encode_all::<Define>(&self.defines)));
        let json = Json::Object(members);
        proof {
            lemma_json_view(json);
            assert(entries_of(members@) =~= Self::encoded(self@)->Object_0);
        }
        json
    }

    proof fn lemma_round_trip(value: DocNodeView) {
        lemma_member_names();
        reveal_with_fuel(entry_of, 6);
        lemma_lua_type_round_trip(value.lua_type);
        lemma_round_trip_all::<Define>(value.defines);
    }
}


} // verus!
