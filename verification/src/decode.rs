//! Reading documentation records out of a JSON document, and writing
//! them back.

use vstd::prelude::*;
use crate::json::{Json, JsonTree, entries_of, entry_of, lemma_json_view, trees_of};
use crate::lua_cats::{
    Define, DefineView, Definition, DefinitionType, DefinitionView, Extend, ExtendView, Field,
    FieldView, FuncArg, FuncArgView, FuncReturn, FuncReturnView, lemma_from_tag_spelling,
    lemma_tag_round_trip, opt_text, views_of,
};

verus! {

/// Why a document is no documentation record.
#[derive(Clone, Copy, Debug, PartialEq, Eq, Structural)]
pub enum DecodeError {
    /// A record was expected where the document holds no object.
    NotAnObject,
    /// A member that a record must have is missing.
    MissingField,
    /// A member, or the whole document, holds a value of the wrong shape.
    WrongType,
    /// A `type` member spells no known kind.
    UnknownKind,
}

/// The required text member `key` of `tree`.
pub open spec fn text_at(tree: JsonTree, key: Seq<char>) -> Result<Seq<char>, DecodeError> {
    match tree.field(key) {
        None => Err(DecodeError::MissingField),
        Some(JsonTree::Text(s)) => Ok(s),
        Some(_) => Err(DecodeError::WrongType),
    }
}

/// The optional text member `key` of `tree`: a missing member and `null`
/// both stand for no text.
pub open spec fn opt_text_at(tree: JsonTree, key: Seq<char>) -> Result<
    Option<Seq<char>>,
    DecodeError,
> {
    match tree.field(key) {
        None => Ok(None),
        Some(JsonTree::Null) => Ok(None),
        Some(JsonTree::Text(s)) => Ok(Some(s)),
        Some(_) => Err(DecodeError::WrongType),
    }
}

/// The required offset member `key` of `tree`.
pub open spec fn offset_at(tree: JsonTree, key: Seq<char>) -> Result<u64, DecodeError> {
    match tree.field(key) {
        None => Err(DecodeError::MissingField),
        Some(JsonTree::Number(Some(n))) => Ok(n),
        Some(_) => Err(DecodeError::WrongType),
    }
}

/// The kind that the required member `type` of `tree` spells.
pub open spec fn kind_at(tree: JsonTree) -> Result<DefinitionType, DecodeError> {
    match tree.field("type"@) {
        None => Err(DecodeError::MissingField),
        Some(JsonTree::Text(tag)) => match DefinitionType::from_tag(tag) {
            Some(kind) => Ok(kind),
            None => Err(DecodeError::UnknownKind),
        },
        Some(_) => Err(DecodeError::WrongType),
    }
}

/// The names of the members of a record: their lengths and the characters
/// that tell them apart, so that no two of them are the same name.
pub proof fn lemma_member_names()
    ensures
        "desc"@.len() == 4 && "desc"@[0] == 'd' && "desc"@[2] == 's',
        "rawdesc"@.len() == 7 && "rawdesc"@[0] == 'r' && "rawdesc"@[2] == 'w',
        "name"@.len() == 4 && "name"@[0] == 'n' && "name"@[2] == 'm',
        "type"@.len() == 4 && "type"@[0] == 't' && "type"@[2] == 'p',
        "defines"@.len() == 7 && "defines"@[0] == 'd' && "defines"@[2] == 'f',
        "fields"@.len() == 6 && "fields"@[0] == 'f' && "fields"@[2] == 'e',
        "start"@.len() == 5 && "start"@[0] == 's' && "start"@[2] == 'a',
        "finish"@.len() == 6 && "finish"@[0] == 'f' && "finish"@[2] == 'n',
        "file"@.len() == 4 && "file"@[0] == 'f' && "file"@[2] == 'l',
        "extends"@.len() == 7 && "extends"@[0] == 'e' && "extends"@[2] == 't',
        "view"@.len() == 4 && "view"@[0] == 'v' && "view"@[2] == 'e',
        "args"@.len() == 4 && "args"@[0] == 'a' && "args"@[2] == 'g',
        "returns"@.len() == 7 && "returns"@[0] == 'r' && "returns"@[2] == 't',
{
    reveal_strlit("desc");
    reveal_strlit("rawdesc");
    reveal_strlit("name");
    reveal_strlit("type");
    reveal_strlit("defines");
    reveal_strlit("fields");
    reveal_strlit("start");
    reveal_strlit("finish");
    reveal_strlit("file");
    reveal_strlit("extends");
    reveal_strlit("view");
    reveal_strlit("args");
    reveal_strlit("returns");
}

/// A record type that is read from a JSON document and written to one.
pub trait Record: View + Sized {
    /// The record that `tree` holds, or the reason it holds none.
    spec fn decoded(tree: JsonTree) -> Result<Self::V, DecodeError>;

    /// The document that holds `value`.
    spec fn encoded(value: Self::V) -> JsonTree;

    /// Reads a record from a document.
    fn from_json(json: &Json) -> (r: Result<Self, DecodeError>)
        ensures
            record_result(r) == Self::decoded(json@),
    ;

    /// Writes the record as a document.
    fn to_json(&self) -> (json: Json)
        ensures
            json@ == Self::encoded(self@),
    ;

    /// Writing a record and reading the document back gives the record
    /// again, every member as it was.
    proof fn lemma_round_trip(value: Self::V)
        ensures
            Self::decoded(Self::encoded(value)) == Ok::<Self::V, DecodeError>(value),
    ;
}

/// What the outcome of reading one record states: the record's view, or
/// the error.
pub open spec fn record_result<T: View>(r: Result<T, DecodeError>) -> Result<T::V, DecodeError> {
    match r {
        Ok(x) => Ok(x@),
        Err(e) => Err(e),
    }
}

/// What the outcome of reading a list of records states.
pub open spec fn list_result<T: View>(r: Result<Vec<T>, DecodeError>) -> Result<
    Seq<T::V>,
    DecodeError,
> {
    match r {
        Ok(items) => Ok(views_of(items@)),
        Err(e) => Err(e),
    }
}

/// The records that the documents `items` hold, in order; the error of the
/// first document that holds none.
pub open spec fn decoded_all<T: Record>(items: Seq<JsonTree>) -> Result<Seq<T::V>, DecodeError>
    decreases items.len(),
{
    if items.len() == 0 {
        Ok(Seq::empty())
    } else {
        match decoded_all::<T>(items.drop_last()) {
            Err(e) => Err(e),
            Ok(done) => match T::decoded(items.last()) {
                Err(e) => Err(e),
                Ok(x) => Ok(done.push(x)),
            },
        }
    }
}

/// The documents that hold `values`, in order.
pub open spec fn encoded_all<T: Record>(values: Seq<T::V>) -> Seq<JsonTree> {
    Seq::new(values.len(), |i: int| T::encoded(values[i]))
}

/// The records of the required list member `key` of `tree`.
pub open spec fn list_at<T: Record>(tree: JsonTree, key: Seq<char>) -> Result<
    Seq<T::V>,
    DecodeError,
> {
    match tree.field(key) {
        None => Err(DecodeError::MissingField),
        Some(JsonTree::Array(items)) => decoded_all::<T>(items),
        Some(_) => Err(DecodeError::WrongType),
    }
}

/// The records of the list member `key` of `tree`, where a missing member
/// stands for the empty list.
pub open spec fn opt_list_at<T: Record>(tree: JsonTree, key: Seq<char>) -> Result<
    Seq<T::V>,
    DecodeError,
> {
    match tree.field(key) {
        None => Ok(Seq::empty()),
        Some(JsonTree::Array(items)) => decoded_all::<T>(items),
        Some(_) => Err(DecodeError::WrongType),
    }
}

/// Reads the required text member `key`.
pub fn text_member(json: &Json, key: &str) -> (r: Result<String, DecodeError>)
    ensures
        record_result(r) == text_at(json@, key@),
{
    match json.get(key) {
        None => Err(DecodeError::MissingField),
        Some(Json::Text(s)) => Ok(s.clone()),
        Some(_) => Err(DecodeError::WrongType),
    }
}

/// Reads the optional text member `key`.
pub fn opt_text_member(json: &Json, key: &str) -> (r: Result<Option<String>, DecodeError>)
    ensures
        match r {
            Ok(text) => opt_text_at(json@, key@) == Ok::<Option<Seq<char>>, DecodeError>(
                opt_text(text),
            ),
            Err(e) => opt_text_at(json@, key@) == Err::<Option<Seq<char>>, DecodeError>(e),
        },
{
    match json.get(key) {
        None => Ok(None),
        Some(Json::Null) => Ok(None),
        Some(Json::Text(s)) => Ok(Some(s.clone())),
        Some(_) => Err(DecodeError::WrongType),
    }
}

/// Reads the required offset member `key`.
pub fn offset_member(json: &Json, key: &str) -> (r: Result<u64, DecodeError>)
    ensures
        r == offset_at(json@, key@),
{
    match json.get(key) {
        None => Err(DecodeError::MissingField),
        Some(Json::Number(Some(n))) => Ok(*n),
        Some(_) => Err(DecodeError::WrongType),
    }
}

/// Reads the kind that the member `type` spells.
pub fn kind_member(json: &Json) -> (r: Result<DefinitionType, DecodeError>)
    ensures
        r == kind_at(json@),
{
    match json.get("type") {
        None => Err(DecodeError::MissingField),
        Some(Json::Text(tag)) => match DefinitionType::parse(tag.as_str()) {
            Some(kind) => Ok(kind),
            None => Err(DecodeError::UnknownKind),
        },
        Some(_) => Err(DecodeError::WrongType),
    }
}

/// Reads one record from each document of `items`, stopping at the first
/// that holds none.
pub fn decode_all<T: Record>(items: &Vec<Json>) -> (r: Result<Vec<T>, DecodeError>)
    ensures
        list_result(r) == decoded_all::<T>(trees_of(items@)),
{
    let ghost trees = trees_of(items@);
    let mut out: Vec<T> = Vec::new();
    let mut i: usize = 0;
    assert(views_of(out@) =~= Seq::<T::V>::empty());
    while i < items.len()
        invariant
            i <= items.len(),
            trees == trees_of(items@),
            decoded_all::<T>(trees.take(i as int)) == Ok::<Seq<T::V>, DecodeError>(views_of(out@)),
        decreases items.len() - i,
    {
        proof {
            assert(trees.take(i + 1).drop_last() =~= trees.take(i as int));
            assert(trees.take(i + 1).last() == items@[i as int]@);
        }
        match T::from_json(&items[i]) {
            Err(e) => {
                proof {
                    lemma_decoded_all_fails_on::<T>(trees, i + 1);
                }
                return Err(e);
            },
            Ok(x) => {
                let ghost before = views_of(out@);
                out.push(x);
                assert(views_of(out@) =~= before.push(x@));
            },
        }
        i += 1;
    }
    assert(trees.take(i as int) =~= trees);
    Ok(out)
}

/// Once a prefix of the documents fails, the whole list fails the same way.
pub proof fn lemma_decoded_all_fails_on<T: Record>(items: Seq<JsonTree>, n: int)
    requires
        0 <= n <= items.len(),
        decoded_all::<T>(items.take(n)) is Err,
    ensures
        decoded_all::<T>(items) == decoded_all::<T>(items.take(n)),
    decreases items.len(),
{
    if n == items.len() {
        assert(items.take(n) =~= items);
    } else {
        assert(items.drop_last().take(n) =~= items.take(n));
        lemma_decoded_all_fails_on::<T>(items.drop_last(), n);
    }
}

/// Reads the records of the required list member `key`.
pub fn list_member<T: Record>(json: &Json, key: &str) -> (r: Result<Vec<T>, DecodeError>)
    ensures
        list_result(r) == list_at::<T>(json@, key@),
{
    match json.get(key) {
        None => Err(DecodeError::MissingField),
        Some(Json::Array(items)) => {
            proof {
                lemma_json_view(Json::Array(*items));
            }
            decode_all::<T>(items)
        },
        Some(_) => Err(DecodeError::WrongType),
    }
}

/// Reads the records of the list member `key`, empty where it is missing.
pub fn opt_list_member<T: Record>(json: &Json, key: &str) -> (r: Result<Vec<T>, DecodeError>)
    ensures
        list_result(r) == opt_list_at::<T>(json@, key@),
{
    match json.get(key) {
        None => {
            let empty: Vec<T> = Vec::new();
            assert(views_of(empty@) =~= Seq::<T::V>::empty());
            Ok(empty)
        },
        Some(Json::Array(items)) => {
            proof {
                lemma_json_view(Json::Array(*items));
            }
            decode_all::<T>(items)
        },
        Some(_) => Err(DecodeError::WrongType),
    }
}

/// A text as a document: `null` where there is none.
pub open spec fn opt_text_tree(text: Option<Seq<char>>) -> JsonTree {
    match text {
        Some(s) => JsonTree::Text(s),
        None => JsonTree::Null,
    }
}

/// Writes an optional text as a document.
pub fn opt_text_json(text: &Option<String>) -> (json: Json)
    ensures
        json@ == opt_text_tree(opt_text(*text)),
{
    match text {
        Some(s) => Json::Text(s.clone()),
        None => Json::Null,
    }
}

/// Writes each record of `items` as a document.
pub fn encode_all<T: Record>(items: &Vec<T>) -> (json: Json)
    ensures
        json@ == JsonTree::Array(encoded_all::<T>(views_of(items@))),
{
    let mut out: Vec<Json> = Vec::new();
    let mut i: usize = 0;
    while i < items.len()
        invariant
            i <= items.len(),
            out@.len() == i,
            forall|k: int| 0 <= k < i ==> (#[trigger] out@[k])@ == T::encoded(items@[k]@),
        decreases items.len() - i,
    {
        out.push(items[i].to_json());
        i += 1;
    }
    let json = Json::Array(out);
    proof {
        lemma_json_view(json);
        assert(trees_of(out@) =~= encoded_all::<T>(views_of(items@)));
    }
    json
}

/// The record of the required member `key` of `tree`.
pub open spec fn record_at<T: Record>(tree: JsonTree, key: Seq<char>) -> Result<T::V, DecodeError> {
    match tree.field(key) {
        None => Err(DecodeError::MissingField),
        Some(member) => T::decoded(member),
    }
}

/// The records of the optional list member `key` of `tree`: a missing
/// member and `null` both stand for no list.
pub open spec fn opt_records_at<T: Record>(tree: JsonTree, key: Seq<char>) -> Result<
    Option<Seq<T::V>>,
    DecodeError,
> {
    match tree.field(key) {
        None => Ok(None),
        Some(JsonTree::Null) => Ok(None),
        Some(JsonTree::Array(items)) => match decoded_all::<T>(items) {
            Ok(records) => Ok(Some(records)),
            Err(e) => Err(e),
        },
        Some(_) => Err(DecodeError::WrongType),
    }
}

/// The views of an optional list of values.
pub open spec fn opt_views_of<T: View>(items: Option<Vec<T>>) -> Option<Seq<T::V>> {
    match items {
        Some(list) => Some(views_of(list@)),
        None => None,
    }
}

/// What the outcome of reading an optional list of records states.
pub open spec fn opt_list_result<T: View>(r: Result<Option<Vec<T>>, DecodeError>) -> Result<
    Option<Seq<T::V>>,
    DecodeError,
> {
    match r {
        Ok(items) => Ok(opt_views_of(items)),
        Err(e) => Err(e),
    }
}

/// Reads the record of the required member `key`.
pub fn record_member<T: Record>(json: &Json, key: &str) -> (r: Result<T, DecodeError>)
    ensures
        record_result(r) == record_at::<T>(json@, key@),
{
    match json.get(key) {
        None => Err(DecodeError::MissingField),
        Some(member) => T::from_json(member),
    }
}

/// Reads the records of the optional list member `key`.
pub fn opt_records_member<T: Record>(json: &Json, key: &str) -> (r: Result<
    Option<Vec<T>>,
    DecodeError,
>)
    ensures
        opt_list_result(r) == opt_records_at::<T>(json@, key@),
{
    match json.get(key) {
        None => Ok(None),
        Some(Json::Null) => Ok(None),
        Some(Json::Array(items)) => {
            proof {
                lemma_json_view(Json::Array(*items));
            }
            match decode_all::<T>(items) {
                Ok(records) => Ok(Some(records)),
                Err(e) => Err(e),
            }
        },
        Some(_) => Err(DecodeError::WrongType),
    }
}

/// An optional list of records as a document: `null` where there is
/// none.
pub open spec fn opt_records_tree<T: Record>(values: Option<Seq<T::V>>) -> JsonTree {
    match values {
        Some(list) => JsonTree::Array(encoded_all::<T>(list)),
        None => JsonTree::Null,
    }
}

/// Writes an optional list of records as a document.
pub fn opt_records_json<T: Record>(items: &Option<Vec<T>>) -> (json: Json)
    ensures
        json@ == opt_records_tree::<T>(opt_views_of(*items)),
{
    match items {
        Some(list) => encode_all::<T>(list),
        None => Json::Null,
    }
}

/// Reading back the documents written for `values` gives `values`.
pub proof fn lemma_round_trip_all<T: Record>(values: Seq<T::V>)
    ensures
        decoded_all::<T>(encoded_all::<T>(values)) == Ok::<Seq<T::V>, DecodeError>(values),
    decreases values.len(),
{
    let trees = encoded_all::<T>(values);
    if values.len() == 0 {
        assert(values =~= Seq::<T::V>::empty());
    } else {
        assert(trees.drop_last() =~= encoded_all::<T>(values.drop_last()));
        lemma_round_trip_all::<T>(values.drop_last());
        T::lemma_round_trip(values.last());
        assert(values.drop_last().push(values.last()) =~= values);
    }
}

/// A returned value is an object with the members `name`, `type`, `view`,
/// `desc` and `rawdesc`, read in this order; `name`, `desc` and `rawdesc`
/// may be missing.
impl Record for FuncReturn {
    open spec fn decoded(tree: JsonTree) -> Result<FuncReturnView, DecodeError> {
        let name = opt_text_at(tree, "name"@);
        let lua_type = kind_at(tree);
        let view = text_at(tree, "view"@);
        let desc = opt_text_at(tree, "desc"@);
        let rawdesc = opt_text_at(tree, "rawdesc"@);
        if !(tree is Object) {
            Err(DecodeError::NotAnObject)
        } else if name is Err {
            Err(name->Err_0)
        } else if lua_type is Err {
            Err(lua_type->Err_0)
        } else if view is Err {
            Err(view->Err_0)
        } else if desc is Err {
            Err(desc->Err_0)
        } else if rawdesc is Err {
            Err(rawdesc->Err_0)
        } else {
            Ok(
                FuncReturnView {
                    name: name->Ok_0,
                    lua_type: lua_type->Ok_0,
                    view: view->Ok_0,
                    desc: desc->Ok_0,
                    rawdesc: rawdesc->Ok_0,
                },
            )
        }
    }

    open spec fn encoded(value: FuncReturnView) -> JsonTree {
        JsonTree::Object(
            seq![
                ("name"@, opt_text_tree(value.name)),
                ("type"@, JsonTree::Text(value.lua_type.tag())),
                ("view"@, JsonTree::Text(value.view)),
                ("desc"@, opt_text_tree(value.desc)),
                ("rawdesc"@, opt_text_tree(value.rawdesc)),
            ],
        )
    }

    fn from_json(json: &Json) -> (r: Result<Self, DecodeError>) {
        if !json.is_object() {
            return Err(DecodeError::NotAnObject);
        }
        let name = opt_text_member(json, "name")?;
        let lua_type = kind_member(json)?;
        let view = text_member(json, "view")?;
        let desc = opt_text_member(json, "desc")?;
        let rawdesc = opt_text_member(json, "rawdesc")?;
        Ok(FuncReturn { name, lua_type, view, desc, rawdesc })
    }

    fn to_json(&self) -> (json: Json) {
        let mut members: Vec<(String, Json)> = Vec::new();
        members.push(("name".to_owned(), opt_text_json(&self.name)));
        members.push(("type".to_owned(), Json::Text(self.lua_type.name().to_owned())));
        members.push(("view".to_owned(), Json::Text(self.view.clone())));
        members.push(("desc".to_owned(), opt_text_json(&self.desc)));
        members.push(("rawdesc".to_owned(), opt_text_json(&self.rawdesc)));
        let json = Json::Object(members);
        proof {
            lemma_json_view(json);
            assert(entries_of(members@) =~= Self::encoded(self@)->Object_0);
        }
        json
    }

    proof fn lemma_round_trip(value: FuncReturnView) {
        lemma_member_names();
        reveal_with_fuel(entry_of, 6);
        lemma_tag_round_trip(value.lua_type);
    }
}

/// An argument is an object with the members `name`, `type`, `desc`,
/// `rawdesc`, `view`, `start` and `finish`, read in this order; `name`,
/// `desc` and `rawdesc` may be missing.
impl Record for FuncArg {
    open spec fn decoded(tree: JsonTree) -> Result<FuncArgView, DecodeError> {
        let name = opt_text_at(tree, "name"@);
        let lua_type = kind_at(tree);
        let desc = opt_text_at(tree, "desc"@);
        let rawdesc = opt_text_at(tree, "rawdesc"@);
        let view = text_at(tree, "view"@);
        let start = offset_at(tree, "start"@);
        let finish = offset_at(tree, "finish"@);
        if !(tree is Object) {
            Err(DecodeError::NotAnObject)
        } else if name is Err {
            Err(name->Err_0)
        } else if lua_type is Err {
            Err(lua_type->Err_0)
        } else if desc is Err {
            Err(desc->Err_0)
        } else if rawdesc is Err {
            Err(rawdesc->Err_0)
        } else if view is Err {
            Err(view->Err_0)
        } else if start is Err {
            Err(start->Err_0)
        } else if finish is Err {
            Err(finish->Err_0)
        } else {
            Ok(
                FuncArgView {
                    name: name->Ok_0,
                    lua_type: lua_type->Ok_0,
                    desc: desc->Ok_0,
                    rawdesc: rawdesc->Ok_0,
                    view: view->Ok_0,
                    start: start->Ok_0,
                    finish: finish->Ok_0,
                },
            )
        }
    }

    open spec fn encoded(value: FuncArgView) -> JsonTree {
        JsonTree::Object(
            seq![
                ("name"@, opt_text_tree(value.name)),
                ("type"@, JsonTree::Text(value.lua_type.tag())),
                ("desc"@, opt_text_tree(value.desc)),
                ("rawdesc"@, opt_text_tree(value.rawdesc)),
                ("view"@, JsonTree::Text(value.view)),
                ("start"@, JsonTree::Number(Some(value.start))),
                ("finish"@, JsonTree::Number(Some(value.finish))),
            ],
        )
    }

    fn from_json(json: &Json) -> (r: Result<Self, DecodeError>) {
        if !json.is_object() {
            return Err(DecodeError::NotAnObject);
        }
        let name = opt_text_member(json, "name")?;
        let lua_type = kind_member(json)?;
        let desc = opt_text_member(json, "desc")?;
        let rawdesc = opt_text_member(json, "rawdesc")?;
        let view = text_member(json, "view")?;
        let start = offset_member(json, "start")?;
        let finish = offset_member(json, "finish")?;
        Ok(FuncArg { name, lua_type, desc, rawdesc, view, start, finish })
    }

    fn to_json(&self) -> (json: Json) {
        let mut members: Vec<(String, Json)> = Vec::new();
        members.push(("name".to_owned(), opt_text_json(&self.name)));
        members.push(("type".to_owned(), Json::Text(self.lua_type.name().to_owned())));
        members.push(("desc".to_owned(), opt_text_json(&self.desc)));
        members.push(("rawdesc".to_owned(), opt_text_json(&self.rawdesc)));
        members.push(("view".to_owned(), Json::Text(self.view.clone())));
        members.push(("start".to_owned(), Json::Number(Some(self.start))));
        members.push(("finish".to_owned(), Json::Number(Some(self.finish))));
        let json = Json::Object(members);
        proof {
            lemma_json_view(json);
            assert(entries_of(members@) =~= Self::encoded(self@)->Object_0);
        }
        json
    }

    proof fn lemma_round_trip(value: FuncArgView) {
        lemma_member_names();
        reveal_with_fuel(entry_of, 8);
        lemma_tag_round_trip(value.lua_type);
    }
}

/// The refinements that an `extends` member holds. The language server
/// leaves the member out, or writes `null`, one object, or an array of
/// objects: all of them are read as a list, empty for the first two.
pub open spec fn extends_of(member: Option<JsonTree>) -> Result<Seq<ExtendView>, DecodeError> {
    match member {
        None => Ok(Seq::empty()),
        Some(JsonTree::Null) => Ok(Seq::empty()),
        Some(JsonTree::Array(items)) => decoded_all::<Extend>(items),
        Some(JsonTree::Object(entries)) => match Extend::decoded(JsonTree::Object(entries)) {
            Ok(extend) => Ok(seq![extend]),
            Err(e) => Err(e),
        },
        Some(_) => Err(DecodeError::WrongType),
    }
}

/// Reads an `extends` member, whatever its shape, as a list.
pub fn deserialize_extends(member: Option<&Json>) -> (r: Result<Vec<Extend>, DecodeError>)
    ensures
        list_result(r) == extends_of(
            match member {
                Some(json) => Some(json@),
                None => None,
            },
        ),
{
    match member {
        None => {
            let empty: Vec<Extend> = Vec::new();
            assert(views_of(empty@) =~= Seq::<ExtendView>::empty());
            Ok(empty)
        },
        Some(Json::Null) => {
            let empty: Vec<Extend> = Vec::new();
            assert(views_of(empty@) =~= Seq::<ExtendView>::empty());
            Ok(empty)
        },
        Some(Json::Array(items)) => {
            proof {
                lemma_json_view(Json::Array(*items));
            }
            decode_all::<Extend>(items)
        },
        Some(Json::Object(entries)) => {
            let json = member.unwrap();
            let extend = Extend::from_json(json)?;
            let mut one: Vec<Extend> = Vec::new();
            one.push(extend);
            assert(views_of(one@) =~= seq![extend@]);
            Ok(one)
        },
        Some(_) => Err(DecodeError::WrongType),
    }
}

/// An `extends` member means the same list in each of its shapes: a
/// missing member, `null` and the empty array all mean the empty list, and
/// a single object means what the array of that one object means.
pub proof fn lemma_extends_shapes(extend: JsonTree)
    ensures
        extends_of(None) == Ok::<Seq<ExtendView>, DecodeError>(Seq::empty()),
        extends_of(Some(JsonTree::Null)) == extends_of(None),
        extends_of(Some(JsonTree::Array(Seq::empty()))) == extends_of(None),
        extend is Object ==> extends_of(Some(extend)) == extends_of(
            Some(JsonTree::Array(seq![extend])),
        ),
{
    let one = seq![extend];
    assert(one.drop_last() =~= Seq::<JsonTree>::empty());
    assert(one.last() == extend);
    reveal_with_fuel(decoded_all, 2);
    match Extend::decoded(extend) {
        Ok(x) => {
            assert(Seq::<ExtendView>::empty().push(x) =~= seq![x]);
        },
        Err(_) => {},
    }
}

/// A refinement is an object with the members `start`, `finish`, `type`,
/// `view`, `desc`, `rawdesc`, `args` and `returns`, read in this order; the
/// last four may be missing.
impl Record for Extend {
    open spec fn decoded(tree: JsonTree) -> Result<ExtendView, DecodeError> {
        let start = offset_at(tree, "start"@);
        let finish = offset_at(tree, "finish"@);
        let lua_type = kind_at(tree);
        let view = text_at(tree, "view"@);
        let desc = opt_text_at(tree, "desc"@);
        let rawdesc = opt_text_at(tree, "rawdesc"@);
        let args = opt_list_at::<FuncArg>(tree, "args"@);
        let results = opt_list_at::<FuncReturn>(tree, "returns"@);
        if !(tree is Object) {
            Err(DecodeError::NotAnObject)
        } else if start is Err {
            Err(start->Err_0)
        } else if finish is Err {
            Err(finish->Err_0)
        } else if lua_type is Err {
            Err(lua_type->Err_0)
        } else if view is Err {
            Err(view->Err_0)
        } else if desc is Err {
            Err(desc->Err_0)
        } else if rawdesc is Err {
            Err(rawdesc->Err_0)
        } else if args is Err {
            Err(args->Err_0)
        } else if results is Err {
            Err(results->Err_0)
        } else {
            Ok(
                ExtendView {
                    start: start->Ok_0,
                    finish: finish->Ok_0,
                    lua_type: lua_type->Ok_0,
                    view: view->Ok_0,
                    desc: desc->Ok_0,
                    rawdesc: rawdesc->Ok_0,
                    args: args->Ok_0,
                    returns: results->Ok_0,
                },
            )
        }
    }

    open spec fn encoded(value: ExtendView) -> JsonTree {
        JsonTree::Object(
            seq![
                ("start"@, JsonTree::Number(Some(value.start))),
                ("finish"@, JsonTree::Number(Some(value.finish))),
                ("type"@, JsonTree::Text(value.lua_type.tag())),
                ("view"@, JsonTree::Text(value.view)),
                ("desc"@, opt_text_tree(value.desc)),
                ("rawdesc"@, opt_text_tree(value.rawdesc)),
                ("args"@, JsonTree::Array(encoded_all::<FuncArg>(value.args))),
                ("returns"@, JsonTree::Array(encoded_all::<FuncReturn>(value.returns))),
            ],
        )
    }

    fn from_json(json: &Json) -> (r: Result<Self, DecodeError>) {
        if !json.is_object() {
            return Err(DecodeError::NotAnObject);
        }
        let start = offset_member(json, "start")?;
        let finish = offset_member(json, "finish")?;
        let lua_type = kind_member(json)?;
        let view = text_member(json, "view")?;
        let desc = opt_text_member(json, "desc")?;
        let rawdesc = opt_text_member(json, "rawdesc")?;
        let args = opt_list_member::<FuncArg>(json, "args")?;
        let results = opt_list_member::<FuncReturn>(json, "returns")?;
        Ok(Extend { start, finish, lua_type, view, desc, rawdesc, args, returns: results })
    }

    fn to_json(&self) -> (json: Json) {
        let mut members: Vec<(String, Json)> = Vec::new();
        members.push(("start".to_owned(), Json::Number(Some(self.start))));
        members.push(("finish".to_owned(), Json::Number(Some(self.finish))));
        members.push(("type".to_owned(), Json::Text(self.lua_type.name().to_owned())));
        members.push(("view".to_owned(), Json::Text(self.view.clone())));
        members.push(("desc".to_owned(), opt_text_json(&self.desc)));
        members.push(("rawdesc".to_owned(), opt_text_json(&self.rawdesc)));
        members.push(("args".to_owned(), encode_all::<FuncArg>(&self.args)));
        members.push(("returns".to_owned(), encode_all::<FuncReturn>(&self.returns)));
        let json = Json::Object(members);
        proof {
            lemma_json_view(json);
            assert(entries_of(members@) =~= Self::encoded(self@)->Object_0);
        }
        json
    }

    proof fn lemma_round_trip(value: ExtendView) {
        lemma_member_names();
        reveal_with_fuel(entry_of, 9);
        lemma_tag_round_trip(value.lua_type);
        lemma_round_trip_all::<FuncArg>(value.args);
        lemma_round_trip_all::<FuncReturn>(value.returns);
    }
}

/// A place of definition is an object with the members `start`,
/// `finish`, `type`, `file` and `extends`, read in this order; `extends`
/// has any of the shapes that `extends_of` reads.
impl Record for Define {
    open spec fn decoded(tree: JsonTree) -> Result<DefineView, DecodeError> {
        let start = offset_at(tree, "start"@);
        let finish = offset_at(tree, "finish"@);
        let lua_type = kind_at(tree);
        let file = text_at(tree, "file"@);
        let extends = extends_of(tree.field("extends"@));
        if !(tree is Object) {
            Err(DecodeError::NotAnObject)
        } else if start is Err {
            Err(start->Err_0)
        } else if finish is Err {
            Err(finish->Err_0)
        } else if lua_type is Err {
            Err(lua_type->Err_0)
        } else if file is Err {
            Err(file->Err_0)
        } else if extends is Err {
            Err(extends->Err_0)
        } else {
            Ok(
                DefineView {
                    start: start->Ok_0,
                    finish: finish->Ok_0,
                    lua_type: lua_type->Ok_0,
                    file: file->Ok_0,
                    extends: extends->Ok_0,
                },
            )
        }
    }

    open spec fn encoded(value: DefineView) -> JsonTree {
        JsonTree::Object(
            seq![
                ("start"@, JsonTree::Number(Some(value.start))),
                ("finish"@, JsonTree::Number(Some(value.finish))),
                ("type"@, JsonTree::Text(value.lua_type.tag())),
                ("file"@, JsonTree::Text(value.file)),
                ("extends"@, JsonTree::Array(encoded_all::<Extend>(value.extends))),
            ],
        )
    }

    fn from_json(json: &Json) -> (r: Result<Self, DecodeError>) {
        if !json.is_object() {
            return Err(DecodeError::NotAnObject);
        }
        let start = offset_member(json, "start")?;
        let finish = offset_member(json, "finish")?;
        let lua_type = kind_member(json)?;
        let file = text_member(json, "file")?;
        let extends = deserialize_extends(json.get("extends"))?;
        Ok(Define { start, finish, lua_type, file, extends })
    }

    fn to_json(&self) -> (json: Json) {
        let mut members: Vec<(String, Json)> = Vec::new();
        members.push(("start".to_owned(), Json::Number(Some(self.start))));
        members.push(("finish".to_owned(), Json::Number(Some(self.finish))));
        members.push(("type".to_owned(), Json::Text(self.lua_type.name().to_owned())));
        members.push(("file".to_owned(), Json::Text(self.file.clone())));
        members.push(("extends".to_owned(), encode_all::<Extend>(&self.extends)));
        let json = Json::Object(members);
        proof {
            lemma_json_view(json);
            assert(entries_of(members@) =~= Self::encoded(self@)->Object_0);
        }
        json
    }

    proof fn lemma_round_trip(value: DefineView) {
        lemma_member_names();
        reveal_with_fuel(entry_of, 6);
        lemma_tag_round_trip(value.lua_type);
        lemma_round_trip_all::<Extend>(value.extends);
    }
}

/// A field is an object with the members `name`, `desc`, `rawdesc`,
/// `start`, `finish`, `type`, `file` and `extends`, read in this order;
/// `desc` and `rawdesc` may be missing, and `extends` has any of the shapes
/// that `extends_of` reads.
impl Record for Field {
    open spec fn decoded(tree: JsonTree) -> Result<FieldView, DecodeError> {
        let name = text_at(tree, "name"@);
        let desc = opt_text_at(tree, "desc"@);
        let rawdesc = opt_text_at(tree, "rawdesc"@);
        let start = offset_at(tree, "start"@);
        let finish = offset_at(tree, "finish"@);
        let lua_type = kind_at(tree);
        let file = text_at(tree, "file"@);
        let extends = extends_of(tree.field("extends"@));
        if !(tree is Object) {
            Err(DecodeError::NotAnObject)
        } else if name is Err {
            Err(name->Err_0)
        } else if desc is Err {
            Err(desc->Err_0)
        } else if rawdesc is Err {
            Err(rawdesc->Err_0)
        } else if start is Err {
            Err(start->Err_0)
        } else if finish is Err {
            Err(finish->Err_0)
        } else if lua_type is Err {
            Err(lua_type->Err_0)
        } else if file is Err {
            Err(file->Err_0)
        } else if extends is Err {
            Err(extends->Err_0)
        } else {
            Ok(
                FieldView {
                    name: name->Ok_0,
                    desc: desc->Ok_0,
                    rawdesc: rawdesc->Ok_0,
                    start: start->Ok_0,
                    finish: finish->Ok_0,
                    lua_type: lua_type->Ok_0,
                    file: file->Ok_0,
                    extends: extends->Ok_0,
                },
            )
        }
    }

    open spec fn encoded(value: FieldView) -> JsonTree {
        JsonTree::Object(
            seq![
                ("name"@, JsonTree::Text(value.name)),
                ("desc"@, opt_text_tree(value.desc)),
                ("rawdesc"@, opt_text_tree(value.rawdesc)),
                ("start"@, JsonTree::Number(Some(value.start))),
                ("finish"@, JsonTree::Number(Some(value.finish))),
                ("type"@, JsonTree::Text(value.lua_type.tag())),
                ("file"@, JsonTree::Text(value.file)),
                ("extends"@, JsonTree::Array(encoded_all::<Extend>(value.extends))),
            ],
        )
    }

    fn from_json(json: &Json) -> (r: Result<Self, DecodeError>) {
        if !json.is_object() {
            return Err(DecodeError::NotAnObject);
        }
        let name = text_member(json, "name")?;
        let desc = opt_text_member(json, "desc")?;
        let rawdesc = opt_text_member(json, "rawdesc")?;
        let start = offset_member(json, "start")?;
        let finish = offset_member(json, "finish")?;
        let lua_type = kind_member(json)?;
        let file = text_member(json, "file")?;
        let extends = deserialize_extends(json.get("extends"))?;
        Ok(Field { name, desc, rawdesc, start, finish, lua_type, file, extends })
    }

    fn to_json(&self) -> (json: Json) {
        let mut members: Vec<(String, Json)> = Vec::new();
        members.push(("name".to_owned(), Json::Text(self.name.clone())));
        members.push(("desc".to_owned(), opt_text_json(&self.desc)));
        members.push(("rawdesc".to_owned(), opt_text_json(&self.rawdesc)));
        members.push(("start".to_owned(), Json::Number(Some(self.start))));
        members.push(("finish".to_owned(), Json::Number(Some(self.finish))));
        members.push(("type".to_owned(), Json::Text(self.lua_type.name().to_owned())));
        members.push(("file".to_owned(), Json::Text(self.file.clone())));
        members.push(("extends".to_owned(), encode_all::<Extend>(&self.extends)));
        let json = Json::Object(members);
        proof {
            lemma_json_view(json);
            assert(entries_of(members@) =~= Self::encoded(self@)->Object_0);
        }
        json
    }

    proof fn lemma_round_trip(value: FieldView) {
        lemma_member_names();
        reveal_with_fuel(entry_of, 9);
        lemma_tag_round_trip(value.lua_type);
        lemma_round_trip_all::<Extend>(value.extends);
    }
}

/// A definition is an object with the members `desc`, `rawdesc`, `name`,
/// `type`, `defines` and `fields`, read in this order; `desc`, `rawdesc`
/// and `fields` may be missing.
impl Record for Definition {
    open spec fn decoded(tree: JsonTree) -> Result<DefinitionView, DecodeError> {
        let desc = opt_text_at(tree, "desc"@);
        let rawdesc = opt_text_at(tree, "rawdesc"@);
        let name = text_at(tree, "name"@);
        let lua_type = kind_at(tree);
        let defines = list_at::<Define>(tree, "defines"@);
        let fields = opt_list_at::<Field>(tree, "fields"@);
        if !(tree is Object) {
            Err(DecodeError::NotAnObject)
        } else if desc is Err {
            Err(desc->Err_0)
        } else if rawdesc is Err {
            Err(rawdesc->Err_0)
        } else if name is Err {
            Err(name->Err_0)
        } else if lua_type is Err {
            Err(lua_type->Err_0)
        } else if defines is Err {
            Err(defines->Err_0)
        } else if fields is Err {
            Err(fields->Err_0)
        } else {
            Ok(
                DefinitionView {
                    desc: desc->Ok_0,
                    rawdesc: rawdesc->Ok_0,
                    name: name->Ok_0,
                    lua_type: lua_type->Ok_0,
                    defines: defines->Ok_0,
                    fields: fields->Ok_0,
                },
            )
        }
    }

    open spec fn encoded(value: DefinitionView) -> JsonTree {
        JsonTree::Object(
            seq![
                ("desc"@, opt_text_tree(value.desc)),
                ("rawdesc"@, opt_text_tree(value.rawdesc)),
                ("name"@, JsonTree::Text(value.name)),
                ("type"@, JsonTree::Text(value.lua_type.tag())),
                ("defines"@, JsonTree::Array(encoded_all::<Define>(value.defines))),
                ("fields"@, JsonTree::Array(encoded_all::<Field>(value.fields))),
            ],
        )
    }

    fn from_json(json: &Json) -> (r: Result<Self, DecodeError>) {
        if !json.is_object() {
            return Err(DecodeError::NotAnObject);
        }
        let desc = opt_text_member(json, "desc")?;
        let rawdesc = opt_text_member(json, "rawdesc")?;
        let name = text_member(json, "name")?;
        let lua_type = kind_member(json)?;
        let defines = list_member::<Define>(json, "defines")?;
        let fields = opt_list_member::<Field>(json, "fields")?;
        Ok(Definition { desc, rawdesc, name, lua_type, defines, fields })
    }

    fn to_json(&self) -> (json: Json) {
        let mut members: Vec<(String, Json)> = Vec::new();
        members.push(("desc".to_owned(), opt_text_json(&self.desc)));
        members.push(("rawdesc".to_owned(), opt_text_json(&self.rawdesc)));
        members.push(("name".to_owned(), Json::Text(self.name.clone())));
        members.push(("type".to_owned(), Json::Text(self.lua_type.name().to_owned())));
        members.push(("defines".to_owned(), encode_all::<Define>(&self.defines)));
        members.push(("fields".to_owned(), encode_all::<Field>(&self.fields)));
        let json = Json::Object(members);
        proof {
            lemma_json_view(json);
            assert(entries_of(members@) =~= Self::encoded(self@)->Object_0);
        }
        json
    }

    proof fn lemma_round_trip(value: DefinitionView) {
        lemma_member_names();
        reveal_with_fuel(entry_of, 7);
        lemma_tag_round_trip(value.lua_type);
        lemma_round_trip_all::<Define>(value.defines);
        lemma_round_trip_all::<Field>(value.fields);
    }
}


/// The definitions that a document holds: it is an array with one
/// object for each.
pub open spec fn definitions_of(tree: JsonTree) -> Result<Seq<DefinitionView>, DecodeError> {
    match tree {
        JsonTree::Array(items) => decoded_all::<Definition>(items),
        _ => Err(DecodeError::WrongType),
    }
}

/// Reads the definitions that a document holds.
pub fn decode_definitions(json: &Json) -> (r: Result<Vec<Definition>, DecodeError>)
    ensures
        list_result(r) == definitions_of(json@),
{
    match json {
        Json::Array(items) => {
            proof {
                lemma_json_view(*json);
            }
            decode_all::<Definition>(items)
        },
        _ => Err(DecodeError::WrongType),
    }
}

/// A definition that was read from a document is read again from the
/// document that it is written as, every member as it was read; and that
/// document spells the kind of the definition as the document read did.
pub proof fn lemma_read_write_read(tree: JsonTree)
    requires
        Definition::decoded(tree) is Ok,
    ensures
        Definition::decoded(Definition::encoded(Definition::decoded(tree)->Ok_0))
            == Definition::decoded(tree),
        Definition::encoded(Definition::decoded(tree)->Ok_0).field("type"@) == tree.field(
            "type"@,
        ),
{
    let definition = Definition::decoded(tree)->Ok_0;
    Definition::lemma_round_trip(definition);
    let tag = tree.field("type"@)->0->Text_0;
    assert(tree.field("type"@) == Some(JsonTree::Text(tag)) && DefinitionType::from_tag(tag)
        == Some(definition.lua_type));
    lemma_from_tag_spelling(tag);
    lemma_kind_as_written(definition);
}

/// The document that a definition is written as spells its kind in the
/// member `type`.
proof fn lemma_kind_as_written(definition: DefinitionView)
    ensures
        Definition::encoded(definition).field("type"@) == Some(
            JsonTree::Text(definition.lua_type.tag()),
        ),
{
    lemma_member_names();
    reveal_with_fuel(entry_of, 5);
}

} // verus!
