//! The shape of a JSON document, as far as the record decoder reads it.

use vstd::prelude::*;
use crate::text::str_eq;

verus! {

/// A JSON document as a mathematical value.
///
/// A number is kept only where it is an integer that fits `u64`, the one
/// kind of number a documentation record holds; every other number is
/// `Number(None)`.
pub enum JsonTree {
    Null,
    Bool(bool),
    Number(Option<u64>),
    Text(Seq<char>),
    Array(Seq<JsonTree>),
    Object(Seq<(Seq<char>, JsonTree)>),
}

/// The value of the first entry of `entries` whose key is `key`.
pub open spec fn entry_of(entries: Seq<(Seq<char>, JsonTree)>, key: Seq<char>) -> Option<JsonTree>
    decreases entries.len(),
{
    if entries.len() == 0 {
        None
    } else if entries[0].0 == key {
        Some(entries[0].1)
    } else {
        entry_of(entries.drop_first(), key)
    }
}

impl JsonTree {
    /// The member `key` of an object; `None` for a missing member and for
    /// a document that is no object.
    pub open spec fn field(self, key: Seq<char>) -> Option<JsonTree> {
        match self {
            JsonTree::Object(entries) => entry_of(entries, key),
            _ => None,
        }
    }
}

/// A JSON document held in memory.
#[derive(Debug, PartialEq, Eq)]
pub enum Json {
    Null,
    Bool(bool),
    /// An integer that fits `u64`, or `None` for any other number.
    Number(Option<u64>),
    Text(String),
    Array(Vec<Json>),
    /// The members of an object with their keys, in the order held.
    Object(Vec<(String, Json)>),
}

/// The documents that a sequence of documents in memory stands for.
pub open spec fn trees_of(items: Seq<Json>) -> Seq<JsonTree> {
    Seq::new(items.len(), |i: int| items[i]@)
}

/// The entries that a sequence of entries in memory stands for.
pub open spec fn entries_of(entries: Seq<(String, Json)>) -> Seq<(Seq<char>, JsonTree)> {
    Seq::new(entries.len(), |i: int| (entries[i].0@, entries[i].1@))
}

impl Json {
    /// The document that this value stands for.
    pub open spec fn tree(self) -> JsonTree
        decreases self,
    {
        match self {
            Json::Null => JsonTree::Null,
            Json::Bool(b) => JsonTree::Bool(b),
            Json::Number(n) => JsonTree::Number(n),
            Json::Text(s) => JsonTree::Text(s@),
            Json::Array(items) => JsonTree::Array(
                Seq::new(
                    items@.len(),
                    |i: int|
                        if 0 <= i < items@.len() {
                            items@[i].tree()
                        } else {
                            JsonTree::Null
                        },
                ),
            ),
            Json::Object(entries) => JsonTree::Object(
                Seq::new(
                    entries@.len(),
                    |i: int|
                        if 0 <= i < entries@.len() {
                            (entries@[i].0@, entries@[i].1.tree())
                        } else {
                            (Seq::empty(), JsonTree::Null)
                        },
                ),
            ),
        }
    }
}

impl View for Json {
    type V = JsonTree;

    open spec fn view(&self) -> JsonTree {
        self.tree()
    }
}

/// The view of an array is the sequence of its items' views, and that of
/// an object the sequence of its entries' views.
pub proof fn lemma_json_view(j: Json)
    ensures
        j matches Json::Array(items) ==> j@ == JsonTree::Array(trees_of(items@)),
        j matches Json::Object(entries) ==> j@ == JsonTree::Object(entries_of(entries@)),
{
    match j {
        Json::Array(items) => {
            assert(j@->Array_0 =~= trees_of(items@));
        },
        Json::Object(entries) => {
            assert(j@->Object_0 =~= entries_of(entries@));
        },
        _ => {},
    }
}

/// `serde_json::Value`: a value of it is carried from `value_from_text`
/// to `json_from_value`, and read nowhere else.
#[verifier::external_type_specification]
#[verifier::external_body]
pub struct ExJsonValue(serde_json::Value);

/// The document that `serde_json::from_str` reads from a text as a
/// `serde_json::Value`; `None` where it refuses the text.
pub uninterp spec fn json_text_tree(text: Seq<char>) -> Option<JsonTree>;

/// The document that a `serde_json::Value` holds.
pub uninterp spec fn value_tree(value: serde_json::Value) -> JsonTree;

/// `serde_json::from_str`, asked for a `serde_json::Value`. It succeeds on
/// the texts that `json_text_tree` gives a document for, and the value it
/// returns holds that document. Where it fails, the outcome carries the
/// message of its error, of which nothing is claimed.
#[verifier::external_body]
fn value_from_text(text: &str) -> (r: Result<serde_json::Value, String>)
    ensures
        r is Ok <==> json_text_tree(text@) is Some,
        r matches Ok(value) ==> json_text_tree(text@) == Some(value_tree(value)),
{
    match serde_json::from_str::<serde_json::Value>(text) {
        Ok(value) => Ok(value),
        Err(e) => Err(e.to_string()),
    }
}

/// Moves a `serde_json::Value` into a `Json`, variant by variant: the
/// members of an object in the order in which its `Map` hands them out, a
/// number as what `Number::as_u64` returns. The result stands for the
/// document that the value holds.
#[verifier::external_body]
fn json_from_value(value: serde_json::Value) -> (json: Json)
    ensures
        json@ == value_tree(value),
{
    match value {
        serde_json::Value::Null => Json::Null,
        serde_json::Value::Bool(b) => Json::Bool(b),
        serde_json::Value::Number(n) => Json::Number(n.as_u64()),
        serde_json::Value::String(s) => Json::Text(s),
        serde_json::Value::Array(items) => Json::Array(
            items.into_iter().map(json_from_value).collect(),
        ),
        serde_json::Value::Object(members) => Json::Object(
            members.into_iter().map(|(key, member)| (key, json_from_value(member))).collect(),
        ),
    }
}

impl Json {
    /// Reads a document from JSON text; the error is the parser's message.
    pub fn parse(text: &str) -> (r: Result<Json, String>)
        ensures
            match json_text_tree(text@) {
                Some(tree) => r matches Ok(json) && json@ == tree,
                None => r is Err,
            },
    {
        match value_from_text(text) {
            Ok(value) => Ok(json_from_value(value)),
            Err(e) => Err(e),
        }
    }

    /// Whether the document is an object.
    pub fn is_object(&self) -> (yes: bool)
        ensures
            yes == (self@ is Object),
    {
        match self {
            Json::Object(_) => true,
            _ => false,
        }
    }

    /// The member `key` of an object, the first where the key occurs
    /// twice.
    pub fn get(&self, key: &str) -> (found: Option<&Json>)
        ensures
            match self@.field(key@) {
                Some(tree) => found matches Some(j) && j@ == tree,
                None => found is None,
            },
    {
        match self {
            Json::Object(entries) => {
                proof {
                    lemma_json_view(*self);
                }
                let ghost all = entries_of(entries@);
                let mut i: usize = 0;
                assert(all.skip(0) =~= all);
                while i < entries.len()
                    invariant
                        i <= entries.len(),
                        all == entries_of(entries@),
                        self@.field(key@) == entry_of(all, key@),
                        entry_of(all, key@) == entry_of(all.skip(i as int), key@),
                    decreases entries.len() - i,
                {
                    proof {
                        let rest = all.skip(i as int);
                        assert(rest[0] == all[i as int]);
                        assert(rest.drop_first() =~= all.skip(i + 1));
                    }
                    if str_eq(entries[i].0.as_str(), key) {
                        assert(all[i as int].0 == key@);
                        assert(all[i as int].1 == entries[i as int].1@);
                        return Some(&entries[i].1);
                    }
                    i += 1;
                }
                None
            },
            _ => None,
        }
    }
}

} // verus!
