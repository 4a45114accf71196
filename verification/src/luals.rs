//! Reading what the Lua language server writes.

use vstd::prelude::*;
use crate::decode::{DecodeError, decode_definitions, definitions_of};
use crate::error::Error;
use crate::json::{Json, json_text_tree};
use crate::lua_cats::{Definition, DefinitionView, views_of};

verus! {

/// The definitions that the text of a `doc.json` holds, or which of the
/// two ways of failing it fails in.
pub open spec fn docs_of(json_doc: Seq<char>) -> Option<Result<Seq<DefinitionView>, DecodeError>> {
    match json_text_tree(json_doc) {
        Some(tree) => Some(definitions_of(tree)),
        None => None,
    }
}

/// Reads the definitions out of the text of the `doc.json` that the
/// language server wrote.
///
/// Fails with `Error::JsonParse` where the text is no JSON document, and
/// with `Error::Schema` where the document is no array of definitions.
pub fn parse_docs(json_doc: &str) -> (r: Result<Vec<Definition>, Error>)
    ensures
        match docs_of(json_doc@) {
            Some(Ok(definitions)) => r matches Ok(found) && views_of(found@) == definitions,
            Some(Err(e)) => r matches Err(Error::Schema(reason)) && reason == e,
            None => r matches Err(Error::JsonParse(_)),
        },
{
    match Json::parse(json_doc) {
        Err(e) => Err(Error::JsonParse(e)),
        Ok(json) => match decode_definitions(&json) {
            Ok(found) => Ok(found),
            Err(e) => Err(Error::Schema(e)),
        },
    }
}

/// Reads what a run of the language server left: a run that did not
/// succeed is a failure, with its exit code, whatever it wrote; after a
/// run that succeeded, the text of its `doc.json` is read as `parse_docs`
/// reads it.
pub fn docs_of_run(succeeded: bool, code: Option<i32>, json_doc: &str) -> (r: Result<
    Vec<Definition>,
    Error,
>)
    ensures
        if succeeded {
            match docs_of(json_doc@) {
                Some(Ok(definitions)) => r matches Ok(found) && views_of(found@) == definitions,
                Some(Err(e)) => r matches Err(Error::Schema(reason)) && reason == e,
                None => r matches Err(Error::JsonParse(_)),
            }
        } else {
            r matches Err(Error::Exec(reported)) && reported == code
        },
{
    if !succeeded {
        return Err(Error::Exec(code));
    }
    parse_docs(json_doc)
}

} // verus!
