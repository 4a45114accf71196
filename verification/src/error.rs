//! The errors of the library.

use vstd::prelude::*;
use crate::decode::DecodeError;

verus! {

/// Why documentation could not be read or laid out.
#[derive(Debug)]
pub enum Error {
    /// The language server did not run to a good end; with its exit code,
    /// which is missing where a signal ended the run.
    Exec(Option<i32>),
    /// The text is no JSON document; with the parser's message.
    JsonParse(String),
    /// The JSON document does not hold documentation records.
    Schema(DecodeError),
    /// A place of definition names a file by a URI that gives no file
    /// path.
    InvalidLocation,
}

} // verus!
