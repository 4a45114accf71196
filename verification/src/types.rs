//! The documentation records, under the names by which callers reach
//! them.

pub use crate::lua_cats::{Define, Definition, Extend, FuncArg, FuncReturn};
