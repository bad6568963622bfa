//! The verified core of a wrapper of libmdbx: the `mdbx!` declaration
//! language, the stored forms of keys and values, the decisions of cursor
//! walks, and the meaning of libmdbx's result codes.
use vstd::prelude::*;

pub mod db;
pub mod env;
pub mod err;
pub mod text;
pub mod schema;
pub mod types;
pub mod val;
pub mod walk;

verus! {

} // verus!
