use vstd::prelude::*;

verus! {

/// Marks a sub-database that holds several sorted values per key (DUPSORT).
pub struct Dup();

/// Marks a sub-database that holds one value per key.
pub struct One();

} // verus!
