//! Sub-databases: the kinds of sub-database.
pub mod kind;
