//! The predicate store and the unification/resolution engine over it.

pub mod database;
pub mod laws;
pub mod query;
