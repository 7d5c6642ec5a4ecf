//! A deductive database engine: a store of typed fact tuples and derivation
//! rules over named predicates, queried by unification-based resolution with
//! conjunction, negation-as-failure, and comparison filters.

pub mod ast;
pub mod interpreter;
pub mod types;
