//! A small logic-programming kernel: terms, substitutions, clauses and a
//! resolution engine that answers queries against asserted statements.
pub mod term;
pub mod sub;
pub mod clause;
pub mod scheme;
pub mod env;
pub mod render;
pub mod intern;
