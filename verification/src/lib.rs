//! A recursive-descent parser for the Tron scripting language, verified
//! against a grammar written as spec functions.

pub mod token;
pub mod ast;
pub mod grammar;
pub mod lemmas;
pub mod ids;
pub mod laws;
pub mod precedence;
pub mod parser;
