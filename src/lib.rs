//! A lexical scanner for a small scripting language: it turns source text
//! into a sequence of typed tokens, or reports every lexical error it meets.
//!
//! `grammar` states the lexical rules as spec functions, `scanner` reads
//! text by them, and `token` holds the data model the scanner fills.
pub mod grammar;
pub mod scanner;
pub mod token;
