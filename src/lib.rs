//! The lexical front end of the Lox scripting language: it turns source text
//! into tokens, each with its text and line, and collects lexical errors
//! instead of stopping at the first.
//!
//! `grammar` states what scanning produces, as spec functions over the
//! characters of the source; `scanner` scans, and is proved to produce
//! exactly that; `laws` proves properties of the result.

pub mod encoding;
pub mod grammar;
pub mod laws;
pub mod lox;
pub mod scanner;
pub mod token;
