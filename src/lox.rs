use vstd::prelude::*;

use crate::scanner::{scans_to, tokenize, LoxError};
use crate::token::{Token, TokenKind};

verus! {

/// The interpreter's state between runs: whether the last run found errors.
#[derive(Debug)]
pub struct Lox {
    pub had_error: bool,
}

impl Lox {
    pub fn new() -> (r: Self)
        ensures
            !r.had_error,
    {
        Lox { had_error: false }
    }

    /// Scans `source`, and records whether that found any lexical error.
    pub fn run<'a>(&mut self, source: &'a str) -> (r: (Vec<Token<'a>>, Vec<LoxError>))
        requires
            source@.len() < usize::MAX,
        ensures
            scans_to(source@, r.0@, r.1@),
            r.0@.len() >= 1,
            r.0@.last().kind == TokenKind::Eof,
            final(self).had_error == (r.1@.len() > 0),
    {
        let (tokens, errors) = tokenize(source);
        self.had_error = errors.len() > 0;
        (tokens, errors)
    }
}

} // verus!
