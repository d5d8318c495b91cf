use vstd::prelude::*;

verus! {

/// A classified unit of source text: its kind, the exact source text it was
/// scanned from, and the line on which scanning of it began.
#[derive(Clone, Debug)]
pub struct Token<'a> {
    pub kind: TokenKind,
    /// The exact source text that produced this token.
    pub lexeme: &'a str,
    pub line: usize,
}

impl<'a> Token<'a> {
    pub fn new(kind: TokenKind, lexeme: &'a str, line: usize) -> (r: Self)
        ensures
            r.kind == kind,
            r.lexeme == lexeme,
            r.line == line,
    {
        Token { kind, lexeme, line }
    }
}

#[derive(Clone, Debug, PartialEq)]
pub enum TokenKind {
    /// "("
    LeftParen,
    /// ")"
    RightParen,
    /// "{"
    LeftBrace,
    /// "}"
    RightBrace,
    /// ","
    Comma,
    /// "."
    Dot,
    /// "-"
    Minus,
    /// "+"
    Plus,
    /// ";"
    Semi,
    /// "/"
    Slash,
    /// "*"
    Star,
    // One or two character tokens.
    /// "!"
    Bang,
    /// "!="
    BangEqual,
    /// "="
    Equal,
    /// "=="
    EqualEqual,
    /// ">"
    Greater,
    /// ">="
    GreaterEqual,
    /// "<"
    Less,
    /// "<="
    LessEqual,
    // Literals.
    /// Variable, function and class names.
    Identifier(String),
    /// Double quoted string, without its quotes: "abc" holds `abc`.
    String(String),
    /// A number literal, as written in the source: digits, optionally
    /// followed by a dot and more digits. Its value is the decimal it spells.
    Number(String),
    // Keywords.
    /// Keyword "and"
    And,
    /// Keyword "class"
    Class,
    /// Keyword "else"
    Else,
    /// Keyword (boolean) "false"
    False,
    /// Keyword "fun"
    Fun,
    /// Keyword "for"
    For,
    /// Keyword "if"
    If,
    /// Keyword "nil"
    Nil,
    /// Keyword "or"
    Or,
    /// Keyword "print"
    Print,
    /// Keyword "return"
    Return,
    /// Keyword "super"
    Super,
    /// Keyword "this"
    This,
    /// Keyword "true"
    True,
    /// Keyword "var"
    Var,
    /// Keyword "while"
    While,
    /// End of input
    Eof,
}

/// Two kinds are the same when their variants agree and, for the variants
/// that carry text, the texts are equal.
pub open spec fn same_kind(a: TokenKind, b: TokenKind) -> bool {
    match (a, b) {
        (TokenKind::Identifier(x), TokenKind::Identifier(y)) => x@ == y@,
        (TokenKind::String(x), TokenKind::String(y)) => x@ == y@,
        (TokenKind::Number(x), TokenKind::Number(y)) => x@ == y@,
        _ => a == b,
    }
}

} // verus!
