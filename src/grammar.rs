use vstd::prelude::*;

use crate::token::TokenKind;

verus! {

/// An ASCII decimal digit.
pub open spec fn is_digit(c: char) -> bool {
    '0' <= c && c <= '9'
}

/// An ASCII letter.
pub open spec fn is_alpha(c: char) -> bool {
    ('a' <= c && c <= 'z') || ('A' <= c && c <= 'Z')
}

/// An ASCII letter or digit: what an identifier continues with.
pub open spec fn is_alnum(c: char) -> bool {
    is_alpha(c) || is_digit(c)
}

/// Whether `s` holds `c` at index `i`.
pub open spec fn at(s: Seq<char>, i: int, c: char) -> bool {
    0 <= i < s.len() && s[i] == c
}

/// The runs of characters that the scanner consumes in one sweep.
#[derive(Clone, Copy)]
pub enum Run {
    /// Letters and digits (the rest of an identifier).
    Alnum,
    /// Digits (a part of a number).
    Digits,
    /// Anything but a newline (the body of a line comment).
    NotNewline,
    /// Anything but a double quote (the body of a string).
    NotQuote,
}

pub open spec fn in_run(r: Run, c: char) -> bool {
    match r {
        Run::Alnum => is_alnum(c),
        Run::Digits => is_digit(c),
        Run::NotNewline => c != '\n',
        Run::NotQuote => c != '"',
    }
}

/// The first index from `i` on at which the run `r` stops (or the end of `s`).
pub open spec fn skip_run(s: Seq<char>, i: int, r: Run) -> int
    decreases s.len() - i,
{
    if 0 <= i < s.len() && in_run(r, s[i]) {
        skip_run(s, i + 1, r)
    } else {
        i
    }
}

/// The number of newlines in `s[a..b)`.
pub open spec fn count_newlines(s: Seq<char>, a: int, b: int) -> nat
    decreases b - a,
{
    if b <= a {
        0
    } else {
        count_newlines(s, a, b - 1) + if s[b - 1] == '\n' {
            1nat
        } else {
            0nat
        }
    }
}

/// Scanning a block comment body from index `j`, with `depth` levels open and
/// the line counter at `line`: the index after the comment, the line counter
/// there, and whether every level was closed before the end of input.
pub open spec fn comment_end(s: Seq<char>, j: int, depth: nat, line: nat) -> (int, nat, bool)
    decreases s.len() - j,
{
    if j < 0 || j >= s.len() {
        (s.len() as int, line, false)
    } else if s[j] == '*' && at(s, j + 1, '/') {
        if depth <= 1 {
            (j + 2, line, true)
        } else {
            comment_end(s, j + 2, (depth - 1) as nat, line)
        }
    } else if s[j] == '/' && at(s, j + 1, '*') {
        comment_end(s, j + 2, depth + 1, line)
    } else if s[j] == '\n' {
        comment_end(s, j + 1, depth, line + 1)
    } else {
        comment_end(s, j + 1, depth, line)
    }
}

/// The kind of a one-character punctuation token.
pub open spec fn punctuation(c: char) -> Option<TokenKind> {
    if c == '(' {
        Some(TokenKind::LeftParen)
    } else if c == ')' {
        Some(TokenKind::RightParen)
    } else if c == '{' {
        Some(TokenKind::LeftBrace)
    } else if c == '}' {
        Some(TokenKind::RightBrace)
    } else if c == ',' {
        Some(TokenKind::Comma)
    } else if c == '.' {
        Some(TokenKind::Dot)
    } else if c == '-' {
        Some(TokenKind::Minus)
    } else if c == '+' {
        Some(TokenKind::Plus)
    } else if c == ';' {
        Some(TokenKind::Semi)
    } else if c == '*' {
        Some(TokenKind::Star)
    } else {
        None
    }
}

/// For an operator character that may be followed by `=`: the kinds of its
/// one-character and of its two-character form.
pub open spec fn operator(c: char) -> Option<(TokenKind, TokenKind)> {
    if c == '!' {
        Some((TokenKind::Bang, TokenKind::BangEqual))
    } else if c == '=' {
        Some((TokenKind::Equal, TokenKind::EqualEqual))
    } else if c == '>' {
        Some((TokenKind::Greater, TokenKind::GreaterEqual))
    } else if c == '<' {
        Some((TokenKind::Less, TokenKind::LessEqual))
    } else {
        None
    }
}

/// The one-character form of an operator character.
pub open spec fn short_form(c: char) -> TokenKind {
    let forms = operator(c)->0;
    forms.0
}

/// The two-character form (with `=`) of an operator character.
pub open spec fn long_form(c: char) -> TokenKind {
    let forms = operator(c)->0;
    forms.1
}

/// The reserved words and their kinds.
pub open spec fn keyword(w: Seq<char>) -> Option<TokenKind> {
    if w == "and"@ {
        Some(TokenKind::And)
    } else if w == "class"@ {
        Some(TokenKind::Class)
    } else if w == "else"@ {
        Some(TokenKind::Else)
    } else if w == "false"@ {
        Some(TokenKind::False)
    } else if w == "fun"@ {
        Some(TokenKind::Fun)
    } else if w == "for"@ {
        Some(TokenKind::For)
    } else if w == "if"@ {
        Some(TokenKind::If)
    } else if w == "nil"@ {
        Some(TokenKind::Nil)
    } else if w == "or"@ {
        Some(TokenKind::Or)
    } else if w == "print"@ {
        Some(TokenKind::Print)
    } else if w == "return"@ {
        Some(TokenKind::Return)
    } else if w == "super"@ {
        Some(TokenKind::Super)
    } else if w == "this"@ {
        Some(TokenKind::This)
    } else if w == "true"@ {
        Some(TokenKind::True)
    } else if w == "var"@ {
        Some(TokenKind::Var)
    } else if w == "while"@ {
        Some(TokenKind::While)
    } else {
        None
    }
}

/// How a token's kind follows from its span of source text.
pub enum Shape {
    /// A kind without text.
    Fixed(TokenKind),
    /// An identifier: its text is the whole span.
    Ident,
    /// A string: its text is the span without the two quotes.
    Str,
    /// A number: its text is the whole span.
    Num,
}

/// A token of the model: its shape, its span `[start, end)` in the source
/// and the line on which scanning of it began.
pub struct Lexed {
    pub shape: Shape,
    pub start: int,
    pub end: int,
    pub line: nat,
}

/// A lexical error of the model: the line at which it was detected and its
/// message.
pub struct Fault {
    pub line: nat,
    pub msg: Seq<char>,
}

/// What one scan step from a position produces: where the next step starts,
/// the line counter there, and at most one token or error.
pub struct Step {
    pub next: int,
    pub line: nat,
    pub tok: Option<Lexed>,
    pub err: Option<Fault>,
}

pub open spec fn unexpected_msg(c: char) -> Seq<char> {
    "Unexpected character: "@.push(c)
}

pub open spec fn unterminated_string_msg() -> Seq<char> {
    "Unterminated string"@
}

pub open spec fn unterminated_comment_msg() -> Seq<char> {
    "Unterminated block comment"@
}

pub open spec fn token_step(next: int, line: nat, shape: Shape, start: int, end: int) -> Step {
    Step { next, line, tok: Some(Lexed { shape, start, end, line }), err: None }
}

pub open spec fn quiet_step(next: int, line: nat) -> Step {
    Step { next, line, tok: None, err: None }
}

pub open spec fn fault_step(next: int, line: nat, msg: Seq<char>) -> Step {
    Step { next, line, tok: None, err: Some(Fault { line, msg }) }
}

/// The end of a number literal that starts at `i`: a run of digits, and a dot
/// with a further run of digits only if a digit follows the dot.
pub open spec fn number_end(s: Seq<char>, i: int) -> int {
    let j = skip_run(s, i + 1, Run::Digits);
    if at(s, j, '.') && j + 1 < s.len() && is_digit(s[j + 1]) {
        skip_run(s, j + 2, Run::Digits)
    } else {
        j
    }
}

/// One step of the scanner at index `i` (inside `s`), with the line counter at
/// `line`.
pub open spec fn step(s: Seq<char>, i: int, line: nat) -> Step {
    let c = s[i];
    if c == ' ' || c == '\t' {
        quiet_step(i + 1, line)
    } else if c == '\n' {
        quiet_step(i + 1, line + 1)
    } else if punctuation(c) is Some {
        token_step(i + 1, line, Shape::Fixed(punctuation(c)->0), i, i + 1)
    } else if c == '/' {
        if at(s, i + 1, '/') {
            quiet_step(skip_run(s, i + 2, Run::NotNewline), line)
        } else if at(s, i + 1, '*') {
            let (e, l, closed) = comment_end(s, i + 2, 1, line);
            if closed {
                quiet_step(e, l)
            } else {
                fault_step(e, l, unterminated_comment_msg())
            }
        } else {
            token_step(i + 1, line, Shape::Fixed(TokenKind::Slash), i, i + 1)
        }
    } else if operator(c) is Some {
        let forms = operator(c)->0;
        if at(s, i + 1, '=') {
            token_step(i + 2, line, Shape::Fixed(forms.1), i, i + 2)
        } else {
            token_step(i + 1, line, Shape::Fixed(forms.0), i, i + 1)
        }
    } else if c == '"' {
        let j = skip_run(s, i + 1, Run::NotQuote);
        let l = line + count_newlines(s, i + 1, j);
        if j < s.len() {
            Step {
                next: j + 1,
                line: l,
                tok: Some(Lexed { shape: Shape::Str, start: i, end: j + 1, line }),
                err: None,
            }
        } else {
            fault_step(j, l, unterminated_string_msg())
        }
    } else if is_alpha(c) {
        let j = skip_run(s, i + 1, Run::Alnum);
        let shape = match keyword(s.subrange(i, j)) {
            Some(k) => Shape::Fixed(k),
            None => Shape::Ident,
        };
        token_step(j, line, shape, i, j)
    } else if is_digit(c) {
        let j = number_end(s, i);
        token_step(j, line, Shape::Num, i, j)
    } else {
        fault_step(i + 1, line, unexpected_msg(c))
    }
}

pub open spec fn opt_seq<T>(o: Option<T>) -> Seq<T> {
    match o {
        Some(x) => seq![x],
        None => Seq::empty(),
    }
}

/// The tokens and errors of scanning `s` from index `i` on, with the line
/// counter at `line`; the tokens end with the end-of-input token.
pub open spec fn lex_from(s: Seq<char>, i: int, line: nat) -> (Seq<Lexed>, Seq<Fault>)
    decreases s.len() - i,
    via lex_from_decreases
{
    if i < 0 || i >= s.len() {
        (seq![Lexed { shape: Shape::Fixed(TokenKind::Eof), start: s.len() as int, end: s.len() as int, line }], Seq::empty())
    } else {
        let st = step(s, i, line);
        let rest = lex_from(s, st.next, st.line);
        (opt_seq(st.tok) + rest.0, opt_seq(st.err) + rest.1)
    }
}

#[via_fn]
proof fn lex_from_decreases(s: Seq<char>, i: int, line: nat) {
    if 0 <= i < s.len() {
        lemma_step_advances(s, i, line);
    }
}

/// The tokens and errors of scanning the whole of `s`, from line 1.
pub open spec fn lex(s: Seq<char>) -> (Seq<Lexed>, Seq<Fault>) {
    lex_from(s, 0, 1)
}

pub proof fn lemma_skip_run(s: Seq<char>, i: int, r: Run)
    requires
        0 <= i <= s.len(),
    ensures
        i <= skip_run(s, i, r) <= s.len(),
        skip_run(s, i, r) < s.len() ==> !in_run(r, s[skip_run(s, i, r)]),
        forall|k: int| i <= k < skip_run(s, i, r) ==> in_run(r, #[trigger] s[k]),
    decreases s.len() - i,
{
    if i < s.len() && in_run(r, s[i]) {
        lemma_skip_run(s, i + 1, r);
    }
}

pub proof fn lemma_comment_end(s: Seq<char>, j: int, depth: nat, line: nat)
    requires
        0 <= j <= s.len(),
    ensures
        j <= comment_end(s, j, depth, line).0 <= s.len(),
        line <= comment_end(s, j, depth, line).1,
        !comment_end(s, j, depth, line).2 ==> comment_end(s, j, depth, line).0 == s.len(),
    decreases s.len() - j,
{
    if j < s.len() {
        if s[j] == '*' && at(s, j + 1, '/') {
            if depth > 1 {
                lemma_comment_end(s, j + 2, (depth - 1) as nat, line);
            }
        } else if s[j] == '/' && at(s, j + 1, '*') {
            lemma_comment_end(s, j + 2, depth + 1, line);
        } else if s[j] == '\n' {
            lemma_comment_end(s, j + 1, depth, line + 1);
        } else {
            lemma_comment_end(s, j + 1, depth, line);
        }
    }
}

pub proof fn lemma_step_advances(s: Seq<char>, i: int, line: nat)
    requires
        0 <= i < s.len(),
    ensures
        i < step(s, i, line).next <= s.len(),
        line <= step(s, i, line).line,
{
    let c = s[i];
    lemma_skip_run(s, i + 1, Run::NotQuote);
    lemma_skip_run(s, i + 1, Run::Alnum);
    lemma_skip_run(s, i + 1, Run::Digits);
    let j = skip_run(s, i + 1, Run::Digits);
    if j + 2 <= s.len() {
        lemma_skip_run(s, j + 2, Run::Digits);
    }
    if i + 2 <= s.len() {
        lemma_skip_run(s, i + 2, Run::NotNewline);
        lemma_comment_end(s, i + 2, 1, line);
    }
}

/// A step at `/*` scans a block comment.
pub proof fn lemma_step_block_comment(s: Seq<char>, i: int, line: nat)
    requires
        0 <= i,
        i + 1 < s.len(),
        s[i] == '/',
        s[i + 1] == '*',
    ensures
        ({
            let (e, l, closed) = comment_end(s, i + 2, 1, line);
            step(s, i, line) == if closed {
                quiet_step(e, l)
            } else {
                fault_step(e, l, unterminated_comment_msg())
            }
        }),
{
    assert(punctuation(s[i]) is None);
    assert(!at(s, i + 1, '/'));
}

} // verus!
