use vstd::prelude::*;

use crate::grammar::{
    comment_end, count_newlines, fault_step, in_run, is_alnum, is_alpha, is_digit, keyword,
    lemma_skip_run, lemma_step_advances, lemma_step_block_comment, lex, lex_from, operator, opt_seq,
    punctuation, quiet_step, skip_run, step, unterminated_comment_msg, Shape, Fault, Lexed, Run,
};
use crate::encoding::{
    lemma_encode_concat, lemma_encode_injective, lemma_encode_one, lemma_prefix_is_boundary,
    utf8_width,
};
use crate::laws::lemma_ends_with_eof;
use crate::token::{Token, TokenKind};
use vstd::std_specs::iter::IteratorSpec;
use vstd::string::StringSliceAdditionalSpecFns;
use vstd::utf8::encode_utf8;

verus! {

/// A lexical error: the line at which it was detected, and its message.
pub type LoxError = (usize, String);

/// The token `t` is the model token `l` of source `s`: same span, same line,
/// and a kind that follows from the shape and the span.
pub open spec fn token_matches<'a>(t: Token<'a>, l: Lexed, s: Seq<char>) -> bool {
    &&& t.lexeme@ == s.subrange(l.start, l.end)
    &&& t.line == l.line
    &&& match l.shape {
        Shape::Fixed(k) => t.kind == k,
        Shape::Ident => t.kind is Identifier && t.kind->Identifier_0@ == s.subrange(l.start, l.end),
        Shape::Str => t.kind is String && t.kind->String_0@ == s.subrange(l.start + 1, l.end - 1),
        Shape::Num => t.kind is Number && t.kind->Number_0@ == s.subrange(l.start, l.end),
    }
}

/// The tokens `ts` are the model tokens `ls` of source `s`, one for one.
pub open spec fn tokens_match<'a>(ts: Seq<Token<'a>>, ls: Seq<Lexed>, s: Seq<char>) -> bool {
    &&& ts.len() == ls.len()
    &&& forall|k: int| 0 <= k < ts.len() ==> token_matches(#[trigger] ts[k], ls[k], s)
}

pub open spec fn error_matches(e: LoxError, f: Fault) -> bool {
    e.0 == f.line && e.1@ == f.msg
}

/// The errors `es` are the model errors `fs`, one for one.
pub open spec fn errors_match(es: Seq<LoxError>, fs: Seq<Fault>) -> bool {
    &&& es.len() == fs.len()
    &&& forall|k: int| 0 <= k < es.len() ==> error_matches(#[trigger] es[k], fs[k])
}

/// `(tokens, errors)` is what scanning `s` produces.
pub open spec fn scans_to<'a>(s: Seq<char>, tokens: Seq<Token<'a>>, errors: Seq<LoxError>) -> bool {
    tokens_match(tokens, lex(s).0, s) && errors_match(errors, lex(s).1)
}

/// `new` is `old` with a token for `o` appended, if there is one.
pub open spec fn appended<'a>(old: Seq<Token<'a>>, new: Seq<Token<'a>>, o: Option<Lexed>, s: Seq<char>) -> bool {
    match o {
        Some(l) => new.len() == old.len() + 1 && new.drop_last() == old && token_matches(new.last(), l, s),
        None => new == old,
    }
}

/// `new` is `old` with an error for `o` appended, if there is one.
pub open spec fn faulted(old: Seq<LoxError>, new: Seq<LoxError>, o: Option<Fault>) -> bool {
    match o {
        Some(f) => new.len() == old.len() + 1 && new.drop_last() == old && error_matches(new.last(), f),
        None => new == old,
    }
}

proof fn lemma_appended<'a>(old: Seq<Token<'a>>, new: Seq<Token<'a>>, ls: Seq<Lexed>, o: Option<Lexed>, s: Seq<char>)
    requires
        tokens_match(old, ls, s),
        appended(old, new, o, s),
    ensures
        tokens_match(new, ls + opt_seq(o), s),
{
    let ls2 = ls + opt_seq(o);
    if o is Some {
        assert forall|k: int| 0 <= k < new.len() implies token_matches(#[trigger] new[k], ls2[k], s) by {
            if k < old.len() {
                assert(new[k] == new.drop_last()[k]);
            }
        }
    } else {
        assert(ls2 =~= ls);
    }
}

proof fn lemma_faulted(old: Seq<LoxError>, new: Seq<LoxError>, fs: Seq<Fault>, o: Option<Fault>)
    requires
        errors_match(old, fs),
        faulted(old, new, o),
    ensures
        errors_match(new, fs + opt_seq(o)),
{
    let fs2 = fs + opt_seq(o);
    if o is Some {
        assert forall|k: int| 0 <= k < new.len() implies error_matches(#[trigger] new[k], fs2[k]) by {
            if k < old.len() {
                assert(new[k] == new.drop_last()[k]);
            }
        }
    } else {
        assert(fs2 =~= fs);
    }
}

/// Relies on String::push: the character is appended to the string.
#[verifier::external_body]
fn push_char(s: &mut String, c: char)
    ensures
        final(s)@ == old(s)@.push(c),
{
    s.push(c)
}

/// The scan cursor over one source text, with the tokens and errors found so
/// far.
pub struct Scanner<'a> {
    source: &'a str,
    chars: Vec<char>,
    /// `offsets[k]` is the byte offset in `source` of its character `k`
    /// (for `k` the number of characters: the byte length).
    offsets: Vec<usize>,
    tokens: Vec<Token<'a>>,
    errors: Vec<LoxError>,
    start: usize,
    current: usize,
    line: usize,
}

impl<'a> Scanner<'a> {
    /// The characters are those of the source, the token being scanned starts
    /// at or before the cursor, which is inside the text, and the line counter
    /// has grown by at most one per character consumed.
    pub closed spec fn wf(&self) -> bool {
        &&& self.chars@ == self.source@
        &&& self.offsets@.len() == self.chars@.len() + 1
        &&& forall|k: int|
            0 <= k <= self.chars@.len() ==> #[trigger] self.offsets@[k] == encode_utf8(
                self.source@.take(k),
            ).len()
        &&& self.chars.len() < usize::MAX
        &&& self.start <= self.current <= self.chars.len()
        &&& self.line <= self.current + 1
    }

    /// A scanner over `source` that has not yet started.
    pub closed spec fn fresh(&self) -> bool {
        &&& self.wf()
        &&& self.current == 0
        &&& self.line == 1
        &&& self.tokens@.len() == 0
        &&& self.errors@.len() == 0
    }

    /// `new` has done one scan step from where `old` started its token.
    closed spec fn stepped(old: Self, new: Self) -> bool {
        let s = old.chars@;
        let st = step(s, old.start as int, old.line as nat);
        &&& new.wf()
        &&& new.source == old.source
        &&& new.chars@ == s
        &&& new.start == old.start
        &&& new.current == st.next
        &&& new.line == st.line
        &&& appended(old.tokens@, new.tokens@, st.tok, s)
        &&& faulted(old.errors@, new.errors@, st.err)
    }

    /// A scanner at the start of `source`, on line 1, with nothing found yet.
    pub fn new(source: &'a str) -> (r: Self)
        requires
            source@.len() < usize::MAX,
        ensures
            r.fresh(),
            r.text() == source@,
    {
        let mut chars: Vec<char> = Vec::new();
        let mut offsets: Vec<usize> = Vec::new();
        offsets.push(0);
        let total = source.as_bytes().len();
        let mut it = source.chars();
        let ghost n = source@.len();
        proof {
            assert(source@.take(0) =~= Seq::<char>::empty());
        }
        loop
            invariant
                it.remaining() == source@.skip(chars@.len() as int),
                chars@ == source@.take(chars@.len() as int),
                chars@.len() <= n,
                n == source@.len(),
                n < usize::MAX,
                total == encode_utf8(source@).len(),
                offsets@.len() == chars@.len() + 1,
                forall|k: int|
                    0 <= k <= chars@.len() ==> #[trigger] offsets@[k] == encode_utf8(
                        source@.take(k),
                    ).len(),
            ensures
                chars@ == source@,
                offsets@.len() == chars@.len() + 1,
                forall|k: int|
                    0 <= k <= chars@.len() ==> #[trigger] offsets@[k] == encode_utf8(
                        source@.take(k),
                    ).len(),
            decreases n - chars@.len(),
        {
            match it.next() {
                Some(c) => {
                    let ghost k = chars@.len() as int;
                    proof {
                        assert(source@.take(k + 1) =~= source@.take(k) + seq![c]);
                        lemma_encode_concat(source@.take(k), seq![c]);
                        lemma_encode_one(c);
                        lemma_prefix_is_boundary(source@, k + 1);
                    }
                    let next = offsets[chars.len()] + utf8_width(c);
                    chars.push(c);
                    offsets.push(next);
                    assert(chars@ =~= source@.take(chars@.len() as int));
                },
                None => {
                    assert(chars@ =~= source@);
                    break;
                },
            }
        }
        Scanner {
            source,
            chars,
            offsets,
            tokens: Vec::new(),
            errors: Vec::new(),
            start: 0,
            current: 0,
            line: 1,
        }
    }

    /// The characters of the source text.
    pub closed spec fn text(&self) -> Seq<char> {
        self.source@
    }

    /// Everything but the position `current` and the line counter is as in
    /// `old`.
    closed spec fn moved(old: Self, new: Self) -> bool {
        &&& new.source == old.source
        &&& new.chars@ == old.chars@
        &&& new.start == old.start
        &&& new.tokens@ == old.tokens@
        &&& new.errors@ == old.errors@
    }

    fn is_at_end(&self) -> (r: bool)
        ensures
            r == (self.current >= self.chars.len()),
    {
        self.current >= self.chars.len()
    }

    /// The source text of characters `[from, to)`, borrowed from the source.
    fn slice(&self, from: usize, to: usize) -> (r: &'a str)
        requires
            self.wf(),
            from <= to <= self.chars.len(),
        ensures
            r@ == self.chars@.subrange(from as int, to as int),
    {
        let source = self.source;
        let ghost s = source@;
        proof {
            lemma_prefix_is_boundary(s, to as int);
        }
        let (head, _) = source.split_at(self.offsets[to]);
        proof {
            let off = self.offsets@[to as int] as int;
            assert(source.spec_bytes() == encode_utf8(s));
            assert(head.spec_bytes() == encode_utf8(head@));
            assert(encode_utf8(s).subrange(0, off) =~= encode_utf8(s.take(to as int)));
            lemma_encode_injective(head@, s.take(to as int));
            lemma_prefix_is_boundary(head@, from as int);
            assert(head@.take(from as int) =~= s.take(from as int));
        }
        let (_, r) = head.split_at(self.offsets[from]);
        proof {
            let off = self.offsets@[from as int] as int;
            let hb = encode_utf8(head@);
            assert(r.spec_bytes() == encode_utf8(r@));
            assert(hb.subrange(off, hb.len() as int) =~= encode_utf8(head@.skip(from as int)));
            lemma_encode_injective(r@, head@.skip(from as int));
            assert(head@.skip(from as int) =~= s.subrange(from as int, to as int));
        }
        r
    }

    /// Appends a token of `kind` whose text is the span `[start, current)`.
    fn add_token(&mut self, kind: TokenKind, line: usize)
        requires
            old(self).wf(),
        ensures
            final(self).source == old(self).source,
            final(self).chars@ == old(self).chars@,
            final(self).start == old(self).start,
            final(self).current == old(self).current,
            final(self).line == old(self).line,
            final(self).errors@ == old(self).errors@,
            final(self).tokens@.len() == old(self).tokens@.len() + 1,
            final(self).tokens@.drop_last() == old(self).tokens@,
            final(self).tokens@.last().kind == kind,
            final(self).tokens@.last().line == line,
            final(self).tokens@.last().lexeme@ == old(self).chars@.subrange(
                old(self).start as int,
                old(self).current as int,
            ),
            final(self).wf(),
    {
        let lexeme = self.slice(self.start, self.current);
        let token = Token::new(kind, lexeme, line);
        self.tokens.push(token);
        proof {
            assert(self.tokens@.drop_last() =~= old(self).tokens@);
        }
    }

    /// Appends an error with `message` at the current line.
    fn add_error(&mut self, message: String)
        requires
            old(self).wf(),
        ensures
            final(self).source == old(self).source,
            final(self).chars@ == old(self).chars@,
            final(self).start == old(self).start,
            final(self).current == old(self).current,
            final(self).line == old(self).line,
            final(self).tokens@ == old(self).tokens@,
            final(self).errors@.len() == old(self).errors@.len() + 1,
            final(self).errors@.drop_last() == old(self).errors@,
            final(self).errors@.last().0 == old(self).line,
            final(self).errors@.last().1@ == message@,
            final(self).wf(),
    {
        let line = self.line;
        self.errors.push((line, message));
        proof {
            assert(self.errors@.drop_last() =~= old(self).errors@);
        }
    }

    /// Advances past the run `r` that starts at `current`.
    fn skip(&mut self, r: Run)
        requires
            old(self).wf(),
        ensures
            Self::moved(*old(self), *final(self)),
            final(self).line == old(self).line,
            final(self).current == skip_run(old(self).chars@, old(self).current as int, r),
            final(self).wf(),
    {
        let ghost s = self.chars@;
        let ghost i = self.current as int;
        while self.current < self.chars.len() && run_has(r, self.chars[self.current])
            invariant
                Self::moved(*old(self), *self),
                self.line == old(self).line,
                self.wf(),
                s == self.chars@,
                i <= self.current,
                skip_run(s, self.current as int, r) == skip_run(s, i, r),
            decreases s.len() - self.current,
        {
            self.current = self.current + 1;
        }
    }

    /// The token that starts at `start` begins with `c`, and the first `k`
    /// characters of it have been consumed.
    closed spec fn begun(&self, c: char, k: int) -> bool {
        &&& self.wf()
        &&& self.start < self.chars.len()
        &&& self.chars@[self.start as int] == c
        &&& self.current == self.start + k
        &&& self.line <= self.start + 1
    }

    /// Scans a string literal whose opening quote has been consumed.
    fn string(&mut self)
        requires
            old(self).begun('"', 1),
        ensures
            Self::stepped(*old(self), *final(self)),
    {
        let line = self.line;
        let ghost s = self.chars@;
        let ghost i = self.start as int;
        proof {
            lemma_skip_run(s, i + 1, Run::NotQuote);
        }
        while self.current < self.chars.len() && self.chars[self.current] != '"'
            invariant
                Self::moved(*old(self), *self),
                self.wf(),
                s == self.chars@,
                i + 1 <= self.current,
                self.line <= self.current,
                skip_run(s, self.current as int, Run::NotQuote) == skip_run(s, i + 1, Run::NotQuote),
                self.line == line + count_newlines(s, i + 1, self.current as int),
            decreases s.len() - self.current,
        {
            if self.chars[self.current] == '\n' {
                self.line = self.line + 1;
            }
            self.current = self.current + 1;
        }
        if self.current < self.chars.len() {
            self.current = self.current + 1;
            let body = self.slice(self.start + 1, self.current - 1);
            self.add_token(TokenKind::String(body.to_owned()), line);
        } else {
            self.add_error("Unterminated string".to_owned());
        }
    }

    /// Whether the span `[start, current)` spells `word`.
    fn span_is(&self, word: &str) -> (r: bool)
        requires
            self.wf(),
        ensures
            r == (self.chars@.subrange(self.start as int, self.current as int) == word@),
    {
        let n = word.unicode_len();
        if self.current - self.start != n {
            return false;
        }
        let mut k: usize = 0;
        while k < n
            invariant
                self.wf(),
                n == word@.len(),
                self.current - self.start == n,
                k <= n,
                forall|j: int| 0 <= j < k ==> self.chars@[self.start + j] == word@[j],
            decreases n - k,
        {
            if self.chars[self.start + k] != word.get_char(k) {
                assert(self.chars@.subrange(self.start as int, self.current as int)[k as int] != word@[k as int]);
                return false;
            }
            k = k + 1;
        }
        assert(self.chars@.subrange(self.start as int, self.current as int) =~= word@);
        true
    }

    /// The keyword that the span `[start, current)` spells, if any.
    fn keyword_kind(&self) -> (r: Option<TokenKind>)
        requires
            self.wf(),
        ensures
            r == keyword(self.chars@.subrange(self.start as int, self.current as int)),
    {
        if self.span_is("and") {
            Some(TokenKind::And)
        } else if self.span_is("class") {
            Some(TokenKind::Class)
        } else if self.span_is("else") {
            Some(TokenKind::Else)
        } else if self.span_is("false") {
            Some(TokenKind::False)
        } else if self.span_is("fun") {
            Some(TokenKind::Fun)
        } else if self.span_is("for") {
            Some(TokenKind::For)
        } else if self.span_is("if") {
            Some(TokenKind::If)
        } else if self.span_is("nil") {
            Some(TokenKind::Nil)
        } else if self.span_is("or") {
            Some(TokenKind::Or)
        } else if self.span_is("print") {
            Some(TokenKind::Print)
        } else if self.span_is("return") {
            Some(TokenKind::Return)
        } else if self.span_is("super") {
            Some(TokenKind::Super)
        } else if self.span_is("this") {
            Some(TokenKind::This)
        } else if self.span_is("true") {
            Some(TokenKind::True)
        } else if self.span_is("var") {
            Some(TokenKind::Var)
        } else if self.span_is("while") {
            Some(TokenKind::While)
        } else {
            None
        }
    }

    /// Scans an identifier or keyword whose first letter has been consumed.
    fn identifier(&mut self)
        requires
            old(self).begun(old(self).chars@[old(self).start as int], 1),
            is_alpha(old(self).chars@[old(self).start as int]),
        ensures
            Self::stepped(*old(self), *final(self)),
    {
        proof {
            lemma_skip_run(self.chars@, self.current as int, Run::Alnum);
        }
        self.skip(Run::Alnum);
        let line = self.line;
        match self.keyword_kind() {
            Some(kind) => self.add_token(kind, line),
            None => {
                let text = self.slice(self.start, self.current);
                self.add_token(TokenKind::Identifier(text.to_owned()), line);
            },
        }
    }

    /// Scans a number literal whose first digit has been consumed.
    fn number(&mut self)
        requires
            old(self).begun(old(self).chars@[old(self).start as int], 1),
            is_digit(old(self).chars@[old(self).start as int]),
        ensures
            Self::stepped(*old(self), *final(self)),
    {
        proof {
            lemma_skip_run(self.chars@, self.current as int, Run::Digits);
        }
        self.skip(Run::Digits);
        let n = self.chars.len();
        if self.current < n && self.chars[self.current] == '.' && self.current + 1 < n
            && is_digit_char(self.chars[self.current + 1]) {
            self.current = self.current + 2;
            proof {
                lemma_skip_run(self.chars@, self.current as int, Run::Digits);
            }
            self.skip(Run::Digits);
        }
        let line = self.line;
        let text = self.slice(self.start, self.current);
        self.add_token(TokenKind::Number(text.to_owned()), line);
    }

    /// Skips a line comment whose `//` has been consumed, up to the newline.
    fn line_comment(&mut self)
        requires
            old(self).begun('/', 2),
            old(self).chars@[old(self).start + 1] == '/',
        ensures
            Self::stepped(*old(self), *final(self)),
    {
        proof {
            lemma_skip_run(self.chars@, self.current as int, Run::NotNewline);
        }
        self.skip(Run::NotNewline);
    }

    /// Skips a block comment whose `/*` has been consumed. Comments nest: the
    /// comment ends at the `*/` that closes its opening `/*`.
    fn block_comment(&mut self)
        requires
            old(self).begun('/', 2),
            old(self).chars@[old(self).start + 1] == '*',
        ensures
            Self::stepped(*old(self), *final(self)),
    {
        let ghost s = self.chars@;
        let ghost i = self.start as int;
        let ghost line0 = self.line as nat;
        let n = self.chars.len();
        let mut depth: usize = 1;
        proof {
            lemma_step_block_comment(s, i, line0);
        }
        loop
            invariant
                ({
                    let (e, l, closed) = comment_end(s, i + 2, 1, line0);
                    step(s, i, line0) == if closed {
                        quiet_step(e, l)
                    } else {
                        fault_step(e, l, unterminated_comment_msg())
                    }
                }),
                Self::moved(*old(self), *self),
                self.wf(),
                s == self.chars@,
                line0 == old(self).line,
                i == old(self).start,
                n == s.len(),
                i + 2 <= self.current,
                self.line <= self.current,
                1 <= depth <= self.current,
                comment_end(s, self.current as int, depth as nat, self.line as nat) == comment_end(s, i + 2, 1, line0),
            decreases s.len() - self.current,
        {
            if self.current >= n {
                self.add_error("Unterminated block comment".to_owned());
                return;
            }
            let c = self.chars[self.current];
            if c == '*' && self.current + 1 < n && self.chars[self.current + 1] == '/' {
                self.current = self.current + 2;
                if depth == 1 {
                    return;
                }
                depth = depth - 1;
            } else if c == '/' && self.current + 1 < n && self.chars[self.current + 1] == '*' {
                self.current = self.current + 2;
                depth = depth + 1;
            } else {
                if c == '\n' {
                    self.line = self.line + 1;
                }
                self.current = self.current + 1;
            }
        }
    }
}

impl<'a> Scanner<'a> {
    /// Scans one lexical item from `current`: at most one token or error.
    fn scan_token(&mut self)
        requires
            old(self).wf(),
            old(self).start == old(self).current,
            old(self).current < old(self).chars.len(),
        ensures
            Self::stepped(*old(self), *final(self)),
    {
        let ghost s = self.chars@;
        let ghost i = self.start as int;
        let n = self.chars.len();
        let line = self.line;
        let c = self.chars[self.current];
        self.current = self.current + 1;
        if is_whitespace(c) {
        } else if c == '\n' {
            self.line = self.line + 1;
        } else if let Some(kind) = punctuation_kind(c) {
            self.add_token(kind, line);
        } else if c == '/' {
            if self.current < n && self.chars[self.current] == '/' {
                self.current = self.current + 1;
                self.line_comment();
            } else if self.current < n && self.chars[self.current] == '*' {
                self.current = self.current + 1;
                self.block_comment();
            } else {
                self.add_token(TokenKind::Slash, line);
            }
        } else if let Some((one, two)) = operator_kinds(c) {
            if self.current < n && self.chars[self.current] == '=' {
                self.current = self.current + 1;
                self.add_token(two, line);
            } else {
                self.add_token(one, line);
            }
        } else if c == '"' {
            self.string();
        } else if is_alpha_char(c) {
            self.identifier();
        } else if is_digit_char(c) {
            self.number();
        } else {
            let mut message = "Unexpected character: ".to_owned();
            push_char(&mut message, c);
            self.add_error(message);
        }
    }

    /// Scans the whole source: the tokens, ending with the end-of-input
    /// token, and the errors, in the order found.
    pub fn scan_tokens(self) -> (r: (Vec<Token<'a>>, Vec<LoxError>))
        requires
            self.fresh(),
        ensures
            scans_to(self.text(), r.0@, r.1@),
    {
        let mut scanner = self;
        let ghost s = scanner.chars@;
        let ghost mut lt: Seq<Lexed> = Seq::empty();
        let ghost mut le: Seq<Fault> = Seq::empty();
        proof {
            assert(lt + lex_from(s, 0, 1).0 =~= lex(s).0);
            assert(le + lex_from(s, 0, 1).1 =~= lex(s).1);
        }
        while !scanner.is_at_end()
            invariant
                scanner.wf(),
                s == scanner.chars@,
                s == scanner.text(),
                tokens_match(scanner.tokens@, lt, s),
                errors_match(scanner.errors@, le),
                lt + lex_from(s, scanner.current as int, scanner.line as nat).0 == lex(s).0,
                le + lex_from(s, scanner.current as int, scanner.line as nat).1 == lex(s).1,
            decreases s.len() - scanner.current,
        {
            scanner.start = scanner.current;
            let ghost st = step(s, scanner.current as int, scanner.line as nat);
            let ghost rest = lex_from(s, st.next, st.line);
            let ghost tokens0 = scanner.tokens@;
            let ghost errors0 = scanner.errors@;
            proof {
                lemma_step_advances(s, scanner.current as int, scanner.line as nat);
            }
            scanner.scan_token();
            proof {
                lemma_appended(tokens0, scanner.tokens@, lt, st.tok, s);
                lemma_faulted(errors0, scanner.errors@, le, st.err);
                assert(lt + (opt_seq(st.tok) + rest.0) =~= (lt + opt_seq(st.tok)) + rest.0);
                assert(le + (opt_seq(st.err) + rest.1) =~= (le + opt_seq(st.err)) + rest.1);
                lt = lt + opt_seq(st.tok);
                le = le + opt_seq(st.err);
            }
        }
        scanner.start = scanner.current;
        let line = scanner.line;
        let ghost tokens0 = scanner.tokens@;
        scanner.add_token(TokenKind::Eof, line);
        proof {
            let eof = lex_from(s, scanner.current as int, scanner.line as nat).0;
            lemma_appended(tokens0, scanner.tokens@, lt, Some(eof[0]), s);
            assert(lt + opt_seq(Some(eof[0])) =~= lex(s).0);
            assert(le =~= lex(s).1);
        }
        (scanner.tokens, scanner.errors)
    }
}

/// Scans `source` into its tokens, which end with the end-of-input token, and
/// its lexical errors, each with the line at which it was detected. Scanning
/// never stops at an error: it goes on with the next character.
pub fn tokenize<'a>(source: &'a str) -> (r: (Vec<Token<'a>>, Vec<LoxError>))
    requires
        source@.len() < usize::MAX,
    ensures
        scans_to(source@, r.0@, r.1@),
        r.0@.len() >= 1,
        r.0@.last().kind == TokenKind::Eof,
{
    let scanner = Scanner::new(source);
    let r = scanner.scan_tokens();
    proof {
        lemma_ends_with_eof(source@, r.0@, r.1@);
    }
    r
}

/// Whether `c` belongs to the run `r`.
fn run_has(r: Run, c: char) -> (b: bool)
    ensures
        b == in_run(r, c),
{
    match r {
        Run::Alnum => is_alnum_char(c),
        Run::Digits => is_digit_char(c),
        Run::NotNewline => c != '\n',
        Run::NotQuote => c != '"',
    }
}

fn is_digit_char(c: char) -> (b: bool)
    ensures
        b == is_digit(c),
{
    '0' <= c && c <= '9'
}

fn is_alpha_char(c: char) -> (b: bool)
    ensures
        b == is_alpha(c),
{
    ('a' <= c && c <= 'z') || ('A' <= c && c <= 'Z')
}

fn is_alnum_char(c: char) -> (b: bool)
    ensures
        b == is_alnum(c),
{
    is_alpha_char(c) || is_digit_char(c)
}

/// Horizontal whitespace: a space or a tab.
fn is_whitespace(c: char) -> (b: bool)
    ensures
        b == (c == ' ' || c == '\t'),
{
    c == ' ' || c == '\t'
}

fn punctuation_kind(c: char) -> (r: Option<TokenKind>)
    ensures
        r == punctuation(c),
{
    match c {
        '(' => Some(TokenKind::LeftParen),
        ')' => Some(TokenKind::RightParen),
        '{' => Some(TokenKind::LeftBrace),
        '}' => Some(TokenKind::RightBrace),
        ',' => Some(TokenKind::Comma),
        '.' => Some(TokenKind::Dot),
        '-' => Some(TokenKind::Minus),
        '+' => Some(TokenKind::Plus),
        ';' => Some(TokenKind::Semi),
        '*' => Some(TokenKind::Star),
        _ => None,
    }
}

fn operator_kinds(c: char) -> (r: Option<(TokenKind, TokenKind)>)
    ensures
        r == operator(c),
{
    match c {
        '!' => Some((TokenKind::Bang, TokenKind::BangEqual)),
        '=' => Some((TokenKind::Equal, TokenKind::EqualEqual)),
        '>' => Some((TokenKind::Greater, TokenKind::GreaterEqual)),
        '<' => Some((TokenKind::Less, TokenKind::LessEqual)),
        _ => None,
    }
}


} // verus!
