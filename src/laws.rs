use vstd::prelude::*;

use crate::grammar::{
    in_run, is_alnum, is_alpha, keyword, lemma_step_advances, lex, lex_from, long_form, operator, opt_seq, short_form,
    skip_run, step, Shape, Lexed, Run,
};
use crate::scanner::{scans_to, LoxError};
use crate::token::{same_kind, Token, TokenKind};

verus! {

/// Scanning from any position ends with the end-of-input token, whose span is
/// the empty span at the end of the source.
pub proof fn lemma_lex_from_ends_with_eof(s: Seq<char>, i: int, line: nat)
    requires
        0 <= i <= s.len(),
    ensures
        lex_from(s, i, line).0.len() >= 1,
        lex_from(s, i, line).0.last().shape == Shape::Fixed(TokenKind::Eof),
        lex_from(s, i, line).0.last().start == s.len(),
        lex_from(s, i, line).0.last().end == s.len(),
    decreases s.len() - i,
{
    if i < s.len() {
        lemma_step_advances(s, i, line);
        let st = step(s, i, line);
        lemma_lex_from_ends_with_eof(s, st.next, st.line);
        let rest = lex_from(s, st.next, st.line).0;
        assert((opt_seq(st.tok) + rest).last() == rest.last());
    }
}

/// Whatever the source, the last token that scanning returns is the
/// end-of-input token, with empty text.
pub proof fn lemma_ends_with_eof<'a>(s: Seq<char>, tokens: Seq<Token<'a>>, errors: Seq<LoxError>)
    requires
        scans_to(s, tokens, errors),
    ensures
        tokens.len() >= 1,
        tokens.last().kind == TokenKind::Eof,
        tokens.last().lexeme@.len() == 0,
{
    lemma_lex_from_ends_with_eof(s, 0, 1);
    assert(tokens.last() == tokens[tokens.len() - 1]);
}

/// Two tokens are the same: same kind (texts compared by content), same
/// text, same line.
pub open spec fn same_token<'a, 'b>(a: Token<'a>, b: Token<'b>) -> bool {
    same_kind(a.kind, b.kind) && a.lexeme@ == b.lexeme@ && a.line == b.line
}

/// Scanning the same source twice gives the same tokens and the same errors.
pub proof fn lemma_rescan_is_identical<'a, 'b>(
    s: Seq<char>,
    tokens1: Seq<Token<'a>>,
    errors1: Seq<LoxError>,
    tokens2: Seq<Token<'b>>,
    errors2: Seq<LoxError>,
)
    requires
        scans_to(s, tokens1, errors1),
        scans_to(s, tokens2, errors2),
    ensures
        tokens1.len() == tokens2.len(),
        forall|k: int| 0 <= k < tokens1.len() ==> same_token(#[trigger] tokens1[k], tokens2[k]),
        errors1.len() == errors2.len(),
        forall|k: int|
            0 <= k < errors1.len() ==> #[trigger] errors1[k].0 == errors2[k].0 && errors1[k].1@
                == errors2[k].1@,
{
    assert forall|k: int| 0 <= k < tokens1.len() implies same_token(#[trigger] tokens1[k], tokens2[k]) by {
        let l = lex(s).0[k];
        assert(crate::scanner::token_matches(tokens1[k], l, s));
        assert(crate::scanner::token_matches(tokens2[k], l, s));
    }
    assert forall|k: int| 0 <= k < errors1.len() implies #[trigger] errors1[k].0 == errors2[k].0
        && errors1[k].1@ == errors2[k].1@ by {
        let f = lex(s).1[k];
        assert(crate::scanner::error_matches(errors1[k], f));
        assert(crate::scanner::error_matches(errors2[k], f));
    }
}

/// An operator character that may take `=` (one of `! = > <`) followed by
/// `=` scans as the two-character operator, never as two tokens.
pub proof fn lemma_operator_takes_longest_match<'a>(
    s: Seq<char>,
    tokens: Seq<Token<'a>>,
    errors: Seq<LoxError>,
)
    requires
        scans_to(s, tokens, errors),
        s.len() >= 2,
        operator(s[0]) is Some,
        s[1] == '=',
    ensures
        tokens[0].kind == long_form(s[0]),
        tokens[0].lexeme@ == s.subrange(0, 2),
{
    lemma_step_advances(s, 0, 1);
    let st = step(s, 0, 1);
    assert(st.tok == Some(Lexed { shape: Shape::Fixed(long_form(s[0])), start: 0, end: 2, line: 1 }));
    assert(lex(s).0[0] == st.tok->0);
}

/// An operator character that may take `=` (one of `! = > <`) that is not
/// followed by `=` scans as the one-character operator.
pub proof fn lemma_operator_alone<'a>(s: Seq<char>, tokens: Seq<Token<'a>>, errors: Seq<LoxError>)
    requires
        scans_to(s, tokens, errors),
        s.len() >= 1,
        operator(s[0]) is Some,
        s.len() == 1 || s[1] != '=',
    ensures
        tokens[0].kind == short_form(s[0]),
        tokens[0].lexeme@ == s.subrange(0, 1),
{
    lemma_step_advances(s, 0, 1);
    let st = step(s, 0, 1);
    assert(st.tok == Some(Lexed { shape: Shape::Fixed(short_form(s[0])), start: 0, end: 1, line: 1 }));
    assert(lex(s).0[0] == st.tok->0);
}

proof fn lemma_skip_whole_run(s: Seq<char>, i: int, r: Run)
    requires
        0 <= i <= s.len(),
        forall|k: int| i <= k < s.len() ==> in_run(r, #[trigger] s[k]),
    ensures
        skip_run(s, i, r) == s.len(),
    decreases s.len() - i,
{
    if i < s.len() {
        lemma_skip_whole_run(s, i + 1, r);
    }
}

/// A source that is one word (a letter, then letters and digits) scans to a
/// single token and the end-of-input token, with no error: the reserved word's
/// own kind if the word is reserved, otherwise an identifier with the word as
/// its text.
pub proof fn lemma_word_is_keyword_or_identifier<'a>(
    s: Seq<char>,
    tokens: Seq<Token<'a>>,
    errors: Seq<LoxError>,
)
    requires
        scans_to(s, tokens, errors),
        s.len() >= 1,
        is_alpha(s[0]),
        forall|k: int| 0 <= k < s.len() ==> is_alnum(#[trigger] s[k]),
    ensures
        tokens.len() == 2,
        errors.len() == 0,
        tokens[0].lexeme@ == s,
        keyword(s) is Some ==> tokens[0].kind == keyword(s)->0,
        keyword(s) is None ==> tokens[0].kind is Identifier && tokens[0].kind->Identifier_0@ == s,
        tokens[1].kind == TokenKind::Eof,
{
    lemma_skip_whole_run(s, 1, Run::Alnum);
    assert(s.subrange(0, s.len() as int) =~= s);
    let st = step(s, 0, 1);
    assert(st.next == s.len());
    assert(st.err is None);
    assert(lex(s).0 =~= opt_seq(st.tok) + lex_from(s, s.len() as int, 1).0);
}

} // verus!
