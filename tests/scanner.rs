use lox::lox::Lox;
use lox::scanner::tokenize;
use lox::token::TokenKind;
use lox::token::TokenKind::{
    And, Bang, BangEqual, Class, Comma, Dot, Else, Eof, Equal, EqualEqual, False, For, Fun,
    Greater, GreaterEqual, Identifier, If, LeftBrace, LeftParen, Less, LessEqual, Minus, Nil,
    Number, Or, Plus, Print, Return, RightBrace, RightParen, Semi, Slash, Star, Super, This, True,
    Var, While,
};

/// An expected token kind; numbers are given by their value.
#[derive(Debug)]
enum Want {
    K(TokenKind),
    N(f64),
}

fn kinds(src: &str) -> Vec<TokenKind> {
    let (tokens, _) = tokenize(src);
    tokens.into_iter().map(|t| t.kind).collect()
}

fn assert_kinds(src: &str, expected: Vec<TokenKind>) {
    let mut actual = kinds(src);
    assert_eq!(actual.pop(), Some(Eof));
    assert_eq!(actual, expected);
}

fn assert_wanted(src: &str, expected: Vec<Want>) {
    let mut actual = kinds(src);
    assert_eq!(actual.pop(), Some(Eof));
    assert_eq!(actual.len(), expected.len(), "{actual:?} vs {expected:?}");
    for (a, w) in actual.iter().zip(expected.iter()) {
        match (a, w) {
            (Number(text), Want::N(x)) => assert_eq!(text.parse::<f64>().unwrap(), *x),
            (k, Want::K(e)) => assert_eq!(k, e),
            _ => panic!("{a:?} vs {w:?}"),
        }
    }
}

fn ident(s: &str) -> TokenKind {
    Identifier(s.to_string())
}

#[test]
fn single_char_tokens() {
    let src = "(){},.+-;/ *// *******";
    let expected = vec![
        LeftParen, RightParen, LeftBrace, RightBrace, Comma, Dot, Plus, Minus, Semi, Slash, Star,
    ];
    assert_kinds(src, expected);
}

#[test]
fn one_two_char_tokens() {
    let src = "=! != == <<=>>=";
    let expected = vec![
        Equal,
        Bang,
        BangEqual,
        EqualEqual,
        Less,
        LessEqual,
        Greater,
        GreaterEqual,
    ];
    assert_kinds(src, expected);
}

#[test]
fn string() {
    let src = "(\"abc\", \"\")";
    let expected = vec![
        LeftParen,
        TokenKind::String("abc".to_string()),
        Comma,
        TokenKind::String("".to_string()),
        RightParen,
    ];
    assert_kinds(src, expected);
}

#[test]
fn string_errors() {
    let src = "print false;
            var x = \"abc";
    let (tokens, errors) = tokenize(src);

    let kinds: Vec<_> = tokens.into_iter().map(|t| t.kind).collect();
    let expected = vec![Print, False, Semi, Var, ident("x"), Equal, Eof];
    assert_eq!(kinds, expected);

    assert_eq!(errors.len(), 1);
    let (line, msg) = &errors[0];
    assert_eq!(*line, 2);
    assert_eq!(msg, "Unterminated string");
}

#[test]
fn identifier() {
    let src = "name
age";
    let expected = vec![ident("name"), ident("age")];
    assert_kinds(src, expected);
}

#[test]
fn keywords() {
    let src = "and class else false fun for if nil or print return super this true var while";
    let expected = vec![
        And, Class, Else, False, Fun, For, If, Nil, Or, Print, Return, Super, This, True, Var,
        While,
    ];
    assert_kinds(src, expected);
}

#[test]
fn number() {
    let src = "0123, 0.45, 5.";
    let expected = vec![
        Want::N(123.),
        Want::K(Comma),
        Want::N(0.45),
        Want::K(Comma),
        Want::N(5.),
        Want::K(Dot),
    ];
    assert_wanted(src, expected);
}

#[test]
fn block_comment() {
    let src = "var x = /*** mutline
            block comment ** / */ nil";
    let expected = vec![Var, ident("x"), Equal, Nil];
    assert_kinds(src, expected);

    // nested block comment
    let src = "print /*** /**/ */;";
    assert_kinds(src, vec![Print, Semi]);

    let src = "print /*** /* */";
    let (tokens, errors) = tokenize(src);
    let token_kinds: Vec<_> = tokens.into_iter().map(|t| t.kind).collect();
    assert_eq!(token_kinds, vec![Print, Eof]);
    assert_eq!(errors.len(), 1);
    assert_eq!(errors[0].1, "Unterminated block comment");
}

#[test]
fn programs() {
    let src = "var x = \"abc\";
            print x;
            var y = 5.1 * 4;
            var z = -1 / 4;
            while(true) {
              // Some comment
            }
            fun add(a, b) { return a + b; }";
    let k = Want::K;
    let n = Want::N;
    let expected = vec![
        k(Var), k(ident("x")), k(Equal), k(TokenKind::String("abc".into())), k(Semi),
        k(Print), k(ident("x")), k(Semi),
        k(Var), k(ident("y")), k(Equal), n(5.1), k(Star), n(4.), k(Semi),
        k(Var), k(ident("z")), k(Equal), k(Minus), n(1.), k(Slash), n(4.), k(Semi),
        k(While), k(LeftParen), k(True), k(RightParen), k(LeftBrace), k(RightBrace),
        k(Fun), k(ident("add")), k(LeftParen), k(ident("a")), k(Comma),
        k(ident("b")), k(RightParen), k(LeftBrace), k(Return),
        k(ident("a")), k(Plus), k(ident("b")), k(Semi), k(RightBrace),
    ];
    assert_wanted(src, expected);
}

#[test]
fn empty_source_gives_only_eof() {
    let (tokens, errors) = tokenize("");
    assert_eq!(tokens.len(), 1);
    assert_eq!(tokens[0].kind, Eof);
    assert_eq!(tokens[0].lexeme, "");
    assert_eq!(tokens[0].line, 1);
    assert!(errors.is_empty());
}

#[test]
fn last_token_is_always_eof() {
    for src in ["@", "\"open", "/* open", "x\n\ny", "1.", "é", "a_b", "\r\n"] {
        let (tokens, _) = tokenize(src);
        let last = tokens.last().unwrap();
        assert_eq!(last.kind, Eof);
        assert_eq!(last.lexeme, "");
    }
    let (tokens, _) = tokenize("x\n\ny");
    assert_eq!(tokens.last().unwrap().line, 3);
}

#[test]
fn operators_take_the_longest_match() {
    assert_kinds("!", vec![Bang]);
    assert_kinds("!=", vec![BangEqual]);
    assert_kinds("=", vec![Equal]);
    assert_kinds("==", vec![EqualEqual]);
    assert_kinds(">", vec![Greater]);
    assert_kinds(">=", vec![GreaterEqual]);
    assert_kinds("<", vec![Less]);
    assert_kinds("<=", vec![LessEqual]);
    assert_kinds("===", vec![EqualEqual, Equal]);
    let (tokens, _) = tokenize("<=");
    assert_eq!(tokens[0].lexeme, "<=");
}

#[test]
fn line_comment_yields_no_token() {
    let (tokens, errors) = tokenize("// anything\ncode");
    let kinds: Vec<_> = tokens.iter().map(|t| t.kind.clone()).collect();
    assert_eq!(kinds, vec![ident("code"), Eof]);
    assert_eq!(tokens[0].line, 2);
    assert!(errors.is_empty());
}

#[test]
fn nested_block_comment_closes_each_level() {
    let (tokens, errors) = tokenize("/*** /**/ */;");
    let kinds: Vec<_> = tokens.into_iter().map(|t| t.kind).collect();
    assert_eq!(kinds, vec![Semi, Eof]);
    assert!(errors.is_empty());
}

#[test]
fn unterminated_nested_comment_reports_once() {
    for src in ["/* /* */", "/* /*", "/* /* /* \n"] {
        let (tokens, errors) = tokenize(src);
        let kinds: Vec<_> = tokens.into_iter().map(|t| t.kind).collect();
        assert_eq!(kinds, vec![Eof]);
        assert_eq!(errors.len(), 1);
        assert_eq!(errors[0].1, "Unterminated block comment");
    }
    let (_, errors) = tokenize("/* a\nb\nc");
    assert_eq!(errors[0].0, 3);
}

#[test]
fn unterminated_string_across_lines() {
    let (tokens, errors) = tokenize("print false;\n    var x = \"abc");
    let kinds: Vec<_> = tokens.into_iter().map(|t| t.kind).collect();
    assert_eq!(kinds, vec![Print, False, Semi, Var, ident("x"), Equal, Eof]);
    assert_eq!(errors.len(), 1);
    assert_eq!(errors[0].0, 2);
    assert_eq!(errors[0].1, "Unterminated string");
    let (_, errors) = tokenize("\"a\nb\nc");
    assert_eq!(errors[0].0, 3);
}

#[test]
fn string_token_keeps_quotes_in_lexeme_and_counts_lines() {
    let (tokens, errors) = tokenize("\"a\nb\" x");
    assert!(errors.is_empty());
    assert_eq!(tokens[0].kind, TokenKind::String("a\nb".to_string()));
    assert_eq!(tokens[0].lexeme, "\"a\nb\"");
    assert_eq!(tokens[0].line, 1);
    assert_eq!(tokens[1].kind, ident("x"));
    assert_eq!(tokens[1].line, 2);
}

#[test]
fn numbers_stop_before_a_bare_dot() {
    let (tokens, _) = tokenize("1.2.3 7.x");
    let lexemes: Vec<_> = tokens.iter().map(|t| t.lexeme).collect();
    assert_eq!(lexemes, vec!["1.2", ".", "3", "7", ".", "x", ""]);
    assert_eq!(tokens[0].kind, Number("1.2".to_string()));
}

#[test]
fn words_are_keywords_or_identifiers() {
    assert_kinds("andy classX Var whilee o", vec![
        ident("andy"),
        ident("classX"),
        ident("Var"),
        ident("whilee"),
        ident("o"),
    ]);
    assert_kinds("x1 a2b", vec![ident("x1"), ident("a2b")]);
}

#[test]
fn underscore_is_not_part_of_an_identifier() {
    let (tokens, errors) = tokenize("a_b");
    let kinds: Vec<_> = tokens.into_iter().map(|t| t.kind).collect();
    assert_eq!(kinds, vec![ident("a"), ident("b"), Eof]);
    assert_eq!(errors, vec![(1, "Unexpected character: _".to_string())]);
}

#[test]
fn unexpected_characters_are_reported_and_skipped() {
    let (tokens, errors) = tokenize("a @\n# é b");
    let kinds: Vec<_> = tokens.iter().map(|t| t.kind.clone()).collect();
    assert_eq!(kinds, vec![ident("a"), ident("b"), Eof]);
    assert_eq!(tokens[1].lexeme, "b");
    assert_eq!(tokens[1].line, 2);
    assert_eq!(
        errors,
        vec![
            (1, "Unexpected character: @".to_string()),
            (2, "Unexpected character: #".to_string()),
            (2, "Unexpected character: é".to_string()),
        ]
    );
}

#[test]
fn lexemes_and_lines_follow_the_source() {
    let (tokens, _) = tokenize("var x\n= \"s\";\n\n  12.5");
    let seen: Vec<_> = tokens.iter().map(|t| (t.lexeme, t.line)).collect();
    assert_eq!(
        seen,
        vec![("var", 1), ("x", 1), ("=", 2), ("\"s\"", 2), (";", 2), ("12.5", 4), ("", 4)]
    );
}

#[test]
fn rescanning_gives_identical_results() {
    let src = "var a = \"x\ny\"; /* c */ b >= 1.5 @ \"open";
    let (t1, e1) = tokenize(src);
    let (t2, e2) = tokenize(src);
    assert_eq!(t1.len(), t2.len());
    for (a, b) in t1.iter().zip(t2.iter()) {
        assert_eq!(a.kind, b.kind);
        assert_eq!(a.lexeme, b.lexeme);
        assert_eq!(a.line, b.line);
    }
    assert_eq!(e1, e2);
    assert_eq!(e1.len(), 2);
}

#[test]
fn lox_run_records_errors() {
    let mut lox = Lox::new();
    assert!(!lox.had_error);
    let (tokens, errors) = lox.run("print 1;");
    assert_eq!(tokens.len(), 4);
    assert!(errors.is_empty());
    assert!(!lox.had_error);
    let (_, errors) = lox.run("print \"x");
    assert_eq!(errors.len(), 1);
    assert!(lox.had_error);
    lox.run("");
    assert!(!lox.had_error);
}

#[test]
fn token_new_keeps_its_parts() {
    let t = lox::token::Token::new(Star, "*", 3);
    assert_eq!(t.kind, Star);
    assert_eq!(t.lexeme, "*");
    assert_eq!(t.line, 3);
}

#[test]
fn lexemes_are_sliced_on_character_boundaries() {
    let (tokens, errors) = tokenize("\"h\u{e9}llo \u{1F600}\" \u{e9}t\u{e9} abc");
    assert_eq!(tokens[0].kind, TokenKind::String("h\u{e9}llo \u{1F600}".to_string()));
    assert_eq!(tokens[0].lexeme, "\"h\u{e9}llo \u{1F600}\"");
    assert_eq!(tokens[1].kind, ident("t"));
    assert_eq!(tokens[2].kind, ident("abc"));
    assert_eq!(tokens[2].lexeme, "abc");
    assert_eq!(errors.len(), 2);
}
