use intcalc::lexer::{tokenize, Lexer, LexicalError, Token, TokenKind};
use intcalc::nodes::{Loc, Node};
use intcalc::parser::{parse, ParseError};

fn kinds(src: &str) -> Vec<TokenKind> {
    tokenize(src).0.iter().map(|t| t.1.kind()).collect()
}

#[test]
fn power_is_one_token() {
    assert_eq!(
        kinds("a**b*c"),
        vec![
            TokenKind::Variable,
            TokenKind::OpPow,
            TokenKind::Variable,
            TokenKind::OpMul,
            TokenKind::Variable
        ]
    );
    assert_eq!(kinds("2***3"), vec![TokenKind::Number, TokenKind::OpPow, TokenKind::OpMul, TokenKind::Number]);
}

#[test]
fn spans_and_texts() {
    let (toks, err) = tokenize(" x_1 = 42;\t\r\n( PI )[]");
    assert!(err.is_none());
    let spans: Vec<(usize, usize)> = toks.iter().map(|t| (t.0, t.2)).collect();
    assert_eq!(
        spans,
        vec![(1, 4), (5, 6), (7, 9), (9, 10), (13, 14), (15, 17), (18, 19), (19, 20), (20, 21)]
    );
    match &toks[0].1 {
        Token::Variable(s) => assert_eq!(s, "x_1"),
        _ => panic!("expected an identifier"),
    }
    match &toks[2].1 {
        Token::Number(s) => assert_eq!(s, "42"),
        _ => panic!("expected a number"),
    }
    assert_eq!(toks[5].1.kind(), TokenKind::Pi);
    assert_eq!(toks[7].1.kind(), TokenKind::OpenSquareBracket);
    assert_eq!(toks[8].1.kind(), TokenKind::CloseSquareBracket);
}

#[test]
fn keyword_is_exact() {
    assert_eq!(kinds("PI Pi PI2 pi"), vec![TokenKind::Pi, TokenKind::Variable, TokenKind::Variable, TokenKind::Variable]);
}

#[test]
fn lexer_stops_after_error() {
    let mut lx = Lexer::new("1 ? 2");
    assert!(matches!(lx.next_token(), Some(Ok((0, Token::Number(_), 1)))));
    assert!(matches!(
        lx.next_token(),
        Some(Err(LexicalError::UnrecognizedSymbol(2, '?')))
    ));
    assert!(lx.next_token().is_none());
    let (toks, err) = tokenize("1 ? 2");
    assert_eq!(toks.len(), 1);
    assert_eq!(err, Some(LexicalError::UnrecognizedSymbol(2, '?')));
}

#[test]
fn lexical_error_is_surfaced() {
    match parse("3 + 22 * ? + 65") {
        Err(ParseError::User { error }) => {
            assert_eq!(error, LexicalError::UnrecognizedSymbol(9, '?'))
        }
        _ => panic!("expected a lexical error"),
    }
}

#[test]
fn syntax_error_before_lexical_error() {
    match parse("1 2 ?") {
        Err(ParseError::UnrecognizedToken { token, expected }) => {
            assert_eq!((token.0, token.2), (2, 3));
            assert_eq!(
                expected,
                vec![
                    TokenKind::OpAdd,
                    TokenKind::OpSub,
                    TokenKind::OpMul,
                    TokenKind::OpDiv,
                    TokenKind::OpPow,
                    TokenKind::Semicolon
                ]
            );
        }
        _ => panic!("expected an unexpected token"),
    }
}

#[test]
fn double_plus_is_rejected() {
    match parse("1++2") {
        Err(ParseError::UnrecognizedToken { token, expected }) => {
            assert_eq!(token.0, 2);
            assert_eq!(token.1.kind(), TokenKind::OpAdd);
            assert_eq!(
                expected,
                vec![
                    TokenKind::OpenRoundBracket,
                    TokenKind::OpSub,
                    TokenKind::Pi,
                    TokenKind::Number,
                    TokenKind::Variable
                ]
            );
        }
        _ => panic!("expected an unexpected token"),
    }
    assert!(parse("1---2").is_ok());
}

#[test]
fn end_of_input_inside_expression() {
    match parse("1+") {
        Err(ParseError::UnrecognizedEof { location, expected }) => {
            assert_eq!(location, 2);
            assert_eq!(expected.len(), 5);
        }
        _ => panic!("expected end of input"),
    }
    match parse("(1 + 2") {
        Err(ParseError::UnrecognizedEof { location, expected }) => {
            assert_eq!(location, 6);
            assert_eq!(expected.last(), Some(&TokenKind::CloseRoundBracket));
        }
        _ => panic!("expected end of input"),
    }
}

#[test]
fn assignment_forms() {
    let stmts = parse("a = b = 3");
    match stmts {
        Err(ParseError::UnrecognizedToken { token, .. }) => assert_eq!(token.0, 6),
        _ => panic!("nested assignment must be rejected"),
    }
    assert!(matches!(parse("1 = 2"), Err(ParseError::UnrecognizedToken { .. })));
    assert!(matches!(parse("(a) = 2"), Err(ParseError::UnrecognizedToken { .. })));
    match parse("a b") {
        Err(ParseError::UnrecognizedToken { expected, .. }) => {
            assert!(expected.contains(&TokenKind::Assign))
        }
        _ => panic!("expected an unexpected token"),
    }
}

#[test]
fn square_brackets_are_reserved() {
    assert!(matches!(parse("[1]"), Err(ParseError::UnrecognizedToken { .. })));
}

#[test]
fn literal_out_of_range() {
    match parse("1 + 170141183460469231731687303715884105728") {
        Err(ParseError::User { error }) => {
            assert_eq!(error, LexicalError::NumberOutOfRange(4, 43))
        }
        _ => panic!("expected an out-of-range literal"),
    }
}

#[test]
fn empty_statements_dropped() {
    let stmts = parse(";;; a= 3 ;;;;;").unwrap();
    assert_eq!(stmts.0.len(), 1);
    assert_eq!(stmts.to_string(), "a = 3;");
    assert_eq!(stmts.0[0].to_string(), "a = 3;");
    assert_eq!(parse("  \n\t ").unwrap().0.len(), 0);
}

#[test]
fn spans_of_nodes() {
    let stmts = parse("-(1 + 22) * x").unwrap();
    let node = &stmts.0[0].0;
    assert_eq!(node.loc(), Loc(0, 13));
    match node {
        Node::Multiply(_, l, r) => {
            assert_eq!(l.loc(), Loc(0, 9));
            assert_eq!(r.loc(), Loc(12, 13));
        }
        _ => panic!("expected a product"),
    }
    let stmts = parse("abc = 1").unwrap();
    assert_eq!(stmts.0[0].0.loc(), Loc(0, 7));
}

#[test]
fn token_display_texts() {
    assert_eq!(Token::Variable("abc".to_string()).to_string(), "\"abc\"");
    assert_eq!(Token::Number("42".to_string()).to_string(), "\"42\"");
    assert_eq!(Token::Pi.to_string(), "PI");
    assert_eq!(Token::OpPow.to_string(), "**");
    assert_eq!(Token::Semicolon.to_string(), ";");
    assert_eq!(Token::Assign.to_string(), "=");
}

#[test]
fn lexical_error_messages() {
    assert_eq!(
        LexicalError::UnrecognizedSymbol(9, '?').message(),
        "lexical error: unrecognized symbol '?' at 9"
    );
    assert_eq!(
        LexicalError::NumberOutOfRange(4, 43).message(),
        "lexical error: number literal out of range at 4..43"
    );
}

#[test]
fn non_ascii_symbol() {
    match parse("1 + é") {
        Err(ParseError::User { error }) => {
            assert_eq!(error, LexicalError::UnrecognizedSymbol(4, 'é'))
        }
        _ => panic!("expected a lexical error"),
    }
}

#[test]
fn parse_error_messages() {
    assert_eq!(
        parse("1 2").unwrap_err().message(),
        "unrecognized token \"2\" at 2..3, expected one of +, -, *, /, **, ;"
    );
    assert_eq!(
        parse("a b").unwrap_err().message(),
        "unrecognized token \"b\" at 2..3, expected one of +, -, *, /, **, =, ;"
    );
    assert_eq!(
        parse("1+").unwrap_err().message(),
        "unexpected end of input at 2, expected one of (, -, PI, number, identifier"
    );
    assert_eq!(
        parse("(1 ]").unwrap_err().message(),
        "unrecognized token ] at 3..4, expected one of +, -, *, /, **, )"
    );
    assert_eq!(
        parse("3 + ?").unwrap_err().message(),
        "lexical error: unrecognized symbol '?' at 4"
    );
}

#[test]
fn unexpected_token_keeps_its_text() {
    match parse("1 2") {
        Err(ParseError::UnrecognizedToken { token: (2, Token::Number(text), 3), expected }) => {
            assert_eq!(text, "2");
            assert!(!expected.is_empty());
        }
        _ => panic!("expected an unexpected number"),
    }
}
