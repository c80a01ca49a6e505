use pl_ast::lexer::Lexer;
use pl_ast::token::{LexerError, Token, TokenKind};

fn tokenize(source: &str) -> Result<Vec<Token>, LexerError> {
    let mut lexer = Lexer::new(source.to_string());
    lexer.tokenize()?;
    Ok(lexer.tokens)
}

fn kinds(tokens: &[Token]) -> Vec<TokenKind> {
    tokens.iter().map(|t| t.kind()).collect()
}

#[test]
fn compound_add_is_one_token() {
    // maximal munch: += is one compound-add token, not Plus then Equals
    let tokens = tokenize("+=").unwrap();
    assert_eq!(kinds(&tokens), vec![TokenKind::Addition, TokenKind::EOF]);
    let tokens = tokenize("-=").unwrap();
    assert_eq!(kinds(&tokens), vec![TokenKind::Subtraction, TokenKind::EOF]);
    let tokens = tokenize("*=").unwrap();
    assert_eq!(
        kinds(&tokens),
        vec![TokenKind::Multiplication, TokenKind::EOF]
    );
    let tokens = tokenize("/=").unwrap();
    assert_eq!(kinds(&tokens), vec![TokenKind::Division, TokenKind::EOF]);
    let tokens = tokenize("%=").unwrap();
    assert_eq!(kinds(&tokens), vec![TokenKind::Modulation, TokenKind::EOF]);
}

#[test]
fn string_escape_decodes() {
    // "a\tb" decodes to a, tab, b
    let tokens = tokenize("\"a\\tb\"").unwrap();
    assert_eq!(tokens.len(), 2);
    match &tokens[0] {
        Token::StringLiteral(lit) => assert_eq!(lit.value(), "a\tb"),
        other => panic!("expected a StringLiteral, got {:?}", other),
    }
    assert_eq!(tokens[1].kind(), TokenKind::EOF);
}

#[test]
fn all_escapes_decode() {
    let tokens = tokenize("\"\\t\\n\\r\\\"\\'\"").unwrap();
    match &tokens[0] {
        Token::StringLiteral(lit) => assert_eq!(lit.value(), "\t\n\r\"'"),
        other => panic!("expected a StringLiteral, got {:?}", other),
    }
}

#[test]
fn unsupported_escape_is_fatal() {
    match tokenize("\"a\\qb\"") {
        Err(LexerError::UnexpectedEscapeCharacter(c)) => assert_eq!(c, 'q'),
        other => panic!("expected UnexpectedEscapeCharacter, got {:?}", other),
    }
}

#[test]
fn unterminated_string_is_fatal() {
    assert!(matches!(tokenize("\"abc"), Err(LexerError::UnexpectedEOF)));
}

#[test]
fn numeric_with_two_points_is_fatal() {
    match tokenize("1.2.3") {
        Err(LexerError::UnexpectedToken(text)) => assert_eq!(text, "1.2.3"),
        other => panic!("expected UnexpectedToken, got {:?}", other),
    }
}

#[test]
fn oversized_integer_is_fatal() {
    match tokenize("99999999999999999999999999999999999999") {
        Err(LexerError::ParseNumberError(text)) => {
            assert_eq!(text, "99999999999999999999999999999999999999")
        }
        other => panic!("expected ParseNumberError, got {:?}", other),
    }
}

#[test]
fn unrecognized_character_is_fatal() {
    match tokenize("@") {
        Err(LexerError::UnexpectedToken(text)) => assert_eq!(text, "@"),
        other => panic!("expected UnexpectedToken, got {:?}", other),
    }
}

#[test]
fn comment_contributes_no_tokens() {
    // "# comment\n1" tokenizes to the same kind sequence as "\n1"
    let with_comment = tokenize("# comment\n1").unwrap();
    let without = tokenize("\n1").unwrap();
    assert_eq!(kinds(&with_comment), kinds(&without));
    assert_eq!(
        kinds(&with_comment),
        vec![TokenKind::Newline, TokenKind::Integer, TokenKind::EOF]
    );
}

#[test]
fn integer_value_decodes() {
    let tokens = tokenize("42").unwrap();
    match &tokens[0] {
        Token::Integer(lit) => assert_eq!(lit.value(), 42),
        other => panic!("expected an Integer, got {:?}", other),
    }
}

#[test]
fn decimal_keeps_its_text() {
    let tokens = tokenize("3.14").unwrap();
    match &tokens[0] {
        Token::Decimal(lit) => assert_eq!(lit.value(), "3.14"),
        other => panic!("expected a Decimal, got {:?}", other),
    }
}

#[test]
fn identifier_carries_its_text() {
    let tokens = tokenize("abc_123").unwrap();
    match &tokens[0] {
        Token::Identifier(lit) => assert_eq!(lit.value(), "abc_123"),
        other => panic!("expected an Identifier, got {:?}", other),
    }
}

#[test]
fn keywords_take_precedence_over_identifiers() {
    for (text, kind) in [
        ("def", TokenKind::Def),
        ("true", TokenKind::True),
        ("false", TokenKind::False),
        ("null", TokenKind::Null),
        ("if", TokenKind::If),
        ("else", TokenKind::Else),
        ("and", TokenKind::And),
        ("or", TokenKind::Or),
        ("for", TokenKind::For),
        ("in", TokenKind::In),
        ("let", TokenKind::Let),
        ("const", TokenKind::Const),
        ("return", TokenKind::Return),
        ("class", TokenKind::Class),
        ("from", TokenKind::From),
        ("import", TokenKind::Import),
        ("static", TokenKind::Static),
    ] {
        let tokens = tokenize(text).unwrap();
        assert_eq!(kinds(&tokens), vec![kind, TokenKind::EOF]);
    }
}

#[test]
fn positions_track_lines_and_columns() {
    let tokens = tokenize("a\nbb c").unwrap();
    // a at (1, 0); newline at (1, 1); bb at (2, 0); c at (2, 3)
    assert_eq!((tokens[0].line(), tokens[0].column()), (1, 0));
    assert_eq!((tokens[1].line(), tokens[1].column()), (1, 1));
    assert_eq!((tokens[2].line(), tokens[2].column()), (2, 0));
    assert_eq!((tokens[3].line(), tokens[3].column()), (2, 3));
}

#[test]
fn two_character_operator_advances_two_columns() {
    // after ++ at columns 0-1, the next token stands at source column 2
    let tokens = tokenize("++*").unwrap();
    assert_eq!(kinds(&tokens), vec![
        TokenKind::Increment,
        TokenKind::Multiply,
        TokenKind::EOF,
    ]);
    assert_eq!((tokens[0].line(), tokens[0].column()), (1, 0));
    assert_eq!((tokens[1].line(), tokens[1].column()), (1, 2));
    assert_eq!((tokens[2].line(), tokens[2].column()), (1, 3));
}

#[test]
fn lexing_error_discards_produced_tokens() {
    // the fatal error aborts the whole call: no partial token list remains
    let mut lexer = Lexer::new("+ 1.2.3".to_string());
    assert!(lexer.tokenize().is_err());
    assert_eq!(lexer.tokens.len(), 0);
}
