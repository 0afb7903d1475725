use json_lexer::lexer::lexer;
use json_lexer::token::{LexerError, Number, Token};

#[test]
fn empty_input_gives_no_tokens() {
    let tokens = lexer(String::new()).unwrap();
    assert!(tokens.is_empty());
}

#[test]
fn whitespace_only_gives_no_tokens() {
    let tokens = lexer(String::from(" \t\r\n  ")).unwrap();
    assert!(tokens.is_empty());
}

#[test]
fn brace_pair() {
    let tokens = lexer(String::from("{}")).unwrap();
    assert_eq!(tokens, vec![Token::LeftCurlyBrace, Token::RightCurlyBrace]);
}

#[test]
fn bracketed_integer_list() {
    let tokens = lexer(String::from("[1,2,3]")).unwrap();
    assert_eq!(
        tokens,
        vec![
            Token::LeftSquareBrace,
            Token::Number(Number::Integer(1)),
            Token::Comma,
            Token::Number(Number::Integer(2)),
            Token::Comma,
            Token::Number(Number::Integer(3)),
            Token::RightSquareBrace,
        ]
    );
}

#[test]
fn simple_string_literal() {
    let tokens = lexer(String::from("\"abc\"")).unwrap();
    assert_eq!(tokens, vec![Token::StringToken(String::from("abc"))]);
}

#[test]
fn unterminated_string_fails() {
    let err = lexer(String::from("\"abc")).unwrap_err();
    assert_eq!(err, LexerError::UnterminatedString);
}

#[test]
fn keyword_literals() {
    assert_eq!(
        lexer(String::from("true")).unwrap(),
        vec![Token::Bool(true)]
    );
    assert_eq!(
        lexer(String::from("false")).unwrap(),
        vec![Token::Bool(false)]
    );
    assert_eq!(lexer(String::from("null")).unwrap(), vec![Token::Null]);
}

#[test]
fn keyword_match_swallows_following_character() {
    // After 't', exactly "rue" is consumed and matched; the trailing 'x' is
    // then consumed silently with no token and no error.
    let tokens = lexer(String::from("truex")).unwrap();
    assert_eq!(tokens, vec![Token::Bool(true)]);
}

#[test]
fn keyword_mismatch_is_swallowed_silently() {
    // 'n' consumes the next three characters; "ope" is not "ull", so nothing
    // is emitted and nothing fails.
    assert_eq!(lexer(String::from("nope")).unwrap(), vec![]);
    // Truncated keywords at end of input are swallowed too.
    assert_eq!(lexer(String::from("tr")).unwrap(), vec![]);
    assert_eq!(lexer(String::from("fals")).unwrap(), vec![]);
}

#[test]
fn integer_literal() {
    let tokens = lexer(String::from("123")).unwrap();
    assert_eq!(tokens, vec![Token::Number(Number::Integer(123))]);
}

#[test]
fn float_literal() {
    let tokens = lexer(String::from("1.5")).unwrap();
    assert_eq!(
        tokens,
        vec![Token::Number(Number::Float(String::from("1.5")))]
    );
    match &tokens[0] {
        Token::Number(Number::Float(text)) => {
            assert_eq!(text.parse::<f64>().unwrap(), 1.5);
        }
        other => panic!("expected a float token, got {:?}", other),
    }
}

#[test]
fn double_dotted_float_fails() {
    let err = lexer(String::from("1.2.3")).unwrap_err();
    assert_eq!(err, LexerError::InvalidFloat(String::from("1.2.3")));
}

#[test]
fn negative_numbers() {
    assert_eq!(
        lexer(String::from("-456")).unwrap(),
        vec![Token::Number(Number::Integer(-456))]
    );
    assert_eq!(
        lexer(String::from("-85.545")).unwrap(),
        vec![Token::Number(Number::Float(String::from("-85.545")))]
    );
}

#[test]
fn integer_bounds() {
    assert_eq!(
        lexer(String::from("-9223372036854775808")).unwrap(),
        vec![Token::Number(Number::Integer(i64::MIN))]
    );
    assert_eq!(
        lexer(String::from("9223372036854775807")).unwrap(),
        vec![Token::Number(Number::Integer(i64::MAX))]
    );
    let err = lexer(String::from("9223372036854775808")).unwrap_err();
    assert_eq!(
        err,
        LexerError::InvalidInteger(String::from("9223372036854775808"))
    );
    let err = lexer(String::from("-9223372036854775809")).unwrap_err();
    assert_eq!(
        err,
        LexerError::InvalidInteger(String::from("-9223372036854775809"))
    );
}

#[test]
fn lone_minus_fails() {
    let err = lexer(String::from("-")).unwrap_err();
    assert_eq!(err, LexerError::InvalidInteger(String::from("-")));
}

#[test]
fn exponent_without_point_is_not_an_integer() {
    // "1e5" has no decimal point, so it is parsed as an integer and fails.
    let err = lexer(String::from("1e5")).unwrap_err();
    assert_eq!(err, LexerError::InvalidInteger(String::from("1e5")));
}

#[test]
fn exponent_floats() {
    assert_eq!(
        lexer(String::from("6.022e23")).unwrap(),
        vec![Token::Number(Number::Float(String::from("6.022e23")))]
    );
    assert_eq!(
        lexer(String::from("-1.6e-19")).unwrap(),
        vec![Token::Number(Number::Float(String::from("-1.6e-19")))]
    );
}

#[test]
fn trailing_point_float() {
    assert_eq!(
        lexer(String::from("1.")).unwrap(),
        vec![Token::Number(Number::Float(String::from("1.")))]
    );
    assert_eq!("1.".parse::<f64>().unwrap(), 1.0);
}

#[test]
fn malformed_exponent_fails() {
    let err = lexer(String::from("1.5e")).unwrap_err();
    assert_eq!(err, LexerError::InvalidFloat(String::from("1.5e")));
}

#[test]
fn escaped_quote_stays_in_string() {
    // Input text: "a\"b" — the backslash suppresses termination, and both
    // the backslash and the quote are kept verbatim.
    let tokens = lexer(String::from("\"a\\\"b\"")).unwrap();
    assert_eq!(tokens, vec![Token::StringToken(String::from("a\\\"b"))]);
}

#[test]
fn escape_sequences_kept_verbatim() {
    // Input text: "\n" — two characters, backslash and 'n', not decoded.
    let tokens = lexer(String::from("\"\\n\"")).unwrap();
    assert_eq!(tokens, vec![Token::StringToken(String::from("\\n"))]);
}

#[test]
fn quote_after_backslash_run_does_not_close() {
    // Input text: "a\\ followed by a quote. Termination looks only at the
    // last consumed character, which is a backslash, so the final quote does
    // not close the string and the input ends unterminated.
    let err = lexer(String::from("\"a\\\\\"")).unwrap_err();
    assert_eq!(err, LexerError::UnterminatedString);
}

#[test]
fn structural_and_whitespace_token_count() {
    // Structural characters and whitespace only: one token per structural
    // character, none for whitespace.
    let tokens = lexer(String::from(" { } [ ] : , \t\n")).unwrap();
    assert_eq!(tokens.len(), 6);
    assert_eq!(
        tokens,
        vec![
            Token::LeftCurlyBrace,
            Token::RightCurlyBrace,
            Token::LeftSquareBrace,
            Token::RightSquareBrace,
            Token::Colon,
            Token::Comma,
        ]
    );
}

#[test]
fn small_document() {
    let tokens = lexer(String::from("{\"a\": [1, 2.5, true, null]}")).unwrap();
    assert_eq!(
        tokens,
        vec![
            Token::LeftCurlyBrace,
            Token::StringToken(String::from("a")),
            Token::Colon,
            Token::LeftSquareBrace,
            Token::Number(Number::Integer(1)),
            Token::Comma,
            Token::Number(Number::Float(String::from("2.5"))),
            Token::Comma,
            Token::Bool(true),
            Token::Comma,
            Token::Null,
            Token::RightSquareBrace,
            Token::RightCurlyBrace,
        ]
    );
}

#[test]
fn token_rendering() {
    assert_eq!(Token::LeftCurlyBrace.render(), "{");
    assert_eq!(Token::RightCurlyBrace.render(), "}");
    assert_eq!(Token::LeftSquareBrace.render(), "[");
    assert_eq!(Token::RightSquareBrace.render(), "]");
    assert_eq!(Token::Colon.render(), ":");
    assert_eq!(Token::Comma.render(), ",");
    assert_eq!(Token::StringToken(String::from("hi")).render(), "\"hi\"");
    assert_eq!(Token::Number(Number::Integer(-42)).render(), "-42");
    assert_eq!(Token::Number(Number::Integer(0)).render(), "0");
    assert_eq!(
        Token::Number(Number::Float(String::from("1.5"))).render(),
        "1.5"
    );
    assert_eq!(Token::Null.render(), "null");
    assert_eq!(Token::Bool(true).render(), "true");
    assert_eq!(Token::Bool(false).render(), "false");
}

#[test]
fn error_rendering() {
    assert_eq!(
        LexerError::UnterminatedString.render(),
        "Unterminated string literal"
    );
    assert_eq!(
        LexerError::InvalidFloat(String::from("1.2.3")).render(),
        "Error parsing float literal: 1.2.3"
    );
    assert_eq!(
        LexerError::InvalidInteger(String::from("1e5")).render(),
        "Error parsing integer literal: 1e5"
    );
}

#[test]
fn render_tokens_separates_with_spaces() {
    let tokens = vec![
        Token::LeftSquareBrace,
        Token::Number(Number::Integer(1)),
        Token::Comma,
        Token::Number(Number::Integer(2)),
        Token::RightSquareBrace,
    ];
    assert_eq!(json_lexer::token::render_tokens(&tokens), "[ 1 , 2 ] ");
}

#[test]
fn render_then_scan_reproduces_simple_tokens() {
    // The round trip proved in general for structural, integer, boolean and
    // null tokens, on a concrete sequence.
    let tokens = vec![
        Token::LeftCurlyBrace,
        Token::Bool(true),
        Token::Comma,
        Token::Bool(false),
        Token::Comma,
        Token::Null,
        Token::Comma,
        Token::Number(Number::Integer(-7)),
        Token::Number(Number::Integer(12)),
        Token::RightCurlyBrace,
    ];
    let rendered = json_lexer::token::render_tokens(&tokens);
    let again = lexer(rendered).unwrap();
    assert_eq!(again, tokens);
}
