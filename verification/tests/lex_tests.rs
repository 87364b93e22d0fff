use jsonata_rs::{Error, Lexer, Operator, Token};

fn tokens(source: &str) -> Result<Vec<Token>, Error> {
    let mut lexer = Lexer::new(source);
    lexer.collect_tokens()
}

#[test]
fn test_lex_sum_fn() {
    let ts = tokens("$sum(example.value)").unwrap();
    assert_eq!(
        ts,
        vec![
            Token::Variable("sum".to_string()),
            Token::Operator(Operator::ParenLeft),
            Token::Name("example".to_string()),
            Token::Operator(Operator::Dot),
            Token::Name("value".to_string()),
            Token::Operator(Operator::ParenRight),
        ]
    );
}

#[test]
fn test_lex_string() {
    let ts = tokens("foo.\"bar\"").unwrap();
    assert_eq!(
        ts,
        vec![
            Token::Name("foo".to_string()),
            Token::Operator(Operator::Dot),
            Token::String("bar".to_string()),
        ]
    );
}

#[test]
fn test_lex_prefix_number() {
    let ts = tokens("-1").unwrap();
    assert_eq!(
        ts,
        vec![
            Token::Operator(Operator::Minus),
            Token::Number("1".to_string()),
        ]
    );
}

#[test]
fn test_lex_single_number() {
    let ts = tokens("1").unwrap();
    assert_eq!(ts, vec![Token::Number("1".to_string())]);
}

#[test]
fn test_lex_simple_expression() {
    let ts = tokens("$price.foo.bar").unwrap();
    assert_eq!(
        ts,
        vec![
            Token::Variable("price".to_string()),
            Token::Operator(Operator::Dot),
            Token::Name("foo".to_string()),
            Token::Operator(Operator::Dot),
            Token::Name("bar".to_string()),
        ]
    );
}

#[test]
fn test_lex_handle_whitespace() {
    let ts = tokens("  foo   bar  ").unwrap();
    assert_eq!(
        ts,
        vec![Token::Name("foo".to_string()), Token::Name("bar".to_string())]
    );
}

#[test]
fn test_lex_numeric_expression() {
    let ts = tokens("1 +2* 3 ").unwrap();
    assert_eq!(
        ts,
        vec![
            Token::Number("1".to_string()),
            Token::Operator(Operator::Plus),
            Token::Number("2".to_string()),
            Token::Operator(Operator::Star),
            Token::Number("3".to_string()),
        ]
    );
}

#[test]
fn test_lex_comma() {
    let ts = tokens("$f(1, 2)").unwrap();
    assert_eq!(
        ts,
        vec![
            Token::Variable("f".to_string()),
            Token::Operator(Operator::ParenLeft),
            Token::Number("1".to_string()),
            Token::Operator(Operator::Comma),
            Token::Number("2".to_string()),
            Token::Operator(Operator::ParenRight),
        ]
    );
}

#[test]
fn test_lex_unterminated_string() {
    assert_eq!(tokens("foo.\"bar"), Err(Error::UnterminatedString));
}

#[test]
fn test_lex_reserved_words() {
    assert_eq!(tokens("or"), Err(Error::Unsupported));
    assert_eq!(tokens("in"), Err(Error::Unsupported));
    assert_eq!(tokens("and"), Err(Error::Unsupported));
    assert_eq!(tokens("true"), Err(Error::Unsupported));
    assert_eq!(tokens("false"), Err(Error::Unsupported));
    assert_eq!(tokens("null"), Err(Error::Unsupported));
    assert_eq!(
        tokens("truey"),
        Ok(vec![Token::Name("truey".to_string())])
    );
}

#[test]
fn test_lex_malformed_number() {
    // an Arabic-Indic digit continues the numeric literal but the text is
    // no longer a plain decimal number
    assert_eq!(tokens("1\u{0663}"), Err(Error::S0102));
}

#[test]
fn test_lex_peek_then_next() {
    let mut lexer = Lexer::new("a b");
    let peeked = lexer.peek().unwrap().clone().unwrap();
    assert_eq!(peeked, Token::Name("a".to_string()));
    let peeked_again = lexer.peek().unwrap().clone().unwrap();
    assert_eq!(peeked_again, Token::Name("a".to_string()));
    let taken = lexer.next().unwrap().unwrap();
    assert_eq!(taken, Token::Name("a".to_string()));
    let second = lexer.next().unwrap().unwrap();
    assert_eq!(second, Token::Name("b".to_string()));
    assert!(lexer.next().is_none());
}
