use jsonata_rs::{parse, Error, Lexer, Parser};

fn canon(source: &str) -> String {
    parse(Lexer::new(source)).unwrap().canonical()
}

fn parse_err(source: &str) -> Error {
    parse(Lexer::new(source)).unwrap_err()
}

#[test]
fn test_parse_parenthesised_expression() {
    assert_eq!(canon("(((0)))"), "0");
    assert_eq!(canon("(1 + 2) * 3"), "(* (+ 1 2) 3)");
}

#[test]
fn test_parse_prefix() {
    assert_eq!(canon("--1 * 2"), "(* (- (- 1)) 2)");
    assert_eq!(canon("--f . g"), "(- (- (. f g)))");
    assert_eq!(canon("-(34 + 35)"), "(- (+ 34 35))");
}

#[test]
fn test_parse_expression_complex() {
    assert_eq!(
        canon("1 + 2 + f . g . h * 3 * 4"),
        "(+ (+ 1 2) (* (* (. f (. g h)) 3) 4))"
    );
}

#[test]
fn test_parse_path_expression() {
    assert_eq!(canon("price.foo.bar"), "(. price (. foo bar))");
    assert_eq!(canon("price.\"my name\".bar"), "(. price (. \"my name\" bar))");
}

#[test]
fn test_parse_numeric_expression() {
    assert_eq!(canon("1"), "1");
    assert_eq!(canon("1 + 2 * 3"), "(+ 1 (* 2 3))");
    assert_eq!(canon("a + b * c * d + e"), "(+ (+ a (* (* b c) d)) e)");
}

#[test]
fn test_parse_with_parser_struct() {
    let parser = Parser::new("1 + 2 * 3");
    let expr = parser.parse().unwrap();
    assert_eq!(expr.canonical(), "(+ 1 (* 2 3))");
}

#[test]
fn test_parse_modulo() {
    assert_eq!(canon("7 % 4"), "(% 7 4)");
    assert_eq!(canon("1 + 7 % 4"), "(+ 1 (% 7 4))");
}

#[test]
fn test_parse_variable_reference() {
    assert_eq!(canon("$a * x"), "(* $a x)");
}

#[test]
fn test_parse_call_arguments() {
    assert_eq!(canon("$f()"), "$f()");
    assert_eq!(canon("$f(40)"), "$f(40)");
    assert_eq!(canon("$f(1, 2 + 3)"), "$f(1(+ 2 3))");
    assert_eq!(canon("$sum(example.value)"), "$sum((. example value))");
}

#[test]
fn test_parse_trailing_comma_rejected() {
    assert_eq!(parse_err("$f(1,)"), Error::UnexpectedToken);
}

#[test]
fn test_parse_empty_input() {
    assert_eq!(canon(""), "");
    assert_eq!(canon("   "), "");
}

#[test]
fn test_parse_unbalanced_parens() {
    assert_eq!(parse_err("(1 + 2"), Error::UnbalancedParens);
    assert_eq!(parse_err("((1)"), Error::UnbalancedParens);
    assert_eq!(parse_err("$f(1"), Error::UnbalancedParens);
}

#[test]
fn test_parse_unexpected_token() {
    assert_eq!(parse_err("1 2"), Error::UnexpectedToken);
    assert_eq!(parse_err("* 3"), Error::UnexpectedToken);
}

#[test]
fn test_parse_unterminated_string() {
    assert_eq!(parse_err("\"abc"), Error::UnterminatedString);
}

#[test]
fn test_parse_reserved_word() {
    assert_eq!(parse_err("true"), Error::Unsupported);
}

#[test]
fn test_parse_deep_nesting_rejected() {
    let mut source = String::new();
    for _ in 0..150 {
        source.push('(');
    }
    source.push('1');
    for _ in 0..150 {
        source.push(')');
    }
    assert_eq!(parse_err(&source), Error::ExpressionTooComplex);
}

#[test]
fn test_parse_trailing_close_paren_stops() {
    // the parser stops before a token that cannot continue the expression
    assert_eq!(canon("1)"), "1");
}
