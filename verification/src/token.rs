use vstd::prelude::*;

verus! {

/// The single-character operators the lexer recognizes.
#[derive(Debug, Clone, Copy, PartialEq, Eq, Structural)]
pub enum Operator {
    Plus,
    Slash,
    Star,
    Dot,
    ParenRight,
    ParenLeft,
    Minus,
    Percentage,
    Comma,
}

/// One lexical unit of the source text.
///
/// A `Number` carries the literal digits as written; turning them into the
/// host's numeric value is the host's concern, not the lexer's.
#[derive(Debug, Clone, PartialEq, Eq)]
pub enum Token {
    Operator(Operator),
    String(String),
    Name(String),
    Number(String),
    Variable(String),
}

/// The mathematical shape of a token: its text fields as character sequences.
pub enum TokenView {
    Operator(Operator),
    String(Seq<char>),
    Name(Seq<char>),
    Number(Seq<char>),
    Variable(Seq<char>),
}

impl View for Token {
    type V = TokenView;

    open spec fn view(&self) -> TokenView {
        match self {
            Token::Operator(op) => TokenView::Operator(*op),
            Token::String(s) => TokenView::String(s@),
            Token::Name(s) => TokenView::Name(s@),
            Token::Number(s) => TokenView::Number(s@),
            Token::Variable(s) => TokenView::Variable(s@),
        }
    }
}

/// The characters that stand for operators, and which operator each one is.
pub open spec fn spec_operator_of(c: char) -> Option<Operator> {
    if c == '+' {
        Some(Operator::Plus)
    } else if c == '-' {
        Some(Operator::Minus)
    } else if c == '*' {
        Some(Operator::Star)
    } else if c == '/' {
        Some(Operator::Slash)
    } else if c == '%' {
        Some(Operator::Percentage)
    } else if c == '.' {
        Some(Operator::Dot)
    } else if c == ')' {
        Some(Operator::ParenRight)
    } else if c == '(' {
        Some(Operator::ParenLeft)
    } else if c == ',' {
        Some(Operator::Comma)
    } else {
        None
    }
}

/// Recognizes an operator character, by the table of `spec_operator_of`.
pub fn operator_of(c: char) -> (r: Option<Operator>)
    ensures
        r == spec_operator_of(c),
{
    match c {
        '+' => Some(Operator::Plus),
        '-' => Some(Operator::Minus),
        '*' => Some(Operator::Star),
        '/' => Some(Operator::Slash),
        '%' => Some(Operator::Percentage),
        '.' => Some(Operator::Dot),
        ')' => Some(Operator::ParenRight),
        '(' => Some(Operator::ParenLeft),
        ',' => Some(Operator::Comma),
        _ => None,
    }
}

} // verus!
