use vstd::prelude::*;

verus! {

/// Every failure the library can report, as a typed value.
///
/// Lexing: `S0102` (a numeric literal that cannot be read as a number),
/// `UnterminatedString` (a string literal with no closing quote),
/// `Unsupported` (a reserved word whose evaluation is not implemented).
///
/// Parsing: `UnexpectedToken` (a token where none was expected),
/// `UnbalancedParens` (a missing closing parenthesis),
/// `ExpressionTooComplex` (nesting beyond the parser's depth bound).
///
/// Evaluation: `T2001` / `T2002` (the left / right operand of a numeric
/// operator is not numeric), `D1002` (negation of a non-numeric value),
/// `NameNotFound` (a field lookup on the context found nothing),
/// `UnboundVariable` (a variable with no binding),
/// `FunctionUsedAsValue` (a function binding referenced as a value),
/// `NotAFunction` (a value binding invoked as a function),
/// `ArgumentTypeMismatch` (a built-in function given the wrong arguments).
#[derive(Debug, Clone, Copy, PartialEq, Eq, Structural)]
pub enum Error {
    T2001,
    T2002,
    S0102,
    D1002,
    UnterminatedString,
    Unsupported,
    UnexpectedToken,
    UnbalancedParens,
    ExpressionTooComplex,
    NameNotFound,
    UnboundVariable,
    FunctionUsedAsValue,
    NotAFunction,
    ArgumentTypeMismatch,
}

} // verus!
