//! A small expression language: a lexer, a precedence-climbing parser, and
//! a tree-walking evaluator over a host-provided, JSON-like data type.
//!
//! The grammar offers numeric literals, double-quoted strings, bare names,
//! the operators `+ - * / %`, parenthesized grouping, prefix `-`, the path
//! operator `.`, variable references `$name` and calls `$name(arg, ...)`.
//! A compiled expression pairs the parsed tree with an environment of named
//! bindings and can be evaluated any number of times against different
//! root data.

mod chars;
mod data;
mod environment;
mod error;
mod evaluate;
mod expression;
mod lexer;
mod parser;
mod token;

pub use data::JsonataData;
pub use environment::{Binding, Builtin, Environment, HostFunction};
pub use evaluate::{evaluate, outcome_matches, spec_eval, sum, EvalOutcome, ListOutcome};
pub use error::Error;
pub use expression::{Atom, Expression, NumericBinaryOperator, NumericUnaryOperator, Variable};
pub use expression::{spec_canonical, AtomView, ExpressionView, VariableView};
pub use lexer::Lexer;
pub use parser::{infix_binding_power, parse, prefix_binding_power, spec_parse, Parser, MAX_DEPTH};
pub use token::{Operator, Token, TokenView};

// The sequence type the capability trait's specification members speak of,
// for embedding hosts that implement the trait outside the verified world.
pub use vstd::seq::Seq;

use vstd::prelude::*;

verus! {

/// The environment a compiled expression starts with: the built-in
/// functions under their names, nothing else.
pub open spec fn spec_initial_env<T, F>() -> Map<Seq<char>, Binding<T, F>> {
    Map::empty().insert("sum"@, Binding::Builtin(Builtin::Sum))
}

/// A compiled expression: a parsed tree paired with an environment. It is
/// created once and may be evaluated any number of times; evaluation never
/// changes it.
pub struct Jsonata<T, F> {
    ast: Expression,
    environment: Environment<T, F>,
}

impl<T: JsonataData, F: HostFunction<T>> Jsonata<T, F> {
    /// The compiled tree.
    pub closed spec fn ast_view(&self) -> ExpressionView {
        self.ast@
    }

    /// The environment's current content.
    pub closed spec fn env(&self) -> Map<Seq<char>, Binding<T, F>> {
        self.environment@
    }

    /// Wraps a parsed tree with the initial environment.
    pub fn new(ast: Expression) -> (r: Self)
        ensures
            r.ast_view() == ast@,
            r.env() == spec_initial_env::<T, F>(),
    {
        let mut environment = Environment::new();
        environment.bind("sum".to_owned(), Binding::Builtin(Builtin::Sum));
        Jsonata { ast, environment }
    }

    /// Inserts or overwrites the binding for `name`.
    pub fn bind(&mut self, name: String, binding: Binding<T, F>)
        ensures
            final(self).ast_view() == old(self).ast_view(),
            final(self).env() == old(self).env().insert(name@, binding),
    {
        self.environment.bind(name, binding);
    }

    /// Evaluates the compiled expression against `data`.
    ///
    /// The result is a function of the tree, the environment and this
    /// call's root data alone (up to what host-registered functions
    /// return), and the compiled expression is not changed: evaluations
    /// with different data are independent of each other and of their
    /// order.
    pub fn evaluate(&self, data: &T) -> (r: Result<T, Error>)
        ensures
            outcome_matches(spec_eval(self.ast_view(), *data, self.env()), r),
    {
        evaluate(&self.ast, data, &self.environment)
    }
}

/// Compiles the source text into an expression ready to evaluate, with the
/// built-in functions pre-registered; returns the lexing or parse error on
/// malformed input.
pub fn jsonata<T: JsonataData, F: HostFunction<T>>(expr: &str) -> (r: Result<Jsonata<T, F>, Error>)
    ensures
        match spec_parse(expr@) {
            Ok(ast) => r matches Ok(j) && j.ast_view() == ast && j.env() == spec_initial_env::<
                T,
                F,
            >(),
            Err(e) => r == Err::<Jsonata<T, F>, Error>(e),
        },
{
    let parser = Parser::new(expr);
    match parser.parse() {
        Ok(ast) => Ok(Jsonata::new(ast)),
        Err(e) => Err(e),
    }
}

/// Division is total on numeric operands: when both sides of `/` evaluate
/// to numeric values, the quotient is a value built by the host's division
/// — for an IEEE754 host, an infinity when the divisor encodes zero —
/// never an error.
pub proof fn lemma_division_yields_value<T: JsonataData, F>(
    l: ExpressionView,
    r: ExpressionView,
    data: T,
    env: Map<Seq<char>, Binding<T, F>>,
)
    requires
        spec_eval(l, data, env) matches EvalOutcome::Value(lv) && lv.spec_num() is Some,
        spec_eval(r, data, env) matches EvalOutcome::Value(rv) && rv.spec_num() is Some,
    ensures
        spec_eval(
            ExpressionView::BinaryNumeric(NumericBinaryOperator::Div, Box::new(l), Box::new(r)),
            data,
            env,
        ) == EvalOutcome::Value(
            T::spec_from_num(
                T::spec_div(
                    spec_eval(l, data, env)->Value_0.spec_num()->Some_0,
                    spec_eval(r, data, env)->Value_0.spec_num()->Some_0,
                ),
            ),
        ),
{
}

} // verus!
